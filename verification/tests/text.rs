use unicode_tables::text;
use unicode_tables::text::radix;

fn chars(s: &str) -> Vec<char> {
    s.chars().collect()
}

fn strings(pieces: Vec<&[char]>) -> Vec<String> {
    pieces.into_iter().map(|p| p.iter().collect()).collect()
}

#[test]
fn chars_and_back() {
    let v = text::to_chars("a\u{301}b");
    assert_eq!(v, vec!['a', '\u{301}', 'b']);
    assert_eq!(text::from_chars(&v), "a\u{301}b");
    assert_eq!(text::from_chars(&[]), "");
}

#[test]
fn find_gives_the_first_occurrence() {
    let s = chars("ab # cd # ef");
    assert_eq!(text::find(&s, &chars(" # ")), Some(2));
    assert_eq!(text::rfind(&s, &chars(" # ")), Some(7));
    assert_eq!(text::find(&s, &chars("x")), None);
    assert_eq!(text::rfind(&s, &chars("abc")), None);
    assert_eq!(text::find(&s, &chars("")), Some(0));
    assert!(text::contains(&s, &chars("cd")));
    assert!(!text::contains(&s, &chars("dc")));
    assert!(text::starts_with(&s, &chars("ab ")));
    assert!(!text::starts_with(&s, &chars("b")));
    assert!(text::ends_with(&s, &chars(" ef")));
    assert!(!text::ends_with(&s, &chars("e")));
}

#[test]
fn split_once_takes_the_first_separator() {
    let s = chars("a;b;c");
    let (head, tail) = text::split_once(&s, &chars(";")).unwrap();
    assert_eq!(head, &chars("a")[..]);
    assert_eq!(tail, &chars("b;c")[..]);
    assert!(text::split_once(&s, &chars("..")).is_none());
}

#[test]
fn split_keeps_empty_parts() {
    assert_eq!(strings(text::split(&chars("a,,b,"), &chars(","))), vec!["a", "", "b", ""]);
    assert_eq!(strings(text::split(&chars(""), &chars(","))), vec![""]);
    assert_eq!(strings(text::split(&chars("a][b][c"), &chars("]["))), vec!["a", "b", "c"]);
    assert_eq!(strings(text::split(&chars("abc"), &chars(""))), vec!["abc"]);
}

#[test]
fn split_whitespace_drops_empty_parts() {
    assert_eq!(strings(text::split_whitespace(&chars("  a \t bc\u{3000}d "))), vec!["a", "bc", "d"]);
    assert!(text::split_whitespace(&chars(" \t ")).is_empty());
    assert!(text::split_whitespace(&chars("")).is_empty());
}

#[test]
fn trimming() {
    assert_eq!(text::trim(&chars(" \t a b \n")), &chars("a b")[..]);
    assert_eq!(text::trim(&chars("   ")), &chars("")[..]);
    assert_eq!(text::trim_matches(&chars("[[.1].]"), &chars("[]")), &chars(".1].")[..]);
    assert_eq!(text::trim_end_matches(&chars("|a|b||"), &chars("|")), &chars("|a|b")[..]);
    assert!(text::whitespace('\u{a0}'));
    assert!(!text::whitespace('\u{200b}'));
    assert!(text::is_member(&chars("ab"), 'b'));
    assert!(!text::is_member(&chars("ab"), 'c'));
}

#[test]
fn lines_end_at_line_feeds() {
    assert_eq!(strings(text::lines(&chars("a\nb\r\n\nc"))), vec!["a", "b", "", "c"]);
    assert_eq!(strings(text::lines(&chars("a\n"))), vec!["a"]);
    assert_eq!(strings(text::lines(&chars("a\r"))), vec!["a\r"]);
    assert_eq!(strings(text::lines(&chars("\n"))), vec![""]);
    assert!(text::lines(&chars("")).is_empty());
}

#[test]
fn replace_and_compare() {
    assert_eq!(text::replace_char(&chars("a|b|"), '|', ' '), chars("a b "));
    assert!(text::same(&chars("ab"), &chars("ab")));
    assert!(!text::same(&chars("ab"), &chars("abc")));
    assert!(text::is(&chars("NFD_QC"), "NFD_QC"));
    assert!(!text::is(&chars("NFD_QC"), "NFC_QC"));
}

#[test]
fn string_of_refuses_surrogates() {
    assert_eq!(text::string_of(&[0x41, 0x1F600]), Some("A\u{1F600}".to_string()));
    assert_eq!(text::string_of(&[0x41, 0xD800]), None);
    assert_eq!(text::string_of(&[0x110000]), None);
    assert_eq!(text::string_of(&[]), Some(String::new()));
}

#[test]
fn hexadecimal_numbers() {
    assert_eq!(radix::parse_hex_u32(&chars("1F600")), Some(0x1F600));
    assert_eq!(radix::parse_hex_u32(&chars("ffffffff")), Some(0xFFFF_FFFF));
    assert_eq!(radix::parse_hex_u32(&chars("100000000")), None);
    assert_eq!(radix::parse_hex_u32(&chars("0000000000041")), Some(0x41));
    assert_eq!(radix::parse_hex_u32(&chars("")), None);
    assert_eq!(radix::parse_hex_u32(&chars("+41")), None);
    assert_eq!(radix::parse_hex_u32(&chars("4G")), None);
    assert_eq!(radix::parse_hex_u16(&chars("FFFF")), Some(0xFFFF));
    assert_eq!(radix::parse_hex_u16(&chars("10000")), None);
    assert_eq!(radix::parse_hex_u8(&chars("fF")), Some(0xFF));
    assert_eq!(radix::parse_hex_u8(&chars("100")), None);
    assert_eq!(radix::digit_of('a'), Some(10));
    assert_eq!(radix::digit_of('g'), None);
}

#[test]
fn decimal_numbers() {
    assert_eq!(radix::parse_decimal_u8(&chars("230")), Some(230));
    assert_eq!(radix::parse_decimal_u8(&chars("+7")), Some(7));
    assert_eq!(radix::parse_decimal_u8(&chars("256")), None);
    assert_eq!(radix::parse_decimal_u8(&chars("1a")), None);
    assert_eq!(radix::parse_decimal_u8(&chars("+")), None);
    assert_eq!(radix::parse_decimal_u8(&chars("-1")), None);
    assert_eq!(radix::parse(&chars("777"), 8, 1000, false), Some(511));
    assert_eq!(radix::parse(&chars("778"), 8, 1000, false), None);
}

#[test]
fn numbers_of_all_pieces() {
    let a = chars("0041");
    let b = chars("1F600");
    let bad = chars("x");
    assert_eq!(radix::parse_all_hex_u32(&vec![&a[..], &b[..]]), Some(vec![0x41, 0x1F600]));
    assert_eq!(radix::parse_all_hex_u32(&vec![&a[..], &bad[..]]), None);
    assert_eq!(radix::parse_all_hex_u32(&vec![]), Some(vec![]));
    assert_eq!(radix::parse_all_hex_u16(&vec![&a[..]]), Some(vec![0x41]));
    assert_eq!(radix::parse_all_hex_u16(&vec![&b[..]]), None);
    assert_eq!(radix::parse_all_hex_u8(&vec![&a[..]]), Some(vec![0x41]));
    assert_eq!(radix::parse_all_hex_u8(&vec![&b[..]]), None);
}

#[test]
fn writing_numbers() {
    let mut s = String::from("x");
    radix::push_hex4(&mut s, 0x00AB);
    assert_eq!(s, "x00AB");
    radix::push_digits(&mut s, 0, 10);
    radix::push_digits(&mut s, 1205, 10);
    assert_eq!(s, "x00AB01205");
    let mut t = String::new();
    radix::push_padded(&mut t, 0x41, 16, 4);
    t.push(' ');
    radix::push_padded(&mut t, 0x1F600, 16, 4);
    t.push(' ');
    radix::push_padded(&mut t, 0, 16, 4);
    assert_eq!(t, "0041 1F600 0000");
    assert_eq!(radix::count_digits(0, 10), 1);
    assert_eq!(radix::count_digits(u64::MAX, 2), 64);
    assert_eq!(radix::count_digits(65535, 16), 4);
    assert_eq!(radix::upper_digit_of(11), 'B');
}
