use unicode_tables::parse::uca_cldr::collation_test::parse_collation_test;
use unicode_tables::parse::uca_cldr::fractional_uca::fractional_table;
use unicode_tables::parse::ucd::normalization_tests::{get_normalization_test, normalization_tests};
use unicode_tables::parse::TableError;

#[test]
fn fractional_entries() {
    let source = "# Fractional UCA Table\n[UCA version = 15.1.0]\n\n0000; [,,]\t# Cc\t[0000.0000.0000]\t* <NULL>\n0041; [2A, 05, A0]\t# Latn Lu\t[1CAD.0020.0008]\t* LATIN CAPITAL LETTER A\n006C | 00B7; [, DB A9, 05]\t# Latn Lm\t* context\n0E40 0E01; [7A 04, 05, 05][7B A6, 05, 05]\t# Thai\nF900; [U+8C48]\t# Hani Lo\n";
    let table = fractional_table(source).unwrap();
    assert_eq!(table.len(), 4);
    assert_eq!(table[0].codes, vec![0]);
    assert!(table[0].weights.is_empty());
    assert!(!table[0].ce_case);
    assert_eq!(table[0].description, " Cc\t[0000.0000.0000]\t* <NULL>");
    assert_eq!(table[1].codes, vec![0x41]);
    assert_eq!(table[1].weights, vec![(vec![0x2A], vec![0x05], vec![0xA0])]);
    assert_eq!(table[2].codes, vec![0x6C, 0xB7]);
    assert!(table[2].ce_case);
    assert_eq!(table[2].weights, vec![(vec![], vec![0xDB, 0xA9], vec![0x05])]);
    assert_eq!(table[3].codes, vec![0x0E40, 0x0E01]);
    assert_eq!(
        table[3].weights,
        vec![(vec![0x7A, 0x04], vec![5], vec![5]), (vec![0x7B, 0xA6], vec![5], vec![5])]
    );
}

#[test]
fn two_blank_groups_are_kept() {
    let table = fractional_table("0000; [,,][,,]# x\n").unwrap();
    assert_eq!(table[0].weights, vec![(vec![], vec![], vec![]), (vec![], vec![], vec![])]);
}

#[test]
fn broken_fractional_lines() {
    assert_eq!(fractional_table("0041; [2A, 05, A0]\n").err(), Some(TableError::MissingSeparator));
    assert_eq!(fractional_table("0041 [2A, 05, A0] # x\n").err(), Some(TableError::MissingSeparator));
    assert_eq!(fractional_table("004G; [2A, 05, A0] # x\n").err(), Some(TableError::BadNumber));
    assert_eq!(fractional_table("004G; [U+0041] # x\n").err(), Some(TableError::BadNumber));
    assert_eq!(fractional_table("0041; [2A, 05] # x\n").err(), Some(TableError::BadLevelCount));
    assert_eq!(fractional_table("0041; [2A, 05, 100] # x\n").err(), Some(TableError::BadNumber));
    assert_eq!(fractional_table("").unwrap().len(), 0);
}

#[test]
fn collation_tests() {
    let source = "# File: CollationTest_NON_IGNORABLE.txt\n\n0009 0021;\t# ('\\u0009') <CHARACTER TABULATION>\t[0201 0261 | 0020 0020 | 0002 0002 |]\n0338 0334;\t# COMBINING [LONG] SOLIDUS OVERLAY\t[| 004A 0021 | 0002 0002 |]\n1F600;\t# shifted\t[1 | 2 | 3 | FFFF 0041 |]\n";
    let tests = parse_collation_test(source).unwrap();
    assert_eq!(tests.len(), 3);
    assert_eq!(tests[0].codes, vec![9, 0x21]);
    assert_eq!(tests[0].l1, vec![0x0201, 0x0261]);
    assert_eq!(tests[0].l2, vec![0x20, 0x20]);
    assert_eq!(tests[0].l3, vec![2, 2]);
    assert!(tests[0].l4.is_empty());
    assert_eq!(tests[0].description, "('\\u0009') <CHARACTER TABULATION>");
    assert_eq!(tests[0].as_string(), Ok("\t!".to_string()));
    assert!(tests[1].l1.is_empty());
    assert_eq!(tests[1].l2, vec![0x4A, 0x21]);
    assert_eq!(tests[1].description, "COMBINING [LONG] SOLIDUS OVERLAY");
    assert_eq!(tests[2].l4, vec![0xFFFF, 0x41]);
    assert_eq!(tests[2].as_string(), Ok("\u{1F600}".to_string()));
}

#[test]
fn surrogate_has_no_character() {
    let tests = parse_collation_test("D800 0041;\t# x\t[| | |]\n").unwrap();
    assert_eq!(tests[0].codes, vec![0xD800, 0x41]);
    assert_eq!(tests[0].as_string(), Err(TableError::NotACharacter));
}

#[test]
fn broken_collation_tests() {
    assert_eq!(parse_collation_test("0041 # x [| | |]\n").err(), Some(TableError::MissingSeparator));
    assert_eq!(parse_collation_test("0041; # x\n").err(), Some(TableError::MissingSeparator));
    assert_eq!(parse_collation_test("004G; # x [| | |]\n").err(), Some(TableError::BadNumber));
    assert_eq!(parse_collation_test("0041; # x [1 | 2 | 3G |]\n").err(), Some(TableError::BadNumber));
    assert_eq!(
        parse_collation_test("0041; # x [1 | 2 | 3 | 4 | 5 |]\n").err(),
        Some(TableError::BadLevelCount)
    );
}

const NORMALIZATION: &str = "# NormalizationTest-15.1.0.txt\n#\n@Part0 # Specific cases\n#\n1E0A;1E0A;0044 0307;1E0A;0044 0307; # (D; D; D; D; D; ) LATIN CAPITAL LETTER D WITH DOT ABOVE\n@Part1 # Character by character test\n00A0;00A0;00A0;0020;0020; # NO-BREAK SPACE\n1F600;;;;; # empty columns\n#\n# EOF\n";

#[test]
fn normalization_tests_are_read() {
    let tests = normalization_tests(NORMALIZATION).unwrap();
    assert_eq!(tests.len(), 3);
    assert_eq!(tests[0].part, "@Part0 # Specific cases");
    assert_eq!(tests[0].line, 5);
    assert_eq!(tests[0].c1, "\u{1E0A}");
    assert_eq!(tests[0].c2, "\u{1E0A}");
    assert_eq!(tests[0].c3, "D\u{307}");
    assert_eq!(tests[0].c4, "\u{1E0A}");
    assert_eq!(tests[0].c5, "D\u{307}");
    assert_eq!(tests[0].description, " (D; D; D; D; D; ) LATIN CAPITAL LETTER D WITH DOT ABOVE");
    assert_eq!(tests[1].part, "@Part1 # Character by character test");
    assert_eq!(tests[1].line, 7);
    assert_eq!(tests[1].c4, " ");
    assert_eq!(tests[2].c1, "\u{1F600}");
    assert_eq!(tests[2].c2, "");
    assert_eq!(get_normalization_test(&tests, 7).unwrap().c1, "\u{a0}");
    assert_eq!(get_normalization_test(&tests, 8).unwrap().line, 8);
    assert!(get_normalization_test(&tests, 1).is_none());
    assert!(get_normalization_test(&tests, 0).is_none());
}

#[test]
fn normalization_test_written_out() {
    let tests = normalization_tests(NORMALIZATION).unwrap();
    assert_eq!(
        tests[0].formatted(),
        "\n\nPart: @Part0 # Specific cases\nDescription:  (D; D; D; D; D; ) LATIN CAPITAL LETTER D WITH DOT ABOVE\nLine: 5\n\nC1: 1E0A \nC2: 1E0A \nC3: 0044 0307 \nC4: 1E0A \nC5: 0044 0307 \n"
    );
    assert_eq!(
        tests[2].formatted(),
        "\n\nPart: @Part1 # Character by character test\nDescription:  empty columns\nLine: 8\n\nC1: 1F600 \nC2: \nC3: \nC4: \nC5: \n"
    );
}

#[test]
fn broken_normalization_tests() {
    assert_eq!(normalization_tests("0041;0041;0041;0041;0041;\n").err(), Some(TableError::MissingSeparator));
    assert_eq!(normalization_tests("\n").err(), Some(TableError::MissingSeparator));
    assert_eq!(normalization_tests("0041;0041;0041;0041; # x\n").err(), Some(TableError::BadFieldCount));
    assert_eq!(normalization_tests("0041;0041;004G;0041;0041; # x\n").err(), Some(TableError::BadNumber));
    assert_eq!(normalization_tests("0041;D800;004G;0041;0041; # x\n").err(), Some(TableError::NotACharacter));
    assert_eq!(normalization_tests("").unwrap().len(), 0);
}
