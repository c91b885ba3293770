//! Numbers written in digits: what a digit string denotes, and its parsing
//! into a machine integer.

use crate::text::model::views;
use vstd::prelude::*;

verus! {

/// The value of a digit character: `0`-`9`, then `a`-`f` or `A`-`F` for ten
/// to fifteen.
pub open spec fn digit(c: char) -> Option<nat> {
    if '0' <= c <= '9' {
        Some((c as u32 - '0' as u32) as nat)
    } else if 'a' <= c <= 'f' {
        Some((c as u32 - 'a' as u32 + 10) as nat)
    } else if 'A' <= c <= 'F' {
        Some((c as u32 - 'A' as u32 + 10) as nat)
    } else {
        None
    }
}

/// Whether `c` is a digit of the given radix.
pub open spec fn is_digit(c: char, radix: nat) -> bool {
    digit(c) matches Some(d) && d < radix
}

/// The number that the digits of `s` denote, most significant digit first.
pub open spec fn value(s: Seq<char>, radix: nat) -> nat
    decreases s.len(),
{
    if s.len() == 0 {
        0
    } else {
        value(s.drop_last(), radix) * radix + digit(s.last()).unwrap_or(0)
    }
}

/// The number that `s` denotes, where `s` is one digit or more and nothing
/// else.
pub open spec fn numeral(s: Seq<char>, radix: nat) -> Option<nat> {
    if s.len() > 0 && forall|i: int| 0 <= i < s.len() ==> is_digit(#[trigger] s[i], radix) {
        Some(value(s, radix))
    } else {
        None
    }
}

/// `s` without the plus sign that may stand before a numeral.
pub open spec fn unsigned(s: Seq<char>) -> Seq<char> {
    if s.len() > 0 && s.first() == '+' {
        s.drop_first()
    } else {
        s
    }
}

/// The number that `s` denotes, if that is at most `max`. With `signed`, a
/// plus sign may stand before the digits.
pub open spec fn number_up_to(s: Seq<char>, radix: nat, max: nat, signed: bool) -> Option<nat> {
    match numeral(if signed { unsigned(s) } else { s }, radix) {
        Some(n) => if n <= max {
            Some(n)
        } else {
            None
        },
        None => None,
    }
}

/// The 32-bit number that hexadecimal digits denote.
pub open spec fn hex_u32(s: Seq<char>) -> Option<u32> {
    match number_up_to(s, 16, 0xffff_ffff, false) {
        Some(n) => Some(n as u32),
        None => None,
    }
}

/// The 16-bit number that hexadecimal digits denote.
pub open spec fn hex_u16(s: Seq<char>) -> Option<u16> {
    match number_up_to(s, 16, 0xffff, false) {
        Some(n) => Some(n as u16),
        None => None,
    }
}

/// The 8-bit number that hexadecimal digits denote.
pub open spec fn hex_u8(s: Seq<char>) -> Option<u8> {
    match number_up_to(s, 16, 0xff, false) {
        Some(n) => Some(n as u8),
        None => None,
    }
}

/// The 8-bit number that a decimal numeral denotes, with or without a plus
/// sign before it.
pub open spec fn decimal_u8(s: Seq<char>) -> Option<u8> {
    match number_up_to(s, 10, 0xff, true) {
        Some(n) => Some(n as u8),
        None => None,
    }
}

/// The numbers that the pieces denote, if each of them denotes one.
pub open spec fn all_hex_u32(pieces: Seq<Seq<char>>) -> Option<Seq<u32>> {
    if forall|i: int| 0 <= i < pieces.len() ==> hex_u32(#[trigger] pieces[i]) is Some {
        Some(pieces.map_values(|p: Seq<char>| hex_u32(p).unwrap()))
    } else {
        None
    }
}

/// The numbers that the pieces denote, if each of them denotes one.
pub open spec fn all_hex_u16(pieces: Seq<Seq<char>>) -> Option<Seq<u16>> {
    if forall|i: int| 0 <= i < pieces.len() ==> hex_u16(#[trigger] pieces[i]) is Some {
        Some(pieces.map_values(|p: Seq<char>| hex_u16(p).unwrap()))
    } else {
        None
    }
}

/// The numbers that the pieces denote, if each of them denotes one.
pub open spec fn all_hex_u8(pieces: Seq<Seq<char>>) -> Option<Seq<u8>> {
    if forall|i: int| 0 <= i < pieces.len() ==> hex_u8(#[trigger] pieces[i]) is Some {
        Some(pieces.map_values(|p: Seq<char>| hex_u8(p).unwrap()))
    } else {
        None
    }
}

/// The digit character for a value below sixteen, in upper case.
pub open spec fn upper_digit(d: int) -> char {
    if d == 0 {
        '0'
    } else if d == 1 {
        '1'
    } else if d == 2 {
        '2'
    } else if d == 3 {
        '3'
    } else if d == 4 {
        '4'
    } else if d == 5 {
        '5'
    } else if d == 6 {
        '6'
    } else if d == 7 {
        '7'
    } else if d == 8 {
        '8'
    } else if d == 9 {
        '9'
    } else if d == 10 {
        'A'
    } else if d == 11 {
        'B'
    } else if d == 12 {
        'C'
    } else if d == 13 {
        'D'
    } else if d == 14 {
        'E'
    } else {
        'F'
    }
}

/// A number in digits of the given radix, most significant digit first and
/// without leading zeros.
pub open spec fn digits(x: nat, radix: nat) -> Seq<char>
    recommends
        2 <= radix <= 16,
    decreases x,
{
    if x < radix || radix < 2 {
        seq![upper_digit(x as int)]
    } else {
        proof {
            assert(x / radix < x) by (nonlinear_arith)
                requires
                    x >= radix,
                    radix >= 2,
            ;
        }
        digits(x / radix, radix).push(upper_digit((x % radix) as int))
    }
}

/// A number in digits of the given radix, with zeros before it where it has
/// fewer digits than `width`.
pub open spec fn padded(x: nat, radix: nat, width: nat) -> Seq<char> {
    let d = digits(x, radix);
    if d.len() >= width {
        d
    } else {
        Seq::new((width - d.len()) as nat, |i: int| '0') + d
    }
}

/// A 16-bit number as four hexadecimal digits in upper case.
pub open spec fn hex4(x: u16) -> Seq<char> {
    seq![
        upper_digit(x as int / 4096),
        upper_digit(x as int / 256 % 16),
        upper_digit(x as int / 16 % 16),
        upper_digit(x as int % 16),
    ]
}

/// The digit character of a value below sixteen denotes that value, and is
/// a digit or a letter from `A` to `F`.
pub proof fn lemma_upper_digit(d: int)
    requires
        0 <= d < 16,
    ensures
        digit(upper_digit(d)) == Some(d as nat),
        is_digit(upper_digit(d), 16),
        '0' <= upper_digit(d) <= '9' || 'A' <= upper_digit(d) <= 'F',
{
}

/// Four digits denote the number that they were written for.
pub proof fn lemma_hex4(x: u16)
    ensures
        hex4(x).len() == 4,
        hex_u16(hex4(x)) == Some(x),
        forall|i: int|
            0 <= i < 4 ==> '0' <= (#[trigger] hex4(x)[i]) <= '9' || 'A' <= hex4(x)[i] <= 'F',
{
    let s = hex4(x);
    let d3 = x as int / 4096;
    let d2 = x as int / 256 % 16;
    let d1 = x as int / 16 % 16;
    let d0 = x as int % 16;
    lemma_upper_digit(d3);
    lemma_upper_digit(d2);
    lemma_upper_digit(d1);
    lemma_upper_digit(d0);
    let s3 = s.drop_last();
    let s2 = s3.drop_last();
    let s1 = s2.drop_last();
    assert(s1.drop_last().len() == 0);
    assert(value(s1, 16) == d3) by {
        assert(value(s1.drop_last(), 16) == 0);
        assert(s1.last() == upper_digit(d3));
    }
    assert(value(s2, 16) == d3 * 16 + d2) by {
        assert(s2.last() == upper_digit(d2));
    }
    assert(value(s3, 16) == (d3 * 16 + d2) * 16 + d1) by {
        assert(s3.last() == upper_digit(d1));
    }
    assert(value(s, 16) == ((d3 * 16 + d2) * 16 + d1) * 16 + d0) by {
        assert(s.last() == upper_digit(d0));
    }
    assert(((d3 * 16 + d2) * 16 + d1) * 16 + d0 == x as int);
    assert forall|i: int| 0 <= i < s.len() implies is_digit(#[trigger] s[i], 16) by {
        if i == 0 {
        } else if i == 1 {
        } else if i == 2 {
        } else {
        }
    }
}

/// A numeral denotes at least what any of its prefixes denotes.
pub proof fn lemma_value_grows(s: Seq<char>, radix: nat, k: int)
    requires
        0 <= k <= s.len(),
        radix >= 1,
    ensures
        value(s.take(k), radix) <= value(s, radix),
    decreases s.len() - k,
{
    if k == s.len() {
        assert(s.take(k) =~= s);
    } else {
        let t = s.drop_last();
        lemma_value_grows(t, radix, k);
        assert(t.take(k) =~= s.take(k));
        assert(value(t, radix) * radix >= value(t, radix)) by (nonlinear_arith)
            requires
                radix >= 1,
        ;
    }
}

/// The value of a digit character.
pub fn digit_of(c: char) -> (r: Option<u32>)
    ensures
        match r {
            Some(d) => digit(c) == Some(d as nat),
            None => digit(c) is None,
        },
{
    if '0' <= c && c <= '9' {
        Some(c as u32 - '0' as u32)
    } else if 'a' <= c && c <= 'f' {
        Some(c as u32 - 'a' as u32 + 10)
    } else if 'A' <= c && c <= 'F' {
        Some(c as u32 - 'A' as u32 + 10)
    } else {
        None
    }
}

/// Parses a numeral of the given radix whose value is at most `max`. With
/// `signed`, a plus sign may stand before the digits.
pub fn parse(text: &[char], radix: u32, max: u32, signed: bool) -> (r: Option<u32>)
    requires
        1 <= radix <= 16,
    ensures
        match r {
            Some(n) => number_up_to(text@, radix as nat, max as nat, signed) == Some(n as nat),
            None => number_up_to(text@, radix as nat, max as nat, signed) is None,
        },
{
    let len = text.len();
    let s = if signed && len > 0 && text[0] == '+' {
        &text[1..len]
    } else {
        text
    };
    assert(s@ =~= if signed {
        unsigned(text@)
    } else {
        text@
    });
    if s.len() == 0 {
        return None;
    }
    let mut acc: u64 = 0;
    let mut i: usize = 0;
    while i < s.len()
        invariant
            1 <= radix <= 16,
            s@ == if signed {
                unsigned(text@)
            } else {
                text@
            },
            i <= s.len(),
            forall|j: int| 0 <= j < i ==> is_digit(#[trigger] s@[j], radix as nat),
            acc == value(s@.take(i as int), radix as nat),
            acc <= max,
        decreases s.len() - i,
    {
        let d = match digit_of(s[i]) {
            Some(d) => d,
            None => {
                return None;
            },
        };
        if d >= radix {
            return None;
        }
        assert(acc * radix <= 0xffff_ffff * 16) by (nonlinear_arith)
            requires
                acc <= 0xffff_ffff,
                radix <= 16,
        ;
        let next: u64 = acc * (radix as u64) + d as u64;
        proof {
            assert(s@.take(i + 1).drop_last() =~= s@.take(i as int));
            assert(s@.take(i + 1).last() == s@[i as int]);
            assert(next == value(s@.take(i + 1), radix as nat));
        }
        if next > max as u64 {
            proof {
                lemma_value_grows(s@, radix as nat, i + 1);
            }
            return None;
        }
        acc = next;
        i += 1;
    }
    assert(s@.take(i as int) =~= s@);
    Some(acc as u32)
}

/// Parses hexadecimal digits whose value fits in 32 bits.
pub fn parse_hex_u32(s: &[char]) -> (r: Option<u32>)
    ensures
        r == hex_u32(s@),
{
    parse(s, 16, 0xffff_ffff, false)
}

/// Parses hexadecimal digits whose value fits in 16 bits.
pub fn parse_hex_u16(s: &[char]) -> (r: Option<u16>)
    ensures
        r == hex_u16(s@),
{
    match parse(s, 16, 0xffff, false) {
        Some(n) => Some(n as u16),
        None => None,
    }
}

/// Parses hexadecimal digits whose value fits in 8 bits.
pub fn parse_hex_u8(s: &[char]) -> (r: Option<u8>)
    ensures
        r == hex_u8(s@),
{
    match parse(s, 16, 0xff, false) {
        Some(n) => Some(n as u8),
        None => None,
    }
}

/// Parses a decimal numeral that fits in 8 bits.
pub fn parse_decimal_u8(s: &[char]) -> (r: Option<u8>)
    ensures
        r == decimal_u8(s@),
{
    match parse(s, 10, 0xff, true) {
        Some(n) => Some(n as u8),
        None => None,
    }
}

/// The digit character for a value below sixteen, in upper case.
pub fn upper_digit_of(d: u16) -> (c: char)
    requires
        d < 16,
    ensures
        c == upper_digit(d as int),
{
    if d == 0 {
        '0'
    } else if d == 1 {
        '1'
    } else if d == 2 {
        '2'
    } else if d == 3 {
        '3'
    } else if d == 4 {
        '4'
    } else if d == 5 {
        '5'
    } else if d == 6 {
        '6'
    } else if d == 7 {
        '7'
    } else if d == 8 {
        '8'
    } else if d == 9 {
        '9'
    } else if d == 10 {
        'A'
    } else if d == 11 {
        'B'
    } else if d == 12 {
        'C'
    } else if d == 13 {
        'D'
    } else if d == 14 {
        'E'
    } else {
        'F'
    }
}

/// The number of digits of a number.
pub fn count_digits(x: u64, radix: u64) -> (n: usize)
    requires
        2 <= radix <= 16,
    ensures
        n == digits(x as nat, radix as nat).len(),
        1 <= n <= 64,
    decreases x,
{
    if x < radix {
        1
    } else {
        assert(x / radix < x) by (nonlinear_arith)
            requires
                x >= radix,
                radix >= 2,
        ;
        let rest = count_digits(x / radix, radix);
        proof {
            lemma_digits_bound(x as nat, radix as nat);
        }
        rest + 1
    }
}

/// A number below two to the power of 64 has at most 64 digits.
proof fn lemma_digits_bound(x: nat, radix: nat)
    requires
        2 <= radix <= 16,
        x <= u64::MAX,
    ensures
        digits(x, radix).len() <= 64,
{
    vstd::arithmetic::power2::lemma2_to64_rest();
    lemma_digits_log(x, radix, 64);
}

/// A number below two to the power of `k` has at most `k` digits, for `k`
/// of one or more.
proof fn lemma_digits_log(x: nat, radix: nat, k: nat)
    requires
        2 <= radix <= 16,
        k >= 1,
        x < vstd::arithmetic::power2::pow2(k),
    ensures
        digits(x, radix).len() <= k,
    decreases k,
{
    vstd::arithmetic::power2::lemma2_to64();
    if x < radix {
    } else if k == 1 {
        assert(vstd::arithmetic::power2::pow2(1) == 2);
    } else {
        vstd::arithmetic::power2::lemma_pow2_unfold(k);
        assert(x / radix <= x / 2) by (nonlinear_arith)
            requires
                radix >= 2,
        ;
        assert(x / 2 < vstd::arithmetic::power2::pow2((k - 1) as nat));
        lemma_digits_log(x / radix, radix, (k - 1) as nat);
    }
}

/// Appends a number in digits of the given radix.
pub fn push_digits(out: &mut String, x: u64, radix: u64)
    requires
        2 <= radix <= 16,
    ensures
        final(out)@ == old(out)@ + digits(x as nat, radix as nat),
    decreases x,
{
    if x < radix {
        out.push(upper_digit_of(x as u16));
        assert(out@ =~= old(out)@ + digits(x as nat, radix as nat));
    } else {
        assert(x / radix < x) by (nonlinear_arith)
            requires
                x >= radix,
                radix >= 2,
        ;
        push_digits(out, x / radix, radix);
        out.push(upper_digit_of((x % radix) as u16));
        assert(out@ =~= old(out)@ + digits(x as nat, radix as nat));
    }
}

/// Appends a number in digits of the given radix, with zeros before it
/// where it has fewer digits than `width`.
pub fn push_padded(out: &mut String, x: u64, radix: u64, width: usize)
    requires
        2 <= radix <= 16,
    ensures
        final(out)@ == old(out)@ + padded(x as nat, radix as nat, width as nat),
{
    let n = count_digits(x, radix);
    let mut i: usize = n;
    while i < width
        invariant
            n <= i <= width || (i == n && n >= width),
            out@ == old(out)@ + Seq::new((i - n) as nat, |i: int| '0'),
        decreases width - i,
    {
        out.push('0');
        assert(out@ =~= old(out)@ + Seq::new((i + 1 - n) as nat, |i: int| '0'));
        i += 1;
    }
    push_digits(out, x, radix);
    assert(out@ =~= old(out)@ + padded(x as nat, radix as nat, width as nat));
}

/// Appends a 16-bit number as four hexadecimal digits in upper case.
pub fn push_hex4(out: &mut String, x: u16)
    ensures
        final(out)@ == old(out)@ + hex4(x),
{
    out.push(upper_digit_of(x / 4096));
    out.push(upper_digit_of(x / 256 % 16));
    out.push(upper_digit_of(x / 16 % 16));
    out.push(upper_digit_of(x % 16));
    assert(out@ =~= old(out)@ + hex4(x));
}

/// Parses each piece as hexadecimal digits whose value fits in 32 bits.
pub fn parse_all_hex_u32(pieces: &Vec<&[char]>) -> (r: Option<Vec<u32>>)
    ensures
        match r {
            Some(v) => all_hex_u32(views(pieces@)) == Some(v@),
            None => all_hex_u32(views(pieces@)) is None,
        },
{
    let mut out: Vec<u32> = Vec::new();
    let mut i: usize = 0;
    while i < pieces.len()
        invariant
            i <= pieces.len(),
            out@.len() == i,
            forall|j: int| 0 <= j < i ==> hex_u32(#[trigger] views(pieces@)[j]) == Some(out@[j]),
        decreases pieces.len() - i,
    {
        match parse_hex_u32(pieces[i]) {
            Some(n) => {
                out.push(n);
            },
            None => {
                assert(hex_u32(views(pieces@)[i as int]) is None);
                return None;
            },
        }
        i += 1;
    }
    assert(all_hex_u32(views(pieces@)).unwrap() =~= out@);
    Some(out)
}

/// Parses each piece as hexadecimal digits whose value fits in 16 bits.
pub fn parse_all_hex_u16(pieces: &Vec<&[char]>) -> (r: Option<Vec<u16>>)
    ensures
        match r {
            Some(v) => all_hex_u16(views(pieces@)) == Some(v@),
            None => all_hex_u16(views(pieces@)) is None,
        },
{
    let mut out: Vec<u16> = Vec::new();
    let mut i: usize = 0;
    while i < pieces.len()
        invariant
            i <= pieces.len(),
            out@.len() == i,
            forall|j: int| 0 <= j < i ==> hex_u16(#[trigger] views(pieces@)[j]) == Some(out@[j]),
        decreases pieces.len() - i,
    {
        match parse_hex_u16(pieces[i]) {
            Some(n) => {
                out.push(n);
            },
            None => {
                assert(hex_u16(views(pieces@)[i as int]) is None);
                return None;
            },
        }
        i += 1;
    }
    assert(all_hex_u16(views(pieces@)).unwrap() =~= out@);
    Some(out)
}

/// Parses each piece as hexadecimal digits whose value fits in 8 bits.
pub fn parse_all_hex_u8(pieces: &Vec<&[char]>) -> (r: Option<Vec<u8>>)
    ensures
        match r {
            Some(v) => all_hex_u8(views(pieces@)) == Some(v@),
            None => all_hex_u8(views(pieces@)) is None,
        },
{
    let mut out: Vec<u8> = Vec::new();
    let mut i: usize = 0;
    while i < pieces.len()
        invariant
            i <= pieces.len(),
            out@.len() == i,
            forall|j: int| 0 <= j < i ==> hex_u8(#[trigger] views(pieces@)[j]) == Some(out@[j]),
        decreases pieces.len() - i,
    {
        match parse_hex_u8(pieces[i]) {
            Some(n) => {
                out.push(n);
            },
            None => {
                assert(hex_u8(views(pieces@)[i as int]) is None);
                return None;
            },
        }
        i += 1;
    }
    assert(all_hex_u8(views(pieces@)).unwrap() =~= out@);
    Some(out)
}

} // verus!
