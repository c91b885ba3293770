//! Scanning of character sequences: searching, splitting and trimming.
//!
//! Every data file this crate reads is line-oriented text. The functions here
//! are the vocabulary in which the grammars of those files are written: each
//! executable function works on a slice of characters and returns sub-slices
//! of it, and is specified by a function on `Seq<char>` of the same name.

use vstd::prelude::*;
use crate::text::model::{
    find_from, is_whitespace, lemma_find_from, lemma_prefix_len, occurs_at, prefix_len, rfind_from,
    suffix_len, views,
};

pub mod model;
pub mod radix;

verus! {

/// Believed of `String::push` and not proved: it puts the character at the
/// end of the string and leaves the characters before it as they were.
pub assume_specification[ String::push ](s: &mut String, c: char)
    ensures
        final(s)@ == old(s)@.push(c),
;

/// Believed of `char::from_u32` and not proved: it returns the character
/// whose scalar value is the number, and `None` where the number is a
/// surrogate, from `D800` to `DFFF`, or is above `10FFFF`.
pub assume_specification[ char::from_u32 ](code: u32) -> (r: Option<char>)
    ensures
        r == model::scalar_of(code),
;

/// The characters of a string, as a vector.
pub fn to_chars(s: &str) -> (r: Vec<char>)
    ensures
        r@ == s@,
{
    let mut out: Vec<char> = Vec::new();
    for c in it: s.chars()
        invariant
            out@ == it.seq().take(it.index()),
            it.seq() == s@,
    {
        out.push(c);
    }
    out
}

/// The string made of the given characters.
pub fn from_chars(v: &[char]) -> (r: String)
    ensures
        r@ == v@,
{
    let mut out = String::new();
    let mut i: usize = 0;
    while i < v.len()
        invariant
            i <= v.len(),
            out@ == v@.take(i as int),
        decreases v.len() - i,
    {
        out.push(v[i]);
        i += 1;
    }
    out
}

/// Whether `c` has the Unicode property `White_Space`.
pub fn whitespace(c: char) -> (r: bool)
    ensures
        r == is_whitespace(c),
{
    ('\u{9}' <= c && c <= '\u{d}') || c == ' ' || c == '\u{85}' || c == '\u{a0}' || c
        == '\u{1680}' || ('\u{2000}' <= c && c <= '\u{200a}') || c == '\u{2028}' || c
        == '\u{2029}' || c == '\u{202f}' || c == '\u{205f}' || c == '\u{3000}'
}

/// Whether `pat` stands in `s` at index `i`.
pub fn matches_at(s: &[char], pat: &[char], i: usize) -> (r: bool)
    ensures
        r == occurs_at(s@, pat@, i as int),
{
    if pat.len() > s.len() || i > s.len() - pat.len() {
        return false;
    }
    let mut k: usize = 0;
    while k < pat.len()
        invariant
            k <= pat.len(),
            i + pat.len() <= s.len(),
            forall|j: int| 0 <= j < k ==> s@[i + j] == pat@[j],
        decreases pat.len() - k,
    {
        if s[i + k] != pat[k] {
            proof {
                assert(s@.subrange(i as int, i + pat.len())[k as int] == s@[i + k]);
            }
            return false;
        }
        k += 1;
    }
    proof {
        assert(s@.subrange(i as int, i + pat.len()) =~= pat@);
    }
    true
}

/// Whether `s` begins with `pat`.
pub fn starts_with(s: &[char], pat: &[char]) -> (r: bool)
    ensures
        r == pat@.is_prefix_of(s@),
{
    let r = matches_at(s, pat, 0);
    proof {
        if pat@.len() <= s@.len() {
            assert(s@.subrange(0, pat@.len() as int) =~= s@.subrange(0, 0int + pat@.len()));
        }
    }
    r
}

/// The index of the first occurrence of `pat` in `s`.
pub fn find(s: &[char], pat: &[char]) -> (r: Option<usize>)
    ensures
        r.is_some() == model::find(s@, pat@).is_some(),
        r matches Some(i) ==> model::find(s@, pat@) == Some(i as int),
{
    if pat.len() > s.len() {
        return None;
    }
    let last: usize = s.len() - pat.len();
    let mut i: usize = 0;
    loop
        invariant
            last == s.len() - pat.len(),
            i <= last,
            model::find(s@, pat@) == find_from(s@, pat@, i as int),
        decreases last - i,
    {
        if matches_at(s, pat, i) {
            return Some(i);
        }
        if i == last {
            assert(find_from(s@, pat@, i + 1) is None);
            return None;
        }
        i += 1;
    }
}

/// The two parts of `s` around the first occurrence of `pat`.
pub fn split_once<'a>(s: &'a [char], pat: &[char]) -> (r: Option<(&'a [char], &'a [char])>)
    ensures
        match r {
            Some((head, tail)) => model::split_once(s@, pat@) == Some((head@, tail@)),
            None => model::split_once(s@, pat@) is None,
        },
{
    match find(s, pat) {
        Some(i) => {
            proof {
                lemma_find_from(s@, pat@, 0);
                assert(occurs_at(s@, pat@, i as int));
            }
            let n = s.len();
            let head = &s[0..i];
            let tail = &s[i + pat.len()..n];
            Some((head, tail))
        },
        None => None,
    }
}

/// Whether `pat` occurs anywhere in `s`.
pub fn contains(s: &[char], pat: &[char]) -> (r: bool)
    ensures
        r == model::contains(s@, pat@),
{
    find(s, pat).is_some()
}

/// The index of the last occurrence of `pat` in `s`.
pub fn rfind(s: &[char], pat: &[char]) -> (r: Option<usize>)
    ensures
        r.is_some() == model::rfind(s@, pat@).is_some(),
        r matches Some(i) ==> model::rfind(s@, pat@) == Some(i as int),
{
    if pat.len() > s.len() {
        return None;
    }
    let mut i: usize = s.len() - pat.len();
    loop
        invariant
            i <= s.len() - pat.len(),
            model::rfind(s@, pat@) == rfind_from(s@, pat@, i as int),
        decreases i,
    {
        if matches_at(s, pat, i) {
            return Some(i);
        }
        if i == 0 {
            assert(rfind_from(s@, pat@, i - 1) is None);
            return None;
        }
        i -= 1;
    }
}

/// The parts of `s` between the occurrences of `pat`, found from the left.
pub fn split<'a>(s: &'a [char], pat: &[char]) -> (r: Vec<&'a [char]>)
    ensures
        views(r@) == model::split(s@, pat@),
{
    let mut out: Vec<&'a [char]> = Vec::new();
    if pat.len() == 0 {
        out.push(s);
        assert(views(out@) =~= seq![s@]);
        return out;
    }
    let mut rest: &'a [char] = s;
    loop
        invariant
            pat@.len() > 0,
            model::split(s@, pat@) == views(out@) + model::split(rest@, pat@),
        decreases rest@.len(),
    {
        let ghost before = out@;
        match find(rest, pat) {
            None => {
                out.push(rest);
                assert(views(out@) =~= views(before) + seq![rest@]);
                return out;
            },
            Some(i) => {
                proof {
                    lemma_find_from(rest@, pat@, 0);
                    assert(occurs_at(rest@, pat@, i as int));
                }
                let n = rest.len();
                let head = &rest[0..i];
                let tail = &rest[i + pat.len()..n];
                out.push(head);
                proof {
                    assert(head@ =~= rest@.take(i as int));
                    assert(tail@ =~= rest@.skip(i + pat@.len()));
                    assert(views(out@) =~= views(before) + seq![head@]);
                    assert(views(before) + (seq![head@] + model::split(tail@, pat@)) =~= views(
                        out@,
                    ) + model::split(tail@, pat@));
                }
                rest = tail;
            },
        }
    }
}

/// Whether `c` is one of the characters of `set`.
pub fn is_member(set: &[char], c: char) -> (r: bool)
    ensures
        r == set@.contains(c),
{
    let mut i: usize = 0;
    while i < set.len()
        invariant
            i <= set.len(),
            forall|j: int| 0 <= j < i ==> set@[j] != c,
        decreases set.len() - i,
    {
        if set[i] == c {
            return true;
        }
        i += 1;
    }
    false
}

/// A class of characters, for trimming and for splitting at white space.
enum Class<'a> {
    Whitespace,
    NonWhitespace,
    AnyOf(&'a [char]),
}

impl<'a> Class<'a> {
    /// The characters of the class.
    spec fn members(self) -> spec_fn(char) -> bool {
        match self {
            Class::Whitespace => model::whitespace(),
            Class::NonWhitespace => model::non_whitespace(),
            Class::AnyOf(set) => model::any_of(set@),
        }
    }

    /// Whether `c` is in the class.
    fn has(&self, c: char) -> (r: bool)
        ensures
            r == (self.members())(c),
    {
        match self {
            Class::Whitespace => whitespace(c),
            Class::NonWhitespace => !whitespace(c),
            Class::AnyOf(set) => is_member(set, c),
        }
    }
}

/// The number of characters at the start of `s` that are all in `class`.
fn leading(s: &[char], class: &Class) -> (n: usize)
    ensures
        n == prefix_len(s@, class.members()),
        n <= s@.len(),
{
    let mut i: usize = 0;
    assert(s@.skip(0) =~= s@);
    while i < s.len() && class.has(s[i])
        invariant
            i <= s.len(),
            prefix_len(s@, class.members()) == i + prefix_len(s@.skip(i as int), class.members()),
        decreases s.len() - i,
    {
        proof {
            assert(s@.skip(i as int).first() == s@[i as int]);
            assert(s@.skip(i as int).drop_first() =~= s@.skip(i + 1));
        }
        i += 1;
    }
    proof {
        if i < s.len() {
            assert(s@.skip(i as int).first() == s@[i as int]);
        }
    }
    i
}

/// The number of characters at the end of `s` that are all in `class`.
fn trailing(s: &[char], class: &Class) -> (n: usize)
    ensures
        n == suffix_len(s@, class.members()),
        n <= s@.len(),
{
    let len = s.len();
    let mut i: usize = 0;
    assert(s@.take(len as int) =~= s@);
    while i < len && class.has(s[len - 1 - i])
        invariant
            len == s.len(),
            i <= len,
            suffix_len(s@, class.members()) == i + suffix_len(
                s@.take(len - i),
                class.members(),
            ),
        decreases len - i,
    {
        proof {
            assert(s@.take(len - i).last() == s@[len - 1 - i]);
            assert(s@.take(len - i).drop_last() =~= s@.take(len - i - 1));
        }
        i += 1;
    }
    proof {
        if i < len {
            assert(s@.take(len - i).last() == s@[len - 1 - i]);
        }
    }
    i
}

/// `s` without the characters of `class` at its start and at its end.
fn trim_class<'a>(s: &'a [char], class: &Class) -> (r: &'a [char])
    ensures
        r@ == model::trim_where(s@, class.members()),
{
    let a = leading(s, class);
    let n = s.len();
    let t = &s[a..n];
    assert(t@ =~= model::trim_start_where(s@, class.members()));
    let b = trailing(t, class);
    let m = t.len();
    let r = &t[0..m - b];
    assert(r@ =~= model::trim_end_where(t@, class.members()));
    r
}

/// `s` without the white space at its start and at its end.
pub fn trim(s: &[char]) -> (r: &[char])
    ensures
        r@ == model::trim(s@),
{
    trim_class(s, &Class::Whitespace)
}

/// `s` without the characters of `set` at its start and at its end.
pub fn trim_matches<'a>(s: &'a [char], set: &[char]) -> (r: &'a [char])
    ensures
        r@ == model::trim_matches(s@, set@),
{
    trim_class(s, &Class::AnyOf(set))
}

/// `s` without the characters of `set` at its end.
pub fn trim_end_matches<'a>(s: &'a [char], set: &[char]) -> (r: &'a [char])
    ensures
        r@ == model::trim_end_matches(s@, set@),
{
    let class = Class::AnyOf(set);
    let b = trailing(s, &class);
    let n = s.len();
    let r = &s[0..n - b];
    assert(r@ =~= model::trim_end_where(s@, class.members()));
    r
}

/// The maximal runs of characters of `s` that are not white space, in order.
pub fn split_whitespace(s: &[char]) -> (r: Vec<&[char]>)
    ensures
        views(r@) == model::split_whitespace(s@),
{
    let mut out: Vec<&[char]> = Vec::new();
    let mut rest: &[char] = s;
    assert(views(out@) =~= Seq::empty());
    loop
        invariant
            model::split_whitespace(s@) == views(out@) + model::split_whitespace(rest@),
        decreases rest@.len(),
    {
        let ghost before = out@;
        let a = leading(rest, &Class::Whitespace);
        let n = rest.len();
        let t = &rest[a..n];
        assert(t@ =~= model::trim_start_where(rest@, model::whitespace()));
        if t.len() == 0 {
            assert(views(out@) + Seq::<Seq<char>>::empty() =~= views(out@));
            return out;
        }
        let k = leading(t, &Class::NonWhitespace);
        let m = t.len();
        let word = &t[0..k];
        let tail = &t[k..m];
        out.push(word);
        proof {
            lemma_prefix_len(t@, model::non_whitespace());
            lemma_prefix_len(rest@, model::whitespace());
            assert(k > 0) by {
                if k == 0 {
                    assert(!is_whitespace(t@[0]));
                    assert(!(model::non_whitespace())(t@[0]));
                }
            }
            assert(word@ =~= t@.take(k as int));
            assert(tail@ =~= t@.skip(k as int));
            assert(views(out@) =~= views(before) + seq![word@]);
            assert(views(before) + (seq![word@] + model::split_whitespace(tail@)) =~= views(out@)
                + model::split_whitespace(tail@));
        }
        rest = tail;
    }
}

/// The lines of a text.
pub fn lines(s: &[char]) -> (r: Vec<&[char]>)
    ensures
        views(r@) == model::lines(s@),
{
    let newline = ['\n'];
    let pat = newline.as_slice();
    assert(pat@ =~= seq!['\n']);
    let mut out: Vec<&[char]> = Vec::new();
    let mut rest: &[char] = s;
    assert(views(out@) =~= Seq::empty());
    loop
        invariant
            pat@ == seq!['\n'],
            model::lines(s@) == views(out@) + model::lines(rest@),
        decreases rest@.len(),
    {
        let ghost before = out@;
        if rest.len() == 0 {
            assert(views(out@) + Seq::<Seq<char>>::empty() =~= views(out@));
            return out;
        }
        match find(rest, pat) {
            None => {
                out.push(rest);
                assert(views(out@) =~= views(before) + seq![rest@]);
                return out;
            },
            Some(i) => {
                proof {
                    lemma_find_from(rest@, pat@, 0);
                    assert(occurs_at(rest@, pat@, i as int));
                }
                let n = rest.len();
                let tail = &rest[i + 1..n];
                let line = if i > 0 && rest[i - 1] == '\r' {
                    &rest[0..i - 1]
                } else {
                    &rest[0..i]
                };
                out.push(line);
                proof {
                    assert(line@ =~= model::strip_cr(rest@.take(i as int)));
                    assert(tail@ =~= rest@.skip(i + 1));
                    assert(views(out@) =~= views(before) + seq![line@]);
                    assert(views(before) + (seq![line@] + model::lines(tail@)) =~= views(out@)
                        + model::lines(tail@));
                }
                rest = tail;
            },
        }
    }
}

/// Whether two texts are equal.
pub fn same(a: &[char], b: &[char]) -> (r: bool)
    ensures
        r == (a@ == b@),
{
    if a.len() != b.len() {
        return false;
    }
    let r = matches_at(a, b, 0);
    proof {
        assert(a@.subrange(0, 0 + b@.len() as int) =~= a@);
    }
    r
}

/// Whether a text is the given word.
pub fn is(s: &[char], word: &str) -> (r: bool)
    ensures
        r == (s@ == word@),
{
    let w = to_chars(word);
    same(s, w.as_slice())
}

/// `s` with every `from` replaced by `to`.
pub fn replace_char(s: &[char], from: char, to: char) -> (r: Vec<char>)
    ensures
        r@ == model::replace_char(s@, from, to),
{
    let mut out: Vec<char> = Vec::new();
    let mut i: usize = 0;
    while i < s.len()
        invariant
            i <= s.len(),
            out@ == model::replace_char(s@, from, to).take(i as int),
        decreases s.len() - i,
    {
        let c = s[i];
        out.push(if c == from { to } else { c });
        assert(out@ =~= model::replace_char(s@, from, to).take(i + 1));
        i += 1;
    }
    assert(out@ =~= model::replace_char(s@, from, to));
    out
}

/// The string whose characters have the given numbers, if each of them is
/// a scalar value.
pub fn string_of(codes: &[u32]) -> (r: Option<String>)
    ensures
        match r {
            Some(s) => model::text_of(codes@) == Some(s@),
            None => model::text_of(codes@) is None,
        },
{
    let mut out = String::new();
    let mut i: usize = 0;
    while i < codes.len()
        invariant
            i <= codes.len(),
            out@.len() == i,
            forall|j: int| 0 <= j < i ==> model::scalar_of(#[trigger] codes@[j]) == Some(out@[j]),
        decreases codes.len() - i,
    {
        match char::from_u32(codes[i]) {
            Some(c) => {
                out.push(c);
            },
            None => {
                return None;
            },
        }
        i += 1;
    }
    assert(model::text_of(codes@).unwrap() =~= out@);
    Some(out)
}

/// Whether `s` ends with `pat`.
pub fn ends_with(s: &[char], pat: &[char]) -> (r: bool)
    ensures
        r == pat@.is_suffix_of(s@),
{
    if pat.len() > s.len() {
        return false;
    }
    let at = s.len() - pat.len();
    let r = matches_at(s, pat, at);
    proof {
        assert(s@.subrange(at as int, at + pat@.len()) =~= s@.skip(s@.len() - pat@.len()));
    }
    r
}

} // verus!
