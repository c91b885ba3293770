//! What the scanning functions compute, as functions on `Seq<char>`.

use vstd::prelude::*;

verus! {

/// The characters with the Unicode property `White_Space`.
pub open spec fn is_whitespace(c: char) -> bool {
    ||| '\u{9}' <= c <= '\u{d}'
    ||| c == ' '
    ||| c == '\u{85}'
    ||| c == '\u{a0}'
    ||| c == '\u{1680}'
    ||| '\u{2000}' <= c <= '\u{200a}'
    ||| c == '\u{2028}'
    ||| c == '\u{2029}'
    ||| c == '\u{202f}'
    ||| c == '\u{205f}'
    ||| c == '\u{3000}'
}

/// The class of white-space characters.
pub open spec fn whitespace() -> spec_fn(char) -> bool {
    |c: char| is_whitespace(c)
}

/// The class of all characters but white space.
pub open spec fn non_whitespace() -> spec_fn(char) -> bool {
    |c: char| !is_whitespace(c)
}

/// The class of the characters that occur in `set`.
pub open spec fn any_of(set: Seq<char>) -> spec_fn(char) -> bool {
    |c: char| set.contains(c)
}

/// Whether `pat` stands in `s` at index `i`.
pub open spec fn occurs_at(s: Seq<char>, pat: Seq<char>, i: int) -> bool {
    0 <= i && i + pat.len() <= s.len() && s.subrange(i, i + pat.len()) == pat
}

/// The first index at or after `from` at which `pat` stands in `s`.
pub open spec fn find_from(s: Seq<char>, pat: Seq<char>, from: int) -> Option<int>
    decreases s.len() + 1 - from,
{
    if from < 0 || from + pat.len() > s.len() {
        None
    } else if occurs_at(s, pat, from) {
        Some(from)
    } else {
        find_from(s, pat, from + 1)
    }
}

/// The index of the first occurrence of `pat` in `s`.
pub open spec fn find(s: Seq<char>, pat: Seq<char>) -> Option<int> {
    find_from(s, pat, 0)
}

/// The last index at or before `from` at which `pat` stands in `s`.
pub open spec fn rfind_from(s: Seq<char>, pat: Seq<char>, from: int) -> Option<int>
    decreases from + 1,
{
    if from < 0 {
        None
    } else if occurs_at(s, pat, from) {
        Some(from)
    } else {
        rfind_from(s, pat, from - 1)
    }
}

/// The index of the last occurrence of `pat` in `s`.
pub open spec fn rfind(s: Seq<char>, pat: Seq<char>) -> Option<int> {
    rfind_from(s, pat, s.len() - pat.len())
}

/// Whether `pat` occurs anywhere in `s`.
pub open spec fn contains(s: Seq<char>, pat: Seq<char>) -> bool {
    find(s, pat) is Some
}

/// `find_from` returns the least index of an occurrence, and `None` only if
/// there is none.
pub proof fn lemma_find_from(s: Seq<char>, pat: Seq<char>, from: int)
    requires
        0 <= from,
    ensures
        match find_from(s, pat, from) {
            Some(i) => from <= i && occurs_at(s, pat, i) && forall|j: int|
                from <= j < i ==> !occurs_at(s, pat, j),
            None => forall|j: int| from <= j ==> !occurs_at(s, pat, j),
        },
    decreases s.len() + 1 - from,
{
    if from + pat.len() > s.len() {
    } else if occurs_at(s, pat, from) {
    } else {
        lemma_find_from(s, pat, from + 1);
    }
}

/// `rfind_from` returns the greatest index of an occurrence, and `None` only
/// if there is none.
pub proof fn lemma_rfind_from(s: Seq<char>, pat: Seq<char>, from: int)
    ensures
        match rfind_from(s, pat, from) {
            Some(i) => i <= from && occurs_at(s, pat, i) && forall|j: int|
                i < j <= from ==> !occurs_at(s, pat, j),
            None => forall|j: int| j <= from ==> !occurs_at(s, pat, j),
        },
    decreases from + 1,
{
    if from < 0 {
    } else if occurs_at(s, pat, from) {
    } else {
        lemma_rfind_from(s, pat, from - 1);
    }
}

/// The two parts of `s` around the first occurrence of `pat`.
pub open spec fn split_once(s: Seq<char>, pat: Seq<char>) -> Option<(Seq<char>, Seq<char>)> {
    match find(s, pat) {
        Some(i) => Some((s.take(i), s.skip(i + pat.len()))),
        None => None,
    }
}

/// The parts of `s` between the occurrences of `pat`, found from the left.
/// There is one part more than there are separators, so an empty `s` has one
/// empty part.
pub open spec fn split(s: Seq<char>, pat: Seq<char>) -> Seq<Seq<char>>
    recommends
        pat.len() > 0,
    decreases s.len(),
{
    if pat.len() == 0 {
        seq![s]
    } else {
        match find(s, pat) {
            Some(i) => {
                proof {
                    lemma_find_from(s, pat, 0);
                }
                seq![s.take(i)] + split(s.skip(i + pat.len()), pat)
            },
            None => seq![s],
        }
    }
}

/// A split text has at least one part.
pub proof fn lemma_split_nonempty(s: Seq<char>, pat: Seq<char>)
    ensures
        split(s, pat).len() >= 1,
{
}

/// The number of characters at the start of `s` that are all in `class`.
pub open spec fn prefix_len(s: Seq<char>, class: spec_fn(char) -> bool) -> nat
    decreases s.len(),
{
    if s.len() > 0 && class(s.first()) {
        1 + prefix_len(s.drop_first(), class)
    } else {
        0
    }
}

/// The number of characters at the end of `s` that are all in `class`.
pub open spec fn suffix_len(s: Seq<char>, class: spec_fn(char) -> bool) -> nat
    decreases s.len(),
{
    if s.len() > 0 && class(s.last()) {
        1 + suffix_len(s.drop_last(), class)
    } else {
        0
    }
}

/// `prefix_len` counts a run: it stays within `s`, every character of the
/// run is in the class, and the character after the run is not.
pub proof fn lemma_prefix_len(s: Seq<char>, class: spec_fn(char) -> bool)
    ensures
        prefix_len(s, class) <= s.len(),
        forall|i: int| 0 <= i < prefix_len(s, class) ==> class(#[trigger] s[i]),
        prefix_len(s, class) < s.len() ==> !class(s[prefix_len(s, class) as int]),
    decreases s.len(),
{
    if s.len() > 0 && class(s.first()) {
        let t = s.drop_first();
        lemma_prefix_len(t, class);
        assert forall|i: int| 0 <= i < prefix_len(s, class) implies class(#[trigger] s[i]) by {
            if i > 0 {
                assert(s[i] == t[i - 1]);
            }
        }
        if prefix_len(s, class) < s.len() {
            assert(s[prefix_len(s, class) as int] == t[prefix_len(t, class) as int]);
        }
    }
}

/// `suffix_len` counts a run at the end of `s`.
pub proof fn lemma_suffix_len(s: Seq<char>, class: spec_fn(char) -> bool)
    ensures
        suffix_len(s, class) <= s.len(),
        forall|i: int| s.len() - suffix_len(s, class) <= i < s.len() ==> class(#[trigger] s[i]),
        suffix_len(s, class) < s.len() ==> !class(s[s.len() - suffix_len(s, class) - 1]),
    decreases s.len(),
{
    if s.len() > 0 && class(s.last()) {
        let t = s.drop_last();
        lemma_suffix_len(t, class);
        assert forall|i: int| s.len() - suffix_len(s, class) <= i < s.len() implies class(
            #[trigger] s[i],
        ) by {
            if i < s.len() - 1 {
                assert(s[i] == t[i]);
            }
        }
        if suffix_len(s, class) < s.len() {
            assert(s[s.len() - suffix_len(s, class) - 1] == t[t.len() - suffix_len(t, class) - 1]);
        }
    }
}

/// `s` without the characters of `class` at its start.
pub open spec fn trim_start_where(s: Seq<char>, class: spec_fn(char) -> bool) -> Seq<char> {
    s.skip(prefix_len(s, class) as int)
}

/// `s` without the characters of `class` at its end.
pub open spec fn trim_end_where(s: Seq<char>, class: spec_fn(char) -> bool) -> Seq<char> {
    s.take(s.len() - suffix_len(s, class))
}

/// `s` without the characters of `class` at its start and at its end.
pub open spec fn trim_where(s: Seq<char>, class: spec_fn(char) -> bool) -> Seq<char> {
    trim_end_where(trim_start_where(s, class), class)
}

/// `s` without the white space at its start and at its end.
pub open spec fn trim(s: Seq<char>) -> Seq<char> {
    trim_where(s, whitespace())
}

/// `s` without the characters of `set` at its start and at its end.
pub open spec fn trim_matches(s: Seq<char>, set: Seq<char>) -> Seq<char> {
    trim_where(s, any_of(set))
}

/// `s` without the characters of `set` at its end.
pub open spec fn trim_end_matches(s: Seq<char>, set: Seq<char>) -> Seq<char> {
    trim_end_where(s, any_of(set))
}

/// The maximal runs of characters of `s` that are not white space, in order.
pub open spec fn split_whitespace(s: Seq<char>) -> Seq<Seq<char>>
    decreases s.len(),
{
    let t = trim_start_where(s, whitespace());
    if t.len() == 0 {
        Seq::empty()
    } else {
        let n = prefix_len(t, non_whitespace());
        proof {
            lemma_prefix_len(s, whitespace());
            lemma_prefix_len(t, non_whitespace());
        }
        seq![t.take(n as int)] + split_whitespace(t.skip(n as int))
    }
}

/// A line without the carriage return that ended it, if one did.
pub open spec fn strip_cr(line: Seq<char>) -> Seq<char> {
    if line.len() > 0 && line.last() == '\r' {
        line.drop_last()
    } else {
        line
    }
}

/// The lines of a text. A line ends at a line feed, or at a carriage return
/// followed by a line feed; the last line needs no line ending, and a text
/// that ends with a line ending has no empty last line.
pub open spec fn lines(s: Seq<char>) -> Seq<Seq<char>>
    decreases s.len(),
{
    if s.len() == 0 {
        Seq::empty()
    } else {
        match find(s, seq!['\n']) {
            Some(i) => {
                proof {
                    lemma_find_from(s, seq!['\n'], 0);
                }
                seq![strip_cr(s.take(i))] + lines(s.skip(i + 1))
            },
            None => seq![s],
        }
    }
}

/// `s` with every `from` replaced by `to`.
pub open spec fn replace_char(s: Seq<char>, from: char, to: char) -> Seq<char> {
    s.map_values(|c: char| if c == from { to } else { c })
}

/// The character with the given number, if the number is a scalar value:
/// at most `10FFFF` and no surrogate.
pub open spec fn scalar_of(code: u32) -> Option<char> {
    if code <= 0xd7ff || 0xe000 <= code <= 0x10ffff {
        Some(code as char)
    } else {
        None
    }
}

/// The text whose characters have the given numbers, if each of them is a
/// scalar value.
pub open spec fn text_of(codes: Seq<u32>) -> Option<Seq<char>> {
    if forall|i: int| 0 <= i < codes.len() ==> scalar_of(#[trigger] codes[i]) is Some {
        Some(codes.map_values(|code: u32| scalar_of(code).unwrap()))
    } else {
        None
    }
}

/// The views of a vector of slices, in order.
pub open spec fn views(pieces: Seq<&[char]>) -> Seq<Seq<char>> {
    pieces.map_values(|p: &[char]| p@)
}

/// The first occurrence is where `pat` stands with no occurrence before it.
pub proof fn lemma_find_is(s: Seq<char>, pat: Seq<char>, i: int)
    requires
        occurs_at(s, pat, i),
        forall|j: int| 0 <= j < i ==> !occurs_at(s, pat, j),
    ensures
        find(s, pat) == Some(i),
{
    lemma_find_from(s, pat, 0);
}

/// Nothing is found where `pat` stands nowhere.
pub proof fn lemma_find_none(s: Seq<char>, pat: Seq<char>)
    requires
        forall|j: int| 0 <= j ==> !occurs_at(s, pat, j),
    ensures
        find(s, pat) is None,
{
    lemma_find_from(s, pat, 0);
}

/// A run of `n` characters of the class at the start of `s`, with another
/// character or nothing after it, is what `prefix_len` counts.
pub proof fn lemma_prefix_len_is(s: Seq<char>, class: spec_fn(char) -> bool, n: int)
    requires
        0 <= n <= s.len(),
        forall|i: int| 0 <= i < n ==> class(#[trigger] s[i]),
        n < s.len() ==> !class(s[n]),
    ensures
        prefix_len(s, class) == n,
{
    lemma_prefix_len(s, class);
}

/// A run of `n` characters of the class at the end of `s`, with another
/// character or nothing before it, is what `suffix_len` counts.
pub proof fn lemma_suffix_len_is(s: Seq<char>, class: spec_fn(char) -> bool, n: int)
    requires
        0 <= n <= s.len(),
        forall|i: int| s.len() - n <= i < s.len() ==> class(#[trigger] s[i]),
        n < s.len() ==> !class(s[s.len() - n - 1]),
    ensures
        suffix_len(s, class) == n,
{
    lemma_suffix_len(s, class);
}

/// Trimming takes away a run of the class before a text and one after
/// it, where the text itself begins and ends with other characters.
pub proof fn lemma_trim_where_is(
    before: Seq<char>,
    inner: Seq<char>,
    after: Seq<char>,
    class: spec_fn(char) -> bool,
)
    requires
        forall|i: int| 0 <= i < before.len() ==> class(#[trigger] before[i]),
        forall|i: int| 0 <= i < after.len() ==> class(#[trigger] after[i]),
        inner.len() > 0,
        !class(inner.first()),
        !class(inner.last()),
    ensures
        trim_where(before + inner + after, class) == inner,
{
    let s = before + inner + after;
    assert(s[before.len() as int] == inner.first());
    lemma_prefix_len_is(s, class, before.len() as int);
    let t = trim_start_where(s, class);
    assert(t =~= inner + after);
    assert(t[inner.len() - 1] == inner.last());
    assert forall|i: int| t.len() - after.len() <= i < t.len() implies class(#[trigger] t[i]) by {
        assert(t[i] == after[i - inner.len()]);
    }
    lemma_suffix_len_is(t, class, after.len() as int);
    assert(trim_end_where(t, class) =~= inner);
}

} // verus!
