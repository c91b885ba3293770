//! The tables, each built from the text of one data file.
//!
//! A data file is trusted text that ships with a release, so a table is
//! either built whole or not at all: the first line that breaks the file's
//! grammar ends the build with a [`TableError`].

use vstd::prelude::*;

pub mod uca;
pub mod uca_cldr;
pub mod ucd;

verus! {

/// Why the text of a data file could not be built into a table.
#[derive(Debug, Clone, Copy, PartialEq, Eq, Structural)]
pub enum TableError {
    /// A line lacks a separator that its grammar requires.
    MissingSeparator,
    /// A token that must be a number in digits is none, or is too large.
    BadNumber,
    /// A weight group is empty.
    EmptyGroup,
    /// A weight group holds a number of levels that its grammar does not
    /// allow.
    BadLevelCount,
    /// An entry's key is longer than three code points.
    BadCodesLength,
    /// Two blocks have the same name, up to case and punctuation.
    DuplicateBlock,
    /// A line does not have the number of fields that its grammar fixes.
    BadFieldCount,
    /// A field holds a word that is none of the values of its property.
    UnknownValue,
    /// A number stands where a character is meant and is no scalar value.
    NotACharacter,
    /// A range of code points is opened and not closed, or closed and not
    /// opened, or ends before it begins.
    BadRange,
    /// Two records have the same code point.
    DuplicateCodepoint,
}

/// The results of `f` on each item in order, or the error of the first item
/// on which `f` fails.
pub open spec fn try_map<T>(
    items: Seq<Seq<char>>,
    f: spec_fn(Seq<char>) -> Result<T, TableError>,
) -> Result<Seq<T>, TableError>
    decreases items.len(),
{
    if items.len() == 0 {
        Ok(Seq::empty())
    } else {
        match try_map(items.drop_last(), f) {
            Err(e) => Err(e),
            Ok(done) => match f(items.last()) {
                Err(e) => Err(e),
                Ok(t) => Ok(done.push(t)),
            },
        }
    }
}

/// What one more item adds to the result of `try_map`.
pub proof fn lemma_try_map_push<T>(
    items: Seq<Seq<char>>,
    item: Seq<char>,
    f: spec_fn(Seq<char>) -> Result<T, TableError>,
)
    ensures
        try_map(items.push(item), f) == match try_map(items, f) {
            Err(e) => Err(e),
            Ok(done) => match f(item) {
                Err(e) => Err(e),
                Ok(t) => Ok(done.push(t)),
            },
        },
{
    assert(items.push(item).drop_last() =~= items);
}

/// What the item at index `i` adds to the result of `try_map` on the items
/// before it.
pub proof fn lemma_try_map_step<T>(
    items: Seq<Seq<char>>,
    i: int,
    f: spec_fn(Seq<char>) -> Result<T, TableError>,
)
    requires
        0 <= i < items.len(),
    ensures
        try_map(items.take(i + 1), f) == match try_map(items.take(i), f) {
            Err(e) => Err(e),
            Ok(done) => match f(items[i]) {
                Err(e) => Err(e),
                Ok(t) => Ok(done.push(t)),
            },
        },
{
    assert(items.take(i + 1) =~= items.take(i).push(items[i]));
    lemma_try_map_push(items.take(i), items[i], f);
}

/// An error among the first items is the error of the whole.
pub proof fn lemma_try_map_error<T>(
    head: Seq<Seq<char>>,
    tail: Seq<Seq<char>>,
    f: spec_fn(Seq<char>) -> Result<T, TableError>,
)
    requires
        try_map(head, f) is Err,
    ensures
        try_map(head + tail, f) == try_map(head, f),
    decreases tail.len(),
{
    if tail.len() == 0 {
        assert(head + tail =~= head);
    } else {
        lemma_try_map_error(head, tail.drop_last(), f);
        assert((head + tail).drop_last() =~= head + tail.drop_last());
    }
}

/// What one more element adds to a filtered sequence.
pub proof fn lemma_filter_push<A>(s: Seq<A>, x: A, keep: spec_fn(A) -> bool)
    ensures
        s.push(x).filter(keep) == if keep(x) {
            s.filter(keep).push(x)
        } else {
            s.filter(keep)
        },
{
    reveal(Seq::filter);
    assert(s.push(x).drop_last() =~= s);
}

/// The least index at or after `from` whose element is in `class`.
pub open spec fn first_from<A>(s: Seq<A>, class: spec_fn(A) -> bool, from: int) -> Option<int>
    decreases s.len() - from,
{
    if from < 0 || from >= s.len() {
        None
    } else if class(s[from]) {
        Some(from)
    } else {
        first_from(s, class, from + 1)
    }
}

/// The least index whose element is in `class`.
pub open spec fn first_where<A>(s: Seq<A>, class: spec_fn(A) -> bool) -> Option<int> {
    first_from(s, class, 0)
}

/// `first_from` returns the least index of an element of the class, and
/// `None` only if there is none.
pub proof fn lemma_first_from<A>(s: Seq<A>, class: spec_fn(A) -> bool, from: int)
    requires
        0 <= from,
    ensures
        match first_from(s, class, from) {
            Some(i) => from <= i < s.len() && class(s[i]) && forall|j: int|
                from <= j < i ==> !class(#[trigger] s[j]),
            None => forall|j: int| from <= j < s.len() ==> !class(#[trigger] s[j]),
        },
    decreases s.len() - from,
{
    if from >= s.len() {
    } else if class(s[from]) {
    } else {
        lemma_first_from(s, class, from + 1);
    }
}

} // verus!
