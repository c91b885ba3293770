//! The quick-check values of a normalization form: whether a code point may
//! stand in text of that form as it is.

use crate::parse::ucd::composition_exclusions::{before_comment, strip_comment};
use crate::parse::{
    first_from, first_where, lemma_filter_push, lemma_try_map_error, lemma_try_map_push, try_map,
    TableError,
};
use crate::text;
use crate::text::model;
use crate::text::model::views;
use crate::text::radix;
use vstd::prelude::*;

verus! {

/// Whether a code point may stand in normalized text.
#[derive(Debug, Clone, Copy, PartialEq, Eq, Structural)]
pub enum QuickCheck {
    /// It may.
    Yes,
    /// It may, depending on what stands around it.
    Maybe,
    /// It may not.
    No,
}

/// A range of code points, both ends included, with their quick-check
/// value.
#[derive(Debug, Clone, Copy, PartialEq, Eq, Structural)]
pub struct QuickCheckRange {
    pub from: u32,
    pub to: u32,
    pub value: QuickCheck,
}

impl QuickCheckRange {
    /// Whether `code` lies in the range.
    pub open spec fn covers(self, code: u32) -> bool {
        self.from <= code <= self.to
    }
}

/// The fields of a line: what stands before its comment, split at the
/// semicolons.
pub open spec fn fields_of(line: Seq<char>) -> Seq<Seq<char>> {
    model::split(before_comment(line), ";"@)
}

/// The class of the lines that give a value of `property`: the lines whose
/// second field is the name of the property.
pub open spec fn about(property: Seq<char>) -> spec_fn(Seq<char>) -> bool {
    |line: Seq<char>| fields_of(line).len() >= 2 && model::trim(fields_of(line)[1]) == property
}

/// The range that a first field denotes: one code point, or two with `..`
/// between them.
pub open spec fn range_of(field: Seq<char>) -> Option<(u32, u32)> {
    match model::split_once(field, ".."@) {
        Some((from, to)) => match (radix::hex_u32(from), radix::hex_u32(to)) {
            (Some(from), Some(to)) => Some((from, to)),
            _ => None,
        },
        None => match radix::hex_u32(field) {
            Some(code) => Some((code, code)),
            None => None,
        },
    }
}

/// The value that a letter denotes.
pub open spec fn quick_check_of(word: Seq<char>) -> Option<QuickCheck> {
    if word == "Y"@ {
        Some(QuickCheck::Yes)
    } else if word == "M"@ {
        Some(QuickCheck::Maybe)
    } else if word == "N"@ {
        Some(QuickCheck::No)
    } else {
        None
    }
}

/// The range and value that a line denotes: three fields, which are the
/// range, the name of the property, and the value.
pub open spec fn entry_of(line: Seq<char>) -> Result<QuickCheckRange, TableError> {
    let fields = fields_of(line);
    if fields.len() != 3 {
        Err(TableError::BadFieldCount)
    } else {
        match range_of(model::trim(fields[0])) {
            None => Err(TableError::BadNumber),
            Some((from, to)) => match quick_check_of(model::trim(fields[2])) {
                None => Err(TableError::UnknownValue),
                Some(value) => Ok(QuickCheckRange { from, to, value }),
            },
        }
    }
}

/// `entry_of`, as a value.
pub open spec fn entry_parser() -> spec_fn(Seq<char>) -> Result<QuickCheckRange, TableError> {
    |line: Seq<char>| entry_of(line)
}

/// The ranges that a source text gives for `property`, in the order of its
/// lines.
pub open spec fn entries_of(source: Seq<char>, property: Seq<char>) -> Result<
    Seq<QuickCheckRange>,
    TableError,
> {
    try_map(model::lines(source).filter(about(property)), entry_parser())
}

/// The class of the ranges in which `code` lies.
pub open spec fn covering(code: u32) -> spec_fn(QuickCheckRange) -> bool {
    |range: QuickCheckRange| range.covers(code)
}

/// The value of a code point: that of the first range in which it lies, and
/// `Yes` where it lies in none.
pub open spec fn quick_check_at(ranges: Seq<QuickCheckRange>, code: u32) -> QuickCheck {
    match first_where(ranges, covering(code)) {
        Some(i) => ranges[i].value,
        None => QuickCheck::Yes,
    }
}

/// The quick-check values of one normalization form.
pub struct QuickChecks {
    ranges: Vec<QuickCheckRange>,
}

impl View for QuickChecks {
    type V = Seq<QuickCheckRange>;

    closed spec fn view(&self) -> Seq<QuickCheckRange> {
        self.ranges@
    }
}

/// Parses the first field of a line.
fn parse_range(field: &[char]) -> (r: Option<(u32, u32)>)
    ensures
        r == range_of(field@),
{
    let dots = text::to_chars("..");
    match text::split_once(field, dots.as_slice()) {
        Some((from, to)) => match (radix::parse_hex_u32(from), radix::parse_hex_u32(to)) {
            (Some(from), Some(to)) => Some((from, to)),
            _ => None,
        },
        None => match radix::parse_hex_u32(field) {
            Some(code) => Some((code, code)),
            None => None,
        },
    }
}

/// Parses the letter of a value.
fn parse_quick_check(word: &[char]) -> (r: Option<QuickCheck>)
    ensures
        r == quick_check_of(word@),
{
    if text::is(word, "Y") {
        Some(QuickCheck::Yes)
    } else if text::is(word, "M") {
        Some(QuickCheck::Maybe)
    } else if text::is(word, "N") {
        Some(QuickCheck::No)
    } else {
        None
    }
}

/// Builds the quick-check values of the property with the given name, such
/// as `NFD_QC`, from the text of the derived normalization properties.
pub fn quick_checks(source: &str, property: &str) -> (r: Result<QuickChecks, TableError>)
    ensures
        match r {
            Ok(table) => entries_of(source@, property@) == Ok::<Seq<QuickCheckRange>, TableError>(
                table@,
            ),
            Err(e) => entries_of(source@, property@) == Err::<Seq<QuickCheckRange>, TableError>(e),
        },
{
    let chars = text::to_chars(source);
    let lines = text::lines(chars.as_slice());
    let name = text::to_chars(property);
    let semicolon = text::to_chars(";");
    let ghost all = views(lines@);
    let mut ranges: Vec<QuickCheckRange> = Vec::new();
    let mut i: usize = 0;
    proof {
        assert(all.take(0) =~= Seq::empty());
        reveal(Seq::filter);
    }
    while i < lines.len()
        invariant
            i <= lines.len(),
            name@ == property@,
            semicolon@ == ";"@,
            all == views(lines@),
            all == model::lines(source@),
            try_map(all.take(i as int).filter(about(property@)), entry_parser()) == Ok::<
                Seq<QuickCheckRange>,
                TableError,
            >(ranges@),
        decreases lines.len() - i,
    {
        let line = lines[i];
        proof {
            assert(all.take(i + 1) =~= all.take(i as int).push(all[i as int]));
            lemma_filter_push(all.take(i as int), all[i as int], about(property@));
        }
        let fields = text::split(strip_comment(line), semicolon.as_slice());
        if fields.len() >= 2 && text::same(text::trim(fields[1]), name.as_slice()) {
            proof {
                lemma_try_map_push(
                    all.take(i as int).filter(about(property@)),
                    all[i as int],
                    entry_parser(),
                );
            }
            let entry = if fields.len() != 3 {
                Err(TableError::BadFieldCount)
            } else {
                match parse_range(text::trim(fields[0])) {
                    None => Err(TableError::BadNumber),
                    Some((from, to)) => match parse_quick_check(text::trim(fields[2])) {
                        None => Err(TableError::UnknownValue),
                        Some(value) => Ok(QuickCheckRange { from, to, value }),
                    },
                }
            };
            match entry {
                Ok(range) => {
                    ranges.push(range);
                },
                Err(e) => {
                    proof {
                        assert(all.take(i + 1) + all.skip(i + 1) =~= all);
                        Seq::filter_distributes_over_add(
                            all.take(i + 1),
                            all.skip(i + 1),
                            about(property@),
                        );
                        lemma_try_map_error(
                            all.take(i + 1).filter(about(property@)),
                            all.skip(i + 1).filter(about(property@)),
                            entry_parser(),
                        );
                    }
                    return Err(e);
                },
            }
        }
        i += 1;
    }
    assert(all.take(i as int) =~= all);
    Ok(QuickChecks { ranges })
}

/// Builds the quick-check values of the canonical decomposed form, whose
/// property is named `NFD_QC`.
pub fn nfd_quick_checks(source: &str) -> (r: Result<QuickChecks, TableError>)
    ensures
        match r {
            Ok(table) => entries_of(source@, "NFD_QC"@) == Ok::<Seq<QuickCheckRange>, TableError>(
                table@,
            ),
            Err(e) => entries_of(source@, "NFD_QC"@) == Err::<Seq<QuickCheckRange>, TableError>(e),
        },
{
    quick_checks(source, "NFD_QC")
}

/// The quick-check value of a code point.
pub fn quick_check(table: &QuickChecks, code: u32) -> (r: QuickCheck)
    ensures
        r == quick_check_at(table@, code),
{
    let mut i: usize = 0;
    while i < table.ranges.len()
        invariant
            i <= table.ranges@.len(),
            first_where(table@, covering(code)) == first_from(table@, covering(code), i as int),
        decreases table.ranges@.len() - i,
    {
        let range = table.ranges[i];
        if range.from <= code && code <= range.to {
            return range.value;
        }
        i += 1;
    }
    QuickCheck::Yes
}

} // verus!
