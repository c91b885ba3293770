//! The fractional collation element table of CLDR: weights as groups of
//! bytes of varying length.

use crate::parse::{
    lemma_filter_push, lemma_try_map_error, lemma_try_map_push, lemma_try_map_step, try_map,
    TableError,
};
use crate::text;
use crate::text::model;
use crate::text::model::views;
use crate::text::radix;
use vstd::prelude::*;

verus! {

/// One line of the table: a sequence of code points, and the fractional
/// collation elements that it maps to, each with the bytes of its three
/// levels. An entry without weights stands for a sequence that has none.
pub struct FractionalWeightsEntry {
    pub codes: Vec<u32>,
    pub weights: Vec<(Vec<u8>, Vec<u8>, Vec<u8>)>,
    pub description: String,
    /// Whether the mapping depends on what stands before the sequence: the
    /// key was written with a `|` between the context and the sequence.
    pub ce_case: bool,
}

/// What a [`FractionalWeightsEntry`] holds.
pub struct FractionalWeightsEntryView {
    pub codes: Seq<u32>,
    pub weights: Seq<(Seq<u8>, Seq<u8>, Seq<u8>)>,
    pub description: Seq<char>,
    pub ce_case: bool,
}

/// What a list of fractional collation elements holds.
pub open spec fn groups_view(groups: Seq<(Vec<u8>, Vec<u8>, Vec<u8>)>) -> Seq<
    (Seq<u8>, Seq<u8>, Seq<u8>),
> {
    groups.map_values(|g: (Vec<u8>, Vec<u8>, Vec<u8>)| (g.0@, g.1@, g.2@))
}

impl View for FractionalWeightsEntry {
    type V = FractionalWeightsEntryView;

    open spec fn view(&self) -> FractionalWeightsEntryView {
        FractionalWeightsEntryView {
            codes: self.codes@,
            weights: groups_view(self.weights@),
            description: self.description@,
            ce_case: self.ce_case,
        }
    }
}

/// What a table of entries holds, entry by entry.
pub open spec fn entries_view(table: Seq<FractionalWeightsEntry>) -> Seq<
    FractionalWeightsEntryView,
> {
    table.map_values(|e: FractionalWeightsEntry| e@)
}

/// The code points that the key field of a line denotes: hexadecimal
/// numbers with white space between them, where a `|` counts as white
/// space.
pub open spec fn codes_of(field: Seq<char>) -> Result<Seq<u32>, TableError> {
    match radix::all_hex_u32(model::split_whitespace(model::replace_char(field, '|', ' '))) {
        Some(codes) => Ok(codes),
        None => Err(TableError::BadNumber),
    }
}

/// The bytes of one level: hexadecimal numbers with white space between
/// them, or nothing.
pub open spec fn level_of(part: Seq<char>) -> Option<Seq<u8>> {
    radix::all_hex_u8(model::split_whitespace(part))
}

/// The fractional collation element that a group denotes. A group is what
/// stands between two brackets: the bytes of three levels, separated by
/// commas.
pub open spec fn group_of(group: Seq<char>) -> Result<(Seq<u8>, Seq<u8>, Seq<u8>), TableError> {
    let parts = model::split(group, ","@);
    if parts.len() != 3 {
        Err(TableError::BadLevelCount)
    } else {
        match (level_of(parts[0]), level_of(parts[1]), level_of(parts[2])) {
            (Some(l1), Some(l2), Some(l3)) => Ok((l1, l2, l3)),
            _ => Err(TableError::BadNumber),
        }
    }
}

/// `group_of`, as a value.
pub open spec fn group_parser() -> spec_fn(Seq<char>) -> Result<
    (Seq<u8>, Seq<u8>, Seq<u8>),
    TableError,
> {
    |group: Seq<char>| group_of(group)
}

/// Whether the list is the one element without a byte on any level, which
/// is how the source writes that a sequence has no weight.
pub open spec fn is_blank(groups: Seq<(Seq<u8>, Seq<u8>, Seq<u8>)>) -> bool {
    groups.len() == 1 && groups[0].0.len() == 0 && groups[0].1.len() == 0 && groups[0].2.len()
        == 0
}

/// The fractional collation elements that the weights field of a line
/// denotes: one or more bracketed groups, and no element at all where the
/// field is one group without a byte.
pub open spec fn weights_of(field: Seq<char>) -> Result<
    Seq<(Seq<u8>, Seq<u8>, Seq<u8>)>,
    TableError,
> {
    match try_map(
        model::split(model::trim_matches(model::trim(field), "[]"@), "]["@),
        group_parser(),
    ) {
        Err(e) => Err(e),
        Ok(groups) => if is_blank(groups) {
            Ok(Seq::empty())
        } else {
            Ok(groups)
        },
    }
}

/// Whether the weights of a line refer to another code point, written
/// `U+` and its number. Such a line has a well-formed key and is passed
/// over.
pub open spec fn refers_elsewhere(line: Seq<char>) -> bool {
    match model::split_once(line, "#"@) {
        None => false,
        Some((values, description)) => match model::split_once(values, ";"@) {
            None => false,
            Some((codes, weights)) => codes_of(codes) is Ok && model::contains(weights, "U+"@),
        },
    }
}

/// The class of the lines that hold an entry: all but empty lines, lines
/// that begin with a bracket or a number sign, and lines that refer
/// elsewhere.
pub open spec fn holds_entry() -> spec_fn(Seq<char>) -> bool {
    |line: Seq<char>| line.len() > 0 && line[0] != '[' && line[0] != '#' && !refers_elsewhere(line)
}

/// The entry that a line denotes: the key, a semicolon, the weights, a
/// number sign, and a description.
pub open spec fn entry_of(line: Seq<char>) -> Result<FractionalWeightsEntryView, TableError> {
    match model::split_once(line, "#"@) {
        None => Err(TableError::MissingSeparator),
        Some((values, description)) => match model::split_once(values, ";"@) {
            None => Err(TableError::MissingSeparator),
            Some((codes, weights)) => match codes_of(codes) {
                Err(e) => Err(e),
                Ok(key) => match weights_of(weights) {
                    Err(e) => Err(e),
                    Ok(weights) => Ok(
                        FractionalWeightsEntryView {
                            codes: key,
                            weights,
                            description,
                            ce_case: model::contains(codes, "|"@),
                        },
                    ),
                },
            },
        },
    }
}

/// `entry_of`, as a value.
pub open spec fn entry_parser() -> spec_fn(Seq<char>) -> Result<
    FractionalWeightsEntryView,
    TableError,
> {
    |line: Seq<char>| entry_of(line)
}

/// The table that a source text denotes: the entries of its lines, in
/// their order.
pub open spec fn table_of(source: Seq<char>) -> Result<
    Seq<FractionalWeightsEntryView>,
    TableError,
> {
    try_map(model::lines(source).filter(holds_entry()), entry_parser())
}

/// Parses the key field of a line.
fn parse_codes(field: &[char]) -> (r: Result<Vec<u32>, TableError>)
    ensures
        match r {
            Ok(v) => codes_of(field@) == Ok::<Seq<u32>, TableError>(v@),
            Err(e) => codes_of(field@) == Err::<Seq<u32>, TableError>(e),
        },
{
    let spaced = text::replace_char(field, '|', ' ');
    let pieces = text::split_whitespace(spaced.as_slice());
    match radix::parse_all_hex_u32(&pieces) {
        Some(codes) => Ok(codes),
        None => Err(TableError::BadNumber),
    }
}

/// Parses the bytes of one level.
fn parse_level(part: &[char]) -> (r: Option<Vec<u8>>)
    ensures
        match r {
            Some(v) => level_of(part@) == Some(v@),
            None => level_of(part@) is None,
        },
{
    let pieces = text::split_whitespace(part);
    radix::parse_all_hex_u8(&pieces)
}

/// Parses what stands between two brackets of the weights field.
fn parse_group(group: &[char]) -> (r: Result<(Vec<u8>, Vec<u8>, Vec<u8>), TableError>)
    ensures
        match r {
            Ok(g) => group_of(group@) == Ok::<(Seq<u8>, Seq<u8>, Seq<u8>), TableError>(
                (g.0@, g.1@, g.2@),
            ),
            Err(e) => group_of(group@) == Err::<(Seq<u8>, Seq<u8>, Seq<u8>), TableError>(e),
        },
{
    let comma = text::to_chars(",");
    let parts = text::split(group, comma.as_slice());
    if parts.len() != 3 {
        return Err(TableError::BadLevelCount);
    }
    let l1 = parse_level(parts[0]);
    let l2 = parse_level(parts[1]);
    let l3 = parse_level(parts[2]);
    match (l1, l2, l3) {
        (Some(l1), Some(l2), Some(l3)) => Ok((l1, l2, l3)),
        _ => Err(TableError::BadNumber),
    }
}

/// Parses the weights field of a line.
fn parse_weights(field: &[char]) -> (r: Result<Vec<(Vec<u8>, Vec<u8>, Vec<u8>)>, TableError>)
    ensures
        match r {
            Ok(v) => weights_of(field@) == Ok::<Seq<(Seq<u8>, Seq<u8>, Seq<u8>)>, TableError>(
                groups_view(v@),
            ),
            Err(e) => weights_of(field@) == Err::<Seq<(Seq<u8>, Seq<u8>, Seq<u8>)>, TableError>(e),
        },
{
    let brackets = text::to_chars("[]");
    let between = text::to_chars("][");
    let groups = text::split(
        text::trim_matches(text::trim(field), brackets.as_slice()),
        between.as_slice(),
    );
    let ghost items = views(groups@);
    let mut out: Vec<(Vec<u8>, Vec<u8>, Vec<u8>)> = Vec::new();
    let mut i: usize = 0;
    proof {
        assert(items.take(0) =~= Seq::empty());
        assert(groups_view(out@) =~= Seq::empty());
    }
    while i < groups.len()
        invariant
            i <= groups.len(),
            items == views(groups@),
            items == model::split(model::trim_matches(model::trim(field@), "[]"@), "]["@),
            try_map(items.take(i as int), group_parser()) == Ok::<
                Seq<(Seq<u8>, Seq<u8>, Seq<u8>)>,
                TableError,
            >(groups_view(out@)),
        decreases groups.len() - i,
    {
        proof {
            lemma_try_map_step(items, i as int, group_parser());
        }
        let ghost before = out@;
        match parse_group(groups[i]) {
            Ok(g) => {
                out.push(g);
                assert(groups_view(out@) =~= groups_view(before).push((g.0@, g.1@, g.2@)));
            },
            Err(e) => {
                proof {
                    lemma_try_map_error(items.take(i + 1), items.skip(i + 1), group_parser());
                    assert(items.take(i + 1) + items.skip(i + 1) =~= items);
                }
                return Err(e);
            },
        }
        i += 1;
    }
    assert(items.take(i as int) =~= items);
    if out.len() == 1 && out[0].0.len() == 0 && out[0].1.len() == 0 && out[0].2.len() == 0 {
        out.clear();
        assert(groups_view(out@) =~= Seq::empty());
    }
    Ok(out)
}

/// What a line holds: an entry, or nothing because the line is passed over.
fn parse_line(line: &[char]) -> (r: Result<Option<FractionalWeightsEntry>, TableError>)
    ensures
        match r {
            Ok(Some(entry)) => holds_entry()(line@) && entry_of(line@) == Ok::<
                FractionalWeightsEntryView,
                TableError,
            >(entry@),
            Ok(None) => !holds_entry()(line@),
            Err(e) => holds_entry()(line@) && entry_of(line@) == Err::<
                FractionalWeightsEntryView,
                TableError,
            >(e),
        },
{
    if line.len() == 0 || line[0] == '[' || line[0] == '#' {
        return Ok(None);
    }
    let hash = text::to_chars("#");
    let semicolon = text::to_chars(";");
    let bar = text::to_chars("|");
    let reference = text::to_chars("U+");
    let (values, description) = match text::split_once(line, hash.as_slice()) {
        Some(parts) => parts,
        None => {
            return Err(TableError::MissingSeparator);
        },
    };
    let (codes, weights) = match text::split_once(values, semicolon.as_slice()) {
        Some(parts) => parts,
        None => {
            return Err(TableError::MissingSeparator);
        },
    };
    let ce_case = text::contains(codes, bar.as_slice());
    let codes = match parse_codes(codes) {
        Ok(codes) => codes,
        Err(e) => {
            return Err(e);
        },
    };
    if text::contains(weights, reference.as_slice()) {
        return Ok(None);
    }
    let weights = match parse_weights(weights) {
        Ok(weights) => weights,
        Err(e) => {
            return Err(e);
        },
    };
    Ok(
        Some(
            FractionalWeightsEntry {
                codes,
                weights,
                description: text::from_chars(description),
                ce_case,
            },
        ),
    )
}

/// Builds the table from the text of its source. The first line that breaks
/// the grammar fails the build.
pub fn fractional_table(source: &str) -> (r: Result<Vec<FractionalWeightsEntry>, TableError>)
    ensures
        match r {
            Ok(table) => table_of(source@) == Ok::<Seq<FractionalWeightsEntryView>, TableError>(
                entries_view(table@),
            ),
            Err(e) => table_of(source@) == Err::<Seq<FractionalWeightsEntryView>, TableError>(e),
        },
{
    let chars = text::to_chars(source);
    let lines = text::lines(chars.as_slice());
    let ghost all = views(lines@);
    let mut table: Vec<FractionalWeightsEntry> = Vec::new();
    let mut i: usize = 0;
    proof {
        assert(all.take(0) =~= Seq::empty());
        reveal(Seq::filter);
        assert(entries_view(table@) =~= Seq::empty());
    }
    while i < lines.len()
        invariant
            i <= lines.len(),
            all == views(lines@),
            all == model::lines(source@),
            try_map(all.take(i as int).filter(holds_entry()), entry_parser()) == Ok::<
                Seq<FractionalWeightsEntryView>,
                TableError,
            >(entries_view(table@)),
        decreases lines.len() - i,
    {
        proof {
            assert(all.take(i + 1) =~= all.take(i as int).push(all[i as int]));
            lemma_filter_push(all.take(i as int), all[i as int], holds_entry());
            lemma_try_map_push(
                all.take(i as int).filter(holds_entry()),
                all[i as int],
                entry_parser(),
            );
        }
        let ghost before = table@;
        match parse_line(lines[i]) {
            Ok(Some(entry)) => {
                table.push(entry);
                assert(entries_view(table@) =~= entries_view(before).push(entry@));
            },
            Ok(None) => {},
            Err(e) => {
                proof {
                    assert(all.take(i + 1) + all.skip(i + 1) =~= all);
                    Seq::filter_distributes_over_add(
                        all.take(i + 1),
                        all.skip(i + 1),
                        holds_entry(),
                    );
                    lemma_try_map_error(
                        all.take(i + 1).filter(holds_entry()),
                        all.skip(i + 1).filter(holds_entry()),
                        entry_parser(),
                    );
                }
                return Err(e);
            },
        }
        i += 1;
    }
    assert(all.take(i as int) =~= all);
    Ok(table)
}

} // verus!
