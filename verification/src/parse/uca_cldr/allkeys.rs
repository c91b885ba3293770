//! The collation element table: what each code point, or short sequence of
//! code points, weighs on the three levels of comparison.

use crate::parse::uca_cldr::implicit::{
    family, family_of, implicit_weights, implicit_weights_of, ImplicitFamily,
};
use crate::parse::{
    lemma_filter_push, lemma_try_map_error, lemma_try_map_push, lemma_try_map_step, try_map,
    TableError,
};
use crate::text;
use crate::text::model;
use crate::text::model::views;
use crate::text::radix;
use std::collections::HashSet;
use vstd::prelude::*;

pub use crate::parse::uca_cldr::trie::{
    lookup_longest_match, weights_trie, weights_trie_counted, weights_trie_decomposed, TrieNode,
};

verus! {

/// One line of the table: a key of one to three code points, and the
/// collation elements that the key maps to.
#[derive(Debug, Clone)]
pub struct WeightsEntry {
    pub codes: Vec<u32>,
    pub weights: Vec<Weights>,
    pub description: String,
}

/// A collation element: the weights on three levels, and whether the
/// element is variable.
#[derive(Debug, Clone, Copy, PartialEq, Eq, Structural)]
pub struct Weights {
    pub l1: u16,
    pub l2: u16,
    pub l3: u16,
    pub is_variable: bool,
}

impl Weights {
    /// The element as the table's source writes it: in brackets, an asterisk
    /// for a variable element or a full stop for any other, then the three
    /// levels, each as four hexadecimal digits in upper case, separated by
    /// full stops.
    pub open spec fn formatted_view(self) -> Seq<char> {
        seq!['[', if self.is_variable { '*' } else { '.' }] + radix::hex4(self.l1) + seq!['.']
            + radix::hex4(self.l2) + seq!['.'] + radix::hex4(self.l3) + seq![']']
    }

    /// The element as the table's source writes it.
    pub fn formatted(&self) -> (r: String)
        ensures
            r@ == self.formatted_view(),
    {
        let mut out = String::new();
        out.push('[');
        out.push(if self.is_variable { '*' } else { '.' });
        radix::push_hex4(&mut out, self.l1);
        out.push('.');
        radix::push_hex4(&mut out, self.l2);
        out.push('.');
        radix::push_hex4(&mut out, self.l3);
        out.push(']');
        assert(out@ =~= self.formatted_view());
        out
    }
}

/// What a [`WeightsEntry`] holds.
pub struct WeightsEntryView {
    pub codes: Seq<u32>,
    pub weights: Seq<Weights>,
    pub description: Seq<char>,
}

impl View for WeightsEntry {
    type V = WeightsEntryView;

    open spec fn view(&self) -> WeightsEntryView {
        WeightsEntryView {
            codes: self.codes@,
            weights: self.weights@,
            description: self.description@,
        }
    }
}

/// What a table of entries holds, entry by entry.
pub open spec fn entries_view(table: Seq<WeightsEntry>) -> Seq<WeightsEntryView> {
    table.map_values(|e: WeightsEntry| e@)
}

/// The lines that hold no entry: empty lines, comments, and the two
/// directives. The ranges with implicit weights are computed, not read.
pub open spec fn is_skipped(line: Seq<char>) -> bool {
    ||| line.len() == 0
    ||| "#"@.is_prefix_of(line)
    ||| "@version"@.is_prefix_of(line)
    ||| "@implicitweights"@.is_prefix_of(line)
}

/// The class of the lines that hold an entry.
pub open spec fn holds_entry() -> spec_fn(Seq<char>) -> bool {
    |line: Seq<char>| !is_skipped(line)
}

/// The collation element that a group denotes. A group is what stands
/// between two brackets: an asterisk for a variable element or a full stop
/// for any other, then three levels in hexadecimal digits, separated by full
/// stops.
pub open spec fn group_of(group: Seq<char>) -> Result<Weights, TableError> {
    if group.len() == 0 {
        Err(TableError::EmptyGroup)
    } else {
        let levels = model::split(model::trim_matches(group, ".*"@), "."@);
        if levels.len() != 3 {
            Err(TableError::BadLevelCount)
        } else {
            match (
                radix::hex_u16(levels[0]),
                radix::hex_u16(levels[1]),
                radix::hex_u16(levels[2]),
            ) {
                (Some(l1), Some(l2), Some(l3)) => Ok(
                    Weights { l1, l2, l3, is_variable: group[0] == '*' },
                ),
                _ => Err(TableError::BadNumber),
            }
        }
    }
}

/// `group_of`, as a value.
pub open spec fn group_parser() -> spec_fn(Seq<char>) -> Result<Weights, TableError> {
    |group: Seq<char>| group_of(group)
}

/// The collation elements that the weights field of a line denotes: one or
/// more bracketed groups.
pub open spec fn weights_of(field: Seq<char>) -> Result<Seq<Weights>, TableError> {
    try_map(model::split(model::trim_matches(field, " []"@), "]["@), group_parser())
}

/// The key that the first field of a line denotes: one to three code points
/// in hexadecimal, with one space between them.
pub open spec fn codes_of(field: Seq<char>) -> Result<Seq<u32>, TableError> {
    match radix::all_hex_u32(model::split(model::trim(field), " "@)) {
        None => Err(TableError::BadNumber),
        Some(codes) => if 1 <= codes.len() <= 3 {
            Ok(codes)
        } else {
            Err(TableError::BadCodesLength)
        },
    }
}

/// The entry that a line denotes: the key, ` ; `, the weights, ` # `, and a
/// description.
pub open spec fn entry_of(line: Seq<char>) -> Result<WeightsEntryView, TableError> {
    match model::split_once(line, " # "@) {
        None => Err(TableError::MissingSeparator),
        Some((values, description)) => match model::split_once(values, " ; "@) {
            None => Err(TableError::MissingSeparator),
            Some((codes, weights)) => match codes_of(codes) {
                Err(e) => Err(e),
                Ok(codes) => match weights_of(weights) {
                    Err(e) => Err(e),
                    Ok(weights) => Ok(WeightsEntryView { codes, weights, description }),
                },
            },
        },
    }
}

/// `entry_of`, as a value.
pub open spec fn entry_parser() -> spec_fn(Seq<char>) -> Result<WeightsEntryView, TableError> {
    |line: Seq<char>| entry_of(line)
}

/// The class of the entries whose key has `n` code points.
pub open spec fn has_length(n: nat) -> spec_fn(WeightsEntryView) -> bool {
    |e: WeightsEntryView| e.codes.len() == n
}

/// The entries ordered by the length of their keys, those of equal length
/// in the order in which they stood.
pub open spec fn by_length(entries: Seq<WeightsEntryView>) -> Seq<WeightsEntryView> {
    entries.filter(has_length(1)) + entries.filter(has_length(2)) + entries.filter(has_length(3))
}

/// Whether the table is ordered by the length of its keys, and each key
/// has one to three code points.
pub open spec fn ordered_by_length(table: Seq<WeightsEntryView>) -> bool {
    &&& forall|i: int| 0 <= i < table.len() ==> 1 <= (#[trigger] table[i]).codes.len() <= 3
    &&& forall|i: int, j: int|
        0 <= i <= j < table.len() ==> (#[trigger] table[i]).codes.len() <= (
        #[trigger] table[j]).codes.len()
}

/// The entries that the lines of a source text denote, in the order of the
/// lines.
pub open spec fn entries_of(source: Seq<char>) -> Result<Seq<WeightsEntryView>, TableError> {
    try_map(model::lines(source).filter(holds_entry()), entry_parser())
}

/// The table that a source text denotes: its entries, ordered by the length
/// of their keys.
pub open spec fn table_of(source: Seq<char>) -> Result<Seq<WeightsEntryView>, TableError> {
    match entries_of(source) {
        Err(e) => Err(e),
        Ok(entries) => Ok(by_length(entries)),
    }
}

/// Whether a line holds no entry.
pub(crate) fn skipped(line: &[char]) -> (r: bool)
    ensures
        r == is_skipped(line@),
{
    let comment = text::to_chars("#");
    let version = text::to_chars("@version");
    let implicit = text::to_chars("@implicitweights");
    line.len() == 0 || text::starts_with(line, comment.as_slice()) || text::starts_with(
        line,
        version.as_slice(),
    ) || text::starts_with(line, implicit.as_slice())
}

/// Parses what stands between two brackets of the weights field.
fn parse_group(group: &[char]) -> (r: Result<Weights, TableError>)
    ensures
        r == group_of(group@),
{
    if group.len() == 0 {
        return Err(TableError::EmptyGroup);
    }
    let is_variable = group[0] == '*';
    let marks = text::to_chars(".*");
    let stop = text::to_chars(".");
    let levels = text::split(text::trim_matches(group, marks.as_slice()), stop.as_slice());
    if levels.len() != 3 {
        return Err(TableError::BadLevelCount);
    }
    let l1 = radix::parse_hex_u16(levels[0]);
    let l2 = radix::parse_hex_u16(levels[1]);
    let l3 = radix::parse_hex_u16(levels[2]);
    match (l1, l2, l3) {
        (Some(l1), Some(l2), Some(l3)) => Ok(Weights { l1, l2, l3, is_variable }),
        _ => Err(TableError::BadNumber),
    }
}

/// Parses the weights field of a line.
fn parse_weights(field: &[char]) -> (r: Result<Vec<Weights>, TableError>)
    ensures
        match r {
            Ok(v) => weights_of(field@) == Ok::<Seq<Weights>, TableError>(v@),
            Err(e) => weights_of(field@) == Err::<Seq<Weights>, TableError>(e),
        },
{
    let brackets = text::to_chars(" []");
    let between = text::to_chars("][");
    let groups = text::split(text::trim_matches(field, brackets.as_slice()), between.as_slice());
    let ghost items = views(groups@);
    let mut out: Vec<Weights> = Vec::new();
    let mut i: usize = 0;
    assert(items.take(0) =~= Seq::empty());
    while i < groups.len()
        invariant
            i <= groups.len(),
            items == views(groups@),
            weights_of(field@) == try_map(items, group_parser()),
            try_map(items.take(i as int), group_parser()) == Ok::<Seq<Weights>, TableError>(out@),
        decreases groups.len() - i,
    {
        proof {
            lemma_try_map_step(items, i as int, group_parser());
        }
        match parse_group(groups[i]) {
            Ok(w) => {
                out.push(w);
            },
            Err(e) => {
                proof {
                    lemma_try_map_error(items.take(i + 1), items.skip(i + 1), group_parser());
                    assert(items.take(i + 1) + items.skip(i + 1) =~= items);
                }
                return Err(e);
            },
        }
        i += 1;
    }
    assert(items.take(i as int) =~= items);
    Ok(out)
}

/// Parses the first field of a line.
fn parse_codes(field: &[char]) -> (r: Result<Vec<u32>, TableError>)
    ensures
        match r {
            Ok(v) => codes_of(field@) == Ok::<Seq<u32>, TableError>(v@),
            Err(e) => codes_of(field@) == Err::<Seq<u32>, TableError>(e),
        },
{
    let space = text::to_chars(" ");
    let pieces = text::split(text::trim(field), space.as_slice());
    proof {
        model::lemma_split_nonempty(model::trim(field@), " "@);
    }
    match radix::parse_all_hex_u32(&pieces) {
        None => Err(TableError::BadNumber),
        Some(codes) => if codes.len() <= 3 {
            Ok(codes)
        } else {
            Err(TableError::BadCodesLength)
        },
    }
}

/// Parses one line that holds an entry.
pub(crate) fn parse_entry(line: &[char]) -> (r: Result<WeightsEntry, TableError>)
    ensures
        match r {
            Ok(entry) => entry_of(line@) == Ok::<WeightsEntryView, TableError>(entry@),
            Err(e) => entry_of(line@) == Err::<WeightsEntryView, TableError>(e),
        },
{
    let hash = text::to_chars(" # ");
    let semicolon = text::to_chars(" ; ");
    let (values, description) = match text::split_once(line, hash.as_slice()) {
        Some(parts) => parts,
        None => {
            return Err(TableError::MissingSeparator);
        },
    };
    let (codes, weights) = match text::split_once(values, semicolon.as_slice()) {
        Some(parts) => parts,
        None => {
            return Err(TableError::MissingSeparator);
        },
    };
    let codes = match parse_codes(codes) {
        Ok(codes) => codes,
        Err(e) => {
            return Err(e);
        },
    };
    let weights = match parse_weights(weights) {
        Ok(weights) => weights,
        Err(e) => {
            return Err(e);
        },
    };
    Ok(WeightsEntry { codes, weights, description: text::from_chars(description) })
}

/// The entry that is computed for a code point with implicit weights.
pub open spec fn implicit_entry(code: u32) -> WeightsEntryView {
    WeightsEntryView {
        codes: seq![code],
        weights: implicit_weights_of(code),
        description: Seq::empty(),
    }
}

/// Whether the entries hold one whose key is the code point alone.
pub open spec fn lists(entries: Seq<WeightsEntryView>, code: u32) -> bool {
    exists|i: int| 0 <= i < entries.len() && (#[trigger] entries[i]).codes == seq![code]
}

/// The entries that are computed for the given code points: one for each
/// that belongs to a family with implicit weights and that the entries of
/// the source do not list, in the order given.
pub open spec fn implicit_entries_of(assigned: Seq<u32>, entries: Seq<WeightsEntryView>) -> Seq<
    WeightsEntryView,
>
    decreases assigned.len(),
{
    if assigned.len() == 0 {
        Seq::empty()
    } else if family_of(assigned.last()) != ImplicitFamily::Unassigned && !lists(
        entries,
        assigned.last(),
    ) {
        implicit_entries_of(assigned.drop_last(), entries).push(implicit_entry(assigned.last()))
    } else {
        implicit_entries_of(assigned.drop_last(), entries)
    }
}

/// What one more entry adds to the code points that are listed.
proof fn lemma_lists_push(entries: Seq<WeightsEntryView>, entry: WeightsEntryView, code: u32)
    ensures
        lists(entries.push(entry), code) <==> lists(entries, code) || entry.codes == seq![code],
{
    let more = entries.push(entry);
    if lists(more, code) {
        let i = choose|i: int| 0 <= i < more.len() && (#[trigger] more[i]).codes == seq![code];
        if i < entries.len() {
            assert(entries[i].codes == seq![code]);
        }
    }
    if lists(entries, code) {
        let i = choose|i: int|
            0 <= i < entries.len() && (#[trigger] entries[i]).codes == seq![code];
        assert(more[i].codes == seq![code]);
    }
    if entry.codes == seq![code] {
        assert(more[entries.len() as int].codes == seq![code]);
    }
}

/// The table that a source text denotes together with the code points that
/// are assigned: the entries of the text, then the computed entries of the
/// assigned code points with implicit weights that the text does not list,
/// all ordered by the length of their keys.
pub open spec fn extended_table_of(source: Seq<char>, assigned: Seq<u32>) -> Result<
    Seq<WeightsEntryView>,
    TableError,
> {
    match entries_of(source) {
        Err(e) => Err(e),
        Ok(entries) => Ok(by_length(entries + implicit_entries_of(assigned, entries))),
    }
}

/// The computed entries have keys of one code point.
proof fn lemma_implicit_lengths(assigned: Seq<u32>, entries: Seq<WeightsEntryView>)
    ensures
        implicit_entries_of(assigned, entries).filter(has_length(1)) == implicit_entries_of(
            assigned,
            entries,
        ),
        implicit_entries_of(assigned, entries).filter(has_length(2)) == Seq::<
            WeightsEntryView,
        >::empty(),
        implicit_entries_of(assigned, entries).filter(has_length(3)) == Seq::<
            WeightsEntryView,
        >::empty(),
    decreases assigned.len(),
{
    reveal(Seq::filter);
    if assigned.len() > 0 {
        lemma_implicit_lengths(assigned.drop_last(), entries);
        if family_of(assigned.last()) != ImplicitFamily::Unassigned && !lists(
            entries,
            assigned.last(),
        ) {
            let rest = implicit_entries_of(assigned.drop_last(), entries);
            let entry = implicit_entry(assigned.last());
            lemma_filter_push(rest, entry, has_length(1));
            lemma_filter_push(rest, entry, has_length(2));
            lemma_filter_push(rest, entry, has_length(3));
        }
    }
}

/// Builds the table from its source and the assigned code points.
fn build_table(source: &str, assigned: &[u32]) -> (r: Result<Vec<WeightsEntry>, TableError>)
    ensures
        match r {
            Ok(table) => extended_table_of(source@, assigned@) == Ok::<
                Seq<WeightsEntryView>,
                TableError,
            >(entries_view(table@)),
            Err(e) => extended_table_of(source@, assigned@) == Err::<
                Seq<WeightsEntryView>,
                TableError,
            >(e),
        },
        r matches Ok(table) ==> forall|i: int|
            0 <= i < table@.len() ==> 1 <= (#[trigger] table@[i]).codes@.len() <= 3,
        r matches Ok(table) ==> ordered_by_length(entries_view(table@)),
{
    let chars = text::to_chars(source);
    let lines = text::lines(chars.as_slice());
    let ghost all = views(lines@);
    let ghost mut parsed: Seq<WeightsEntryView> = Seq::empty();
    let mut one: Vec<WeightsEntry> = Vec::new();
    let mut two: Vec<WeightsEntry> = Vec::new();
    let mut three: Vec<WeightsEntry> = Vec::new();
    let mut listed: HashSet<u32> = HashSet::new();
    let mut i: usize = 0;
    proof {
        assert(all.take(0) =~= Seq::empty());
        reveal(Seq::filter);
        assert(entries_view(one@) =~= parsed.filter(has_length(1)));
        assert(entries_view(two@) =~= parsed.filter(has_length(2)));
        assert(entries_view(three@) =~= parsed.filter(has_length(3)));
    }
    while i < lines.len()
        invariant
            i <= lines.len(),
            all == views(lines@),
            all == model::lines(source@),
            try_map(all.take(i as int).filter(holds_entry()), entry_parser()) == Ok::<
                Seq<WeightsEntryView>,
                TableError,
            >(parsed),
            entries_view(one@) == parsed.filter(has_length(1)),
            entries_view(two@) == parsed.filter(has_length(2)),
            entries_view(three@) == parsed.filter(has_length(3)),
            forall|code: u32| listed@.contains(code) <==> lists(parsed, code),
        decreases lines.len() - i,
    {
        let line = lines[i];
        proof {
            assert(all.take(i + 1) =~= all.take(i as int).push(all[i as int]));
            lemma_filter_push(all.take(i as int), all[i as int], holds_entry());
        }
        if !skipped(line) {
            proof {
                lemma_try_map_push(
                    all.take(i as int).filter(holds_entry()),
                    all[i as int],
                    entry_parser(),
                );
            }
            match parse_entry(line) {
                Err(e) => {
                    proof {
                        assert(all.take(i + 1) + all.skip(i + 1) =~= all);
                        Seq::filter_distributes_over_add(
                            all.take(i + 1),
                            all.skip(i + 1),
                            holds_entry(),
                        );
                        lemma_try_map_error(
                            all.take(i + 1).filter(holds_entry()),
                            all.skip(i + 1).filter(holds_entry()),
                            entry_parser(),
                        );
                    }
                    return Err(e);
                },
                Ok(entry) => {
                    let n = entry.codes.len();
                    if n == 1 {
                        listed.insert(entry.codes[0]);
                    }
                    proof {
                        lemma_filter_push(parsed, entry@, has_length(1));
                        lemma_filter_push(parsed, entry@, has_length(2));
                        lemma_filter_push(parsed, entry@, has_length(3));
                        assert forall|code: u32| listed@.contains(code) <==> lists(
                            parsed.push(entry@),
                            code,
                        ) by {
                            lemma_lists_push(parsed, entry@, code);
                            if entry@.codes == seq![code] {
                                assert(seq![code].len() == 1);
                                assert(seq![code][0] == code);
                            }
                            if n == 1 && code == entry.codes@[0] {
                                assert(entry@.codes =~= seq![code]);
                            }
                        }
                        parsed = parsed.push(entry@);
                    }
                    let ghost before_one = one@;
                    let ghost before_two = two@;
                    let ghost before_three = three@;
                    if n == 1 {
                        one.push(entry);
                        assert(entries_view(one@) =~= entries_view(before_one).push(entry@));
                    } else if n == 2 {
                        two.push(entry);
                        assert(entries_view(two@) =~= entries_view(before_two).push(entry@));
                    } else {
                        three.push(entry);
                        assert(entries_view(three@) =~= entries_view(before_three).push(entry@));
                    }
                },
            }
        }
        i += 1;
    }
    assert(all.take(i as int) =~= all);
    let mut k: usize = 0;
    proof {
        assert(assigned@.take(0) =~= Seq::empty());
        assert(entries_view(one@) =~= parsed.filter(has_length(1)) + implicit_entries_of(
            assigned@.take(0),
            parsed,
        ));
    }
    while k < assigned.len()
        invariant
            k <= assigned.len(),
            forall|code: u32| listed@.contains(code) <==> lists(parsed, code),
            entries_view(one@) == parsed.filter(has_length(1)) + implicit_entries_of(
                assigned@.take(k as int),
                parsed,
            ),
        decreases assigned.len() - k,
    {
        let code = assigned[k];
        proof {
            assert(assigned@.take(k + 1).drop_last() =~= assigned@.take(k as int));
            assert(assigned@.take(k + 1).last() == code);
        }
        let ghost before = one@;
        let compute = match family(code) {
            ImplicitFamily::Unassigned => false,
            _ => !listed.contains(&code),
        };
        if compute {
            let mut codes: Vec<u32> = Vec::new();
            codes.push(code);
            let entry = WeightsEntry {
                codes,
                weights: implicit_weights(code),
                description: String::new(),
            };
            assert(entry@.codes =~= seq![code]);
            assert(entry@ == implicit_entry(code));
            one.push(entry);
            assert(entries_view(one@) =~= entries_view(before).push(entry@));
            assert(entries_view(one@) =~= parsed.filter(has_length(1)) + implicit_entries_of(
                assigned@.take(k + 1),
                parsed,
            ));
        }
        k += 1;
    }
    let ghost computed = implicit_entries_of(assigned@, parsed);
    proof {
        assert(assigned@.take(k as int) =~= assigned@);
        lemma_implicit_lengths(assigned@, parsed);
        Seq::filter_distributes_over_add(parsed, computed, has_length(1));
        Seq::filter_distributes_over_add(parsed, computed, has_length(2));
        Seq::filter_distributes_over_add(parsed, computed, has_length(3));
        assert(parsed.filter(has_length(2)) + Seq::<WeightsEntryView>::empty() =~= parsed.filter(
            has_length(2),
        ));
        assert(parsed.filter(has_length(3)) + Seq::<WeightsEntryView>::empty() =~= parsed.filter(
            has_length(3),
        ));
        lemma_by_length(parsed + computed);
    }
    let ghost first = one@;
    let ghost second = two@;
    let ghost third = three@;
    one.append(&mut two);
    one.append(&mut three);
    proof {
        assert(entries_view(one@) =~= entries_view(first) + entries_view(second) + entries_view(
            third,
        ));
        assert(entries_view(one@) == by_length(parsed + computed));
        assert forall|i: int| 0 <= i < one@.len() implies 1 <= (#[trigger] one@[i]).codes@.len()
            <= 3 by {
            assert(entries_view(one@)[i] == one@[i]@);
        }
    }
    Ok(one)
}

/// Builds the table from the text of its source: every line that holds an
/// entry is parsed, and the entries are ordered by the length of their keys.
/// The first line that breaks the grammar fails the build.
pub fn allkeys(source: &str) -> (r: Result<Vec<WeightsEntry>, TableError>)
    ensures
        match r {
            Ok(table) => table_of(source@) == Ok::<Seq<WeightsEntryView>, TableError>(
                entries_view(table@),
            ),
            Err(e) => table_of(source@) == Err::<Seq<WeightsEntryView>, TableError>(e),
        },
        r matches Ok(table) ==> forall|i: int|
            0 <= i < table@.len() ==> 1 <= (#[trigger] table@[i]).codes@.len() <= 3,
        r matches Ok(table) ==> ordered_by_length(entries_view(table@)),
{
    let none: Vec<u32> = Vec::new();
    proof {
        if let Ok(entries) = entries_of(source@) {
            assert(entries + implicit_entries_of(none@, entries) =~= entries);
        }
    }
    build_table(source, none.as_slice())
}

/// Builds the table from the text of its source and extends it by the
/// computed entries: each of the given code points that belongs to a
/// family with implicit weights, and that the source does not list, gets
/// an entry with its two computed elements. The code points given are
/// those that the character database assigns, so that no entry stands for
/// a code point without a character.
pub fn allkeys_with_implicit(source: &str, assigned: &[u32]) -> (r: Result<
    Vec<WeightsEntry>,
    TableError,
>)
    ensures
        match r {
            Ok(table) => extended_table_of(source@, assigned@) == Ok::<
                Seq<WeightsEntryView>,
                TableError,
            >(entries_view(table@)),
            Err(e) => extended_table_of(source@, assigned@) == Err::<
                Seq<WeightsEntryView>,
                TableError,
            >(e),
        },
        r matches Ok(table) ==> forall|i: int|
            0 <= i < table@.len() ==> 1 <= (#[trigger] table@[i]).codes@.len() <= 3,
        r matches Ok(table) ==> ordered_by_length(entries_view(table@)),
{
    build_table(source, assigned)
}

/// A table that `by_length` has ordered is ordered by the length of its
/// keys, and each key has one to three code points.
pub proof fn lemma_by_length(entries: Seq<WeightsEntryView>)
    ensures
        ordered_by_length(by_length(entries)),
{
    let one = entries.filter(has_length(1));
    let two = entries.filter(has_length(2));
    let three = entries.filter(has_length(3));
    broadcast use vstd::seq_lib::group_filter_ensures;

    let all = by_length(entries);
    assert forall|i: int| 0 <= i < all.len() implies (#[trigger] all[i]).codes.len() == (if i
        < one.len() {
        1nat
    } else if i < one.len() + two.len() {
        2nat
    } else {
        3nat
    }) by {
        if i < one.len() {
            assert(all[i] == one[i]);
            assert(has_length(1)(one[i]));
        } else if i < one.len() + two.len() {
            assert(all[i] == two[i - one.len()]);
            assert(has_length(2)(two[i - one.len()]));
        } else {
            assert(all[i] == three[i - one.len() - two.len()]);
            assert(has_length(3)(three[i - one.len() - two.len()]));
        }
    }
}

/// A collation element that is written out and read again is the element
/// that was written: the weights field that consists of `formatted` denotes
/// that one element, with its three levels and its variable flag.
pub proof fn lemma_formatted_round_trip(w: Weights)
    ensures
        weights_of(w.formatted_view()) == Ok::<Seq<Weights>, TableError>(seq![w]),
{
    let mark = if w.is_variable {
        '*'
    } else {
        '.'
    };
    let levels = radix::hex4(w.l1) + seq!['.'] + radix::hex4(w.l2) + seq!['.'] + radix::hex4(w.l3);
    let group = seq![mark] + levels;
    radix::lemma_hex4(w.l1);
    radix::lemma_hex4(w.l2);
    radix::lemma_hex4(w.l3);
    assert(w.formatted_view() =~= seq!['['] + group + seq![']']);
    assert(group.first() == mark);
    assert(group.last() == radix::hex4(w.l3)[3]);
    assert(levels.first() == radix::hex4(w.l1)[0]);
    assert(levels.last() == radix::hex4(w.l3)[3]);
    assert(" []"@.contains('[') && " []"@.contains(']') && !" []"@.contains(group.first())
        && !" []"@.contains(group.last())) by {
        reveal_strlit(" []");
        assert(" []"@[1] == '[');
        assert(" []"@[2] == ']');
    }
    model::lemma_trim_where_is(seq!['['], group, seq![']'], model::any_of(" []"@));
    assert(".*"@.contains(mark) && !".*"@.contains(levels.first()) && !".*"@.contains(
        levels.last(),
    )) by {
        reveal_strlit(".*");
        assert(".*"@[0] == '.');
        assert(".*"@[1] == '*');
    }
    assert(seq![mark] + levels + Seq::<char>::empty() =~= group);
    model::lemma_trim_where_is(seq![mark], levels, Seq::empty(), model::any_of(".*"@));
    lemma_one_group(w, group);
    lemma_split_levels(radix::hex4(w.l1), radix::hex4(w.l2), radix::hex4(w.l3));
    assert(group_of(group) == Ok::<Weights, TableError>(w));
    lemma_try_map_push(Seq::empty(), group, group_parser());
    assert(Seq::<Seq<char>>::empty().push(group) =~= seq![group]);
    assert(Seq::<Weights>::empty().push(w) =~= seq![w]);
}

/// The text of one collation element holds no boundary between two.
proof fn lemma_one_group(w: Weights, group: Seq<char>)
    requires
        group == seq![if w.is_variable { '*' } else { '.' }] + (radix::hex4(w.l1) + seq!['.']
            + radix::hex4(w.l2) + seq!['.'] + radix::hex4(w.l3)),
    ensures
        model::split(group, "]["@) == seq![group],
{
    reveal_strlit("][");
    radix::lemma_hex4(w.l1);
    radix::lemma_hex4(w.l2);
    radix::lemma_hex4(w.l3);
    let h1 = radix::hex4(w.l1);
    let h2 = radix::hex4(w.l2);
    let h3 = radix::hex4(w.l3);
    assert forall|j: int| 0 <= j < group.len() implies group[j] != ']' by {
        if 1 <= j < 5 {
            assert(group[j] == h1[j - 1]);
        } else if 6 <= j < 10 {
            assert(group[j] == h2[j - 6]);
        } else if 11 <= j {
            assert(group[j] == h3[j - 11]);
        }
    }
    assert forall|j: int| 0 <= j implies !model::occurs_at(group, "]["@, j) by {
        if model::occurs_at(group, "]["@, j) {
            assert(group.subrange(j, j + 2)[0] == ']');
        }
    }
    model::lemma_find_none(group, "]["@);
}

/// Three runs of digits with a full stop between them split into the three
/// runs.
proof fn lemma_split_levels(h1: Seq<char>, h2: Seq<char>, h3: Seq<char>)
    requires
        forall|i: int| 0 <= i < h1.len() ==> h1[i] != '.',
        forall|i: int| 0 <= i < h2.len() ==> h2[i] != '.',
        forall|i: int| 0 <= i < h3.len() ==> h3[i] != '.',
    ensures
        model::split(h1 + seq!['.'] + h2 + seq!['.'] + h3, "."@) == seq![h1, h2, h3],
{
    reveal_strlit(".");
    let stop = "."@;
    assert(stop =~= seq!['.']);
    let s = h1 + seq!['.'] + h2 + seq!['.'] + h3;
    let t = h2 + seq!['.'] + h3;
    lemma_first_stop(h1, t);
    assert(s =~= h1 + seq!['.'] + t);
    assert(s.take(h1.len() as int) =~= h1);
    assert(s.skip(h1.len() as int + 1) =~= t);
    lemma_first_stop(h2, h3);
    assert(t.take(h2.len() as int) =~= h2);
    assert(t.skip(h2.len() as int + 1) =~= h3);
    assert forall|j: int| 0 <= j implies !model::occurs_at(h3, stop, j) by {
        if model::occurs_at(h3, stop, j) {
            assert(h3.subrange(j, j + 1)[0] == '.');
            assert(h3[j] == '.');
        }
    }
    model::lemma_find_none(h3, stop);
    assert(model::split(h3, stop) =~= seq![h3]);
    assert(model::split(t, stop) =~= seq![h2] + seq![h3]);
    assert(model::split(s, stop) =~= seq![h1] + (seq![h2] + seq![h3]));
}

/// The first full stop of a text that is a run without one, a full stop
/// and more, is the one after the run.
proof fn lemma_first_stop(head: Seq<char>, tail: Seq<char>)
    requires
        forall|i: int| 0 <= i < head.len() ==> head[i] != '.',
    ensures
        model::find(head + seq!['.'] + tail, seq!['.']) == Some(head.len() as int),
{
    let s = head + seq!['.'] + tail;
    let i = head.len() as int;
    assert(s.subrange(i, i + 1) =~= seq!['.']);
    assert forall|j: int| 0 <= j < i implies !model::occurs_at(s, seq!['.'], j) by {
        if model::occurs_at(s, seq!['.'], j) {
            assert(s.subrange(j, j + 1)[0] == '.');
            assert(s[j] == head[j]);
        }
    }
    model::lemma_find_is(s, seq!['.'], i);
}

} // verus!
