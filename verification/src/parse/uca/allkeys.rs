//! The default collation element table, entry by entry in the order of its
//! source and without the weights that are computed.

use crate::parse::uca_cldr::allkeys::{
    entries_of, entry_parser, holds_entry, parse_entry, skipped, WeightsEntry, WeightsEntryView,
};
use crate::parse::{lemma_filter_push, lemma_try_map_error, lemma_try_map_push, try_map, TableError};
use crate::text;
use crate::text::model;
use crate::text::model::views;
use vstd::prelude::*;

pub use crate::parse::uca_cldr::allkeys::Weights;

verus! {

/// One line of the default table: a key of one to three code points, and
/// the collation elements that the key maps to.
pub struct DucetEntry {
    pub codes: Vec<u32>,
    pub weights: Vec<Weights>,
    pub description: String,
}

impl View for DucetEntry {
    type V = WeightsEntryView;

    open spec fn view(&self) -> WeightsEntryView {
        WeightsEntryView {
            codes: self.codes@,
            weights: self.weights@,
            description: self.description@,
        }
    }
}

/// What a table of entries holds, entry by entry.
pub open spec fn entries_view(table: Seq<DucetEntry>) -> Seq<WeightsEntryView> {
    table.map_values(|e: DucetEntry| e@)
}

/// Builds the table from the text of its source: every line that holds an
/// entry is parsed, and the entries stay in the order of their lines. The
/// first line that breaks the grammar fails the build.
pub fn allkeys(source: &str) -> (r: Result<Vec<DucetEntry>, TableError>)
    ensures
        match r {
            Ok(table) => entries_of(source@) == Ok::<Seq<WeightsEntryView>, TableError>(
                entries_view(table@),
            ),
            Err(e) => entries_of(source@) == Err::<Seq<WeightsEntryView>, TableError>(e),
        },
{
    let chars = text::to_chars(source);
    let lines = text::lines(chars.as_slice());
    let ghost all = views(lines@);
    let mut table: Vec<DucetEntry> = Vec::new();
    let mut i: usize = 0;
    proof {
        assert(all.take(0) =~= Seq::empty());
        reveal(Seq::filter);
        assert(entries_view(table@) =~= Seq::empty());
    }
    while i < lines.len()
        invariant
            i <= lines.len(),
            all == views(lines@),
            all == model::lines(source@),
            try_map(all.take(i as int).filter(holds_entry()), entry_parser()) == Ok::<
                Seq<WeightsEntryView>,
                TableError,
            >(entries_view(table@)),
        decreases lines.len() - i,
    {
        let line = lines[i];
        proof {
            assert(all.take(i + 1) =~= all.take(i as int).push(all[i as int]));
            lemma_filter_push(all.take(i as int), all[i as int], holds_entry());
        }
        if !skipped(line) {
            proof {
                lemma_try_map_push(
                    all.take(i as int).filter(holds_entry()),
                    all[i as int],
                    entry_parser(),
                );
            }
            let ghost before = table@;
            match parse_entry(line) {
                Ok(entry) => {
                    let WeightsEntry { codes, weights, description } = entry;
                    let entry = DucetEntry { codes, weights, description };
                    table.push(entry);
                    assert(entries_view(table@) =~= entries_view(before).push(entry@));
                },
                Err(e) => {
                    proof {
                        assert(all.take(i + 1) + all.skip(i + 1) =~= all);
                        Seq::filter_distributes_over_add(
                            all.take(i + 1),
                            all.skip(i + 1),
                            holds_entry(),
                        );
                        lemma_try_map_error(
                            all.take(i + 1).filter(holds_entry()),
                            all.skip(i + 1).filter(holds_entry()),
                            entry_parser(),
                        );
                    }
                    return Err(e);
                },
            }
        }
        i += 1;
    }
    assert(all.take(i as int) =~= all);
    Ok(table)
}

} // verus!
