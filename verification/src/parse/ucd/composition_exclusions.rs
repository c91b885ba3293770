//! The composition exclusions: the code points that canonical composition
//! never produces, although they have a canonical decomposition.

use crate::parse::{lemma_filter_push, lemma_try_map_error, lemma_try_map_push, try_map, TableError};
use crate::text;
use crate::text::model;
use crate::text::model::views;
use crate::text::radix;
use std::collections::HashSet;
use vstd::prelude::*;

verus! {

/// The lines that hold an exclusion: all but empty lines and comments.
pub open spec fn holds_exclusion() -> spec_fn(Seq<char>) -> bool {
    |line: Seq<char>| line.len() > 0 && !"#"@.is_prefix_of(line)
}

/// What stands on a line before its comment.
pub open spec fn before_comment(line: Seq<char>) -> Seq<char> {
    match model::split_once(line, "#"@) {
        Some((head, comment)) => head,
        None => line,
    }
}

/// The code point that a line excludes: a hexadecimal number, with a
/// comment after it or none.
pub open spec fn exclusion_of(line: Seq<char>) -> Result<u32, TableError> {
    match radix::hex_u32(model::trim(before_comment(line))) {
        Some(code) => Ok(code),
        None => Err(TableError::BadNumber),
    }
}

/// `exclusion_of`, as a value.
pub open spec fn exclusion_parser() -> spec_fn(Seq<char>) -> Result<u32, TableError> {
    |line: Seq<char>| exclusion_of(line)
}

/// The code points that a source text excludes, in the order of its lines.
pub open spec fn exclusions_of(source: Seq<char>) -> Result<Seq<u32>, TableError> {
    try_map(model::lines(source).filter(holds_exclusion()), exclusion_parser())
}

/// The set of the composition exclusions.
pub struct CompositionExclusions {
    codes: HashSet<u32>,
}

impl View for CompositionExclusions {
    type V = Set<u32>;

    closed spec fn view(&self) -> Set<u32> {
        self.codes@
    }
}

/// What stands on a line before its comment.
pub fn strip_comment(line: &[char]) -> (r: &[char])
    ensures
        r@ == before_comment(line@),
{
    let hash = text::to_chars("#");
    match text::split_once(line, hash.as_slice()) {
        Some((head, _)) => head,
        None => line,
    }
}

/// Builds the set of the composition exclusions from the text of its
/// source.
pub fn composition_exclusions(source: &str) -> (r: Result<CompositionExclusions, TableError>)
    ensures
        match r {
            Ok(table) => exclusions_of(source@) matches Ok(codes) && table@ == codes.to_set(),
            Err(e) => exclusions_of(source@) == Err::<Seq<u32>, TableError>(e),
        },
{
    let chars = text::to_chars(source);
    let lines = text::lines(chars.as_slice());
    let comment = text::to_chars("#");
    let ghost all = views(lines@);
    let ghost mut parsed: Seq<u32> = Seq::empty();
    let mut codes: HashSet<u32> = HashSet::new();
    let mut i: usize = 0;
    proof {
        assert(all.take(0) =~= Seq::empty());
        reveal(Seq::filter);
        assert(codes@ =~= parsed.to_set());
    }
    while i < lines.len()
        invariant
            i <= lines.len(),
            comment@ == "#"@,
            all == views(lines@),
            all == model::lines(source@),
            try_map(all.take(i as int).filter(holds_exclusion()), exclusion_parser()) == Ok::<
                Seq<u32>,
                TableError,
            >(parsed),
            codes@ == parsed.to_set(),
        decreases lines.len() - i,
    {
        let line = lines[i];
        proof {
            assert(all.take(i + 1) =~= all.take(i as int).push(all[i as int]));
            lemma_filter_push(all.take(i as int), all[i as int], holds_exclusion());
        }
        if line.len() > 0 && !text::starts_with(line, comment.as_slice()) {
            proof {
                lemma_try_map_push(
                    all.take(i as int).filter(holds_exclusion()),
                    all[i as int],
                    exclusion_parser(),
                );
            }
            match radix::parse_hex_u32(text::trim(strip_comment(line))) {
                Some(code) => {
                    codes.insert(code);
                    proof {
                        assert(parsed.push(code).to_set() =~= parsed.to_set().insert(code)) by {
                            assert forall|c: u32|
                                parsed.push(code).to_set().contains(c) <==> parsed.to_set().insert(
                                    code,
                                ).contains(c) by {
                                if parsed.push(code).contains(c) {
                                    let at = choose|at: int|
                                        0 <= at < parsed.push(code).len() && parsed.push(code)[at]
                                            == c;
                                    if at < parsed.len() {
                                        assert(parsed[at] == c);
                                    }
                                }
                                if parsed.contains(c) {
                                    let at = choose|at: int|
                                        0 <= at < parsed.len() && parsed[at] == c;
                                    assert(parsed.push(code)[at] == c);
                                }
                                if c == code {
                                    assert(parsed.push(code)[parsed.len() as int] == c);
                                }
                            }
                        }
                        parsed = parsed.push(code);
                    }
                },
                None => {
                    proof {
                        assert(all.take(i + 1) + all.skip(i + 1) =~= all);
                        Seq::filter_distributes_over_add(
                            all.take(i + 1),
                            all.skip(i + 1),
                            holds_exclusion(),
                        );
                        lemma_try_map_error(
                            all.take(i + 1).filter(holds_exclusion()),
                            all.skip(i + 1).filter(holds_exclusion()),
                            exclusion_parser(),
                        );
                    }
                    return Err(TableError::BadNumber);
                },
            }
        }
        i += 1;
    }
    assert(all.take(i as int) =~= all);
    Ok(CompositionExclusions { codes })
}

/// Whether canonical composition never produces the code point.
pub fn is_composition_exclusion(table: &CompositionExclusions, code: u32) -> (r: bool)
    ensures
        r == table@.contains(code),
{
    table.codes.contains(&code)
}

} // verus!
