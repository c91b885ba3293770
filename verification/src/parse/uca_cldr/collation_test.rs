//! The conformance tests of collation: a sequence of code points, and the
//! weights of its sort key level by level.

use crate::parse::{lemma_filter_push, lemma_try_map_error, lemma_try_map_push, try_map, TableError};
use crate::text;
use crate::text::model;
use crate::text::model::views;
use crate::text::radix;
use vstd::prelude::*;

verus! {

/// One test: a sequence of code points and the weights that its sort key
/// holds on each level. The fourth level is used where variable elements
/// are shifted.
#[derive(Debug, Clone)]
pub struct CollationTest {
    pub codes: Vec<u32>,
    pub l1: Vec<u16>,
    pub l2: Vec<u16>,
    pub l3: Vec<u16>,
    pub l4: Vec<u16>,
    pub description: String,
}

/// What a [`CollationTest`] holds.
pub struct CollationTestView {
    pub codes: Seq<u32>,
    pub l1: Seq<u16>,
    pub l2: Seq<u16>,
    pub l3: Seq<u16>,
    pub l4: Seq<u16>,
    pub description: Seq<char>,
}

impl View for CollationTest {
    type V = CollationTestView;

    open spec fn view(&self) -> CollationTestView {
        CollationTestView {
            codes: self.codes@,
            l1: self.l1@,
            l2: self.l2@,
            l3: self.l3@,
            l4: self.l4@,
            description: self.description@,
        }
    }
}

impl CollationTest {
    /// The code points as text. A code point that is no scalar value, such
    /// as a surrogate, has no character.
    pub fn as_string(&self) -> (r: Result<String, TableError>)
        ensures
            match r {
                Ok(s) => model::text_of(self.codes@) == Some(s@),
                Err(e) => e == TableError::NotACharacter && model::text_of(self.codes@) is None,
            },
    {
        match text::string_of(self.codes.as_slice()) {
            Some(s) => Ok(s),
            None => Err(TableError::NotACharacter),
        }
    }
}

/// What a list of tests holds, test by test.
pub open spec fn tests_view(tests: Seq<CollationTest>) -> Seq<CollationTestView> {
    tests.map_values(|t: CollationTest| t@)
}

/// The class of the lines that hold a test: all but empty lines and
/// comments.
pub open spec fn holds_test() -> spec_fn(Seq<char>) -> bool {
    |line: Seq<char>| line.len() > 0 && !"#"@.is_prefix_of(line)
}

/// The weights of one level: hexadecimal numbers with white space between
/// them, or nothing.
pub open spec fn level_of(part: Seq<char>) -> Option<Seq<u16>> {
    radix::all_hex_u16(model::split_whitespace(part))
}

/// The levels that are written in the brackets at the end of a line, where
/// each level ends with a `|`.
pub open spec fn level_texts(weights: Seq<char>) -> Seq<Seq<char>> {
    model::split(model::trim_end_matches(model::trim_matches(weights, "[]"@), "|"@), "|"@)
}

/// The level at index `i`, which is empty where the line writes fewer
/// levels.
pub open spec fn level_at(levels: Seq<Seq<char>>, i: int) -> Option<Seq<u16>> {
    if i < levels.len() {
        level_of(levels[i])
    } else {
        Some(Seq::empty())
    }
}

/// The test that a line denotes: the code points, a semicolon, a
/// description, and in brackets the weights of up to four levels.
pub open spec fn test_of(line: Seq<char>) -> Result<CollationTestView, TableError> {
    match model::split_once(line, ";"@) {
        None => Err(TableError::MissingSeparator),
        Some((codes, rest)) => match model::rfind(rest, "["@) {
            None => Err(TableError::MissingSeparator),
            Some(at) => match radix::all_hex_u32(model::split_whitespace(codes)) {
                None => Err(TableError::BadNumber),
                Some(codes) => {
                    let levels = level_texts(rest.skip(at));
                    if levels.len() > 4 {
                        Err(TableError::BadLevelCount)
                    } else {
                        match (
                            level_at(levels, 0),
                            level_at(levels, 1),
                            level_at(levels, 2),
                            level_at(levels, 3),
                        ) {
                            (Some(l1), Some(l2), Some(l3), Some(l4)) => Ok(
                                CollationTestView {
                                    codes,
                                    l1,
                                    l2,
                                    l3,
                                    l4,
                                    description: model::trim_matches(rest.take(at), "\t #"@),
                                },
                            ),
                            _ => Err(TableError::BadNumber),
                        }
                    }
                },
            },
        },
    }
}

/// `test_of`, as a value.
pub open spec fn test_parser() -> spec_fn(Seq<char>) -> Result<CollationTestView, TableError> {
    |line: Seq<char>| test_of(line)
}

/// The tests that a source text denotes, in the order of its lines.
pub open spec fn tests_of(source: Seq<char>) -> Result<Seq<CollationTestView>, TableError> {
    try_map(model::lines(source).filter(holds_test()), test_parser())
}

/// Parses the level at index `i`.
fn parse_level(levels: &Vec<&[char]>, i: usize) -> (r: Option<Vec<u16>>)
    ensures
        match r {
            Some(v) => level_at(views(levels@), i as int) == Some(v@),
            None => level_at(views(levels@), i as int) is None,
        },
{
    if i < levels.len() {
        let pieces = text::split_whitespace(levels[i]);
        radix::parse_all_hex_u16(&pieces)
    } else {
        Some(Vec::new())
    }
}

/// Parses the line of one test.
fn parse_test(line: &[char]) -> (r: Result<CollationTest, TableError>)
    ensures
        match r {
            Ok(test) => test_of(line@) == Ok::<CollationTestView, TableError>(test@),
            Err(e) => test_of(line@) == Err::<CollationTestView, TableError>(e),
        },
{
    let semicolon = text::to_chars(";");
    let open = text::to_chars("[");
    let brackets = text::to_chars("[]");
    let bar = text::to_chars("|");
    let margin = text::to_chars("\t #");
    let (codes, rest) = match text::split_once(line, semicolon.as_slice()) {
        Some(parts) => parts,
        None => {
            return Err(TableError::MissingSeparator);
        },
    };
    let at = match text::rfind(rest, open.as_slice()) {
        Some(at) => at,
        None => {
            return Err(TableError::MissingSeparator);
        },
    };
    proof {
        model::lemma_rfind_from(rest@, "["@, rest@.len() - "["@.len());
    }
    let n = rest.len();
    let description = &rest[0..at];
    let weights = &rest[at..n];
    assert(description@ =~= rest@.take(at as int));
    assert(weights@ =~= rest@.skip(at as int));
    let pieces = text::split_whitespace(codes);
    let codes = match radix::parse_all_hex_u32(&pieces) {
        Some(codes) => codes,
        None => {
            return Err(TableError::BadNumber);
        },
    };
    let levels = text::split(
        text::trim_end_matches(text::trim_matches(weights, brackets.as_slice()), bar.as_slice()),
        bar.as_slice(),
    );
    if levels.len() > 4 {
        return Err(TableError::BadLevelCount);
    }
    let l1 = parse_level(&levels, 0);
    let l2 = parse_level(&levels, 1);
    let l3 = parse_level(&levels, 2);
    let l4 = parse_level(&levels, 3);
    match (l1, l2, l3, l4) {
        (Some(l1), Some(l2), Some(l3), Some(l4)) => Ok(
            CollationTest {
                codes,
                l1,
                l2,
                l3,
                l4,
                description: text::from_chars(text::trim_matches(description, margin.as_slice())),
            },
        ),
        _ => Err(TableError::BadNumber),
    }
}

/// Reads the tests from the text of their source. The first line that
/// breaks the grammar fails the whole.
pub fn parse_collation_test(source: &str) -> (r: Result<Vec<CollationTest>, TableError>)
    ensures
        match r {
            Ok(tests) => tests_of(source@) == Ok::<Seq<CollationTestView>, TableError>(
                tests_view(tests@),
            ),
            Err(e) => tests_of(source@) == Err::<Seq<CollationTestView>, TableError>(e),
        },
{
    let chars = text::to_chars(source);
    let lines = text::lines(chars.as_slice());
    let comment = text::to_chars("#");
    let ghost all = views(lines@);
    let mut tests: Vec<CollationTest> = Vec::new();
    let mut i: usize = 0;
    proof {
        assert(all.take(0) =~= Seq::empty());
        reveal(Seq::filter);
        assert(tests_view(tests@) =~= Seq::empty());
    }
    while i < lines.len()
        invariant
            i <= lines.len(),
            comment@ == "#"@,
            all == views(lines@),
            all == model::lines(source@),
            try_map(all.take(i as int).filter(holds_test()), test_parser()) == Ok::<
                Seq<CollationTestView>,
                TableError,
            >(tests_view(tests@)),
        decreases lines.len() - i,
    {
        let line = lines[i];
        proof {
            assert(all.take(i + 1) =~= all.take(i as int).push(all[i as int]));
            lemma_filter_push(all.take(i as int), all[i as int], holds_test());
        }
        if line.len() > 0 && !text::starts_with(line, comment.as_slice()) {
            proof {
                lemma_try_map_push(
                    all.take(i as int).filter(holds_test()),
                    all[i as int],
                    test_parser(),
                );
            }
            let ghost before = tests@;
            match parse_test(line) {
                Ok(test) => {
                    tests.push(test);
                    assert(tests_view(tests@) =~= tests_view(before).push(test@));
                },
                Err(e) => {
                    proof {
                        assert(all.take(i + 1) + all.skip(i + 1) =~= all);
                        Seq::filter_distributes_over_add(
                            all.take(i + 1),
                            all.skip(i + 1),
                            holds_test(),
                        );
                        lemma_try_map_error(
                            all.take(i + 1).filter(holds_test()),
                            all.skip(i + 1).filter(holds_test()),
                            test_parser(),
                        );
                    }
                    return Err(e);
                },
            }
        }
        i += 1;
    }
    assert(all.take(i as int) =~= all);
    Ok(tests)
}

} // verus!
