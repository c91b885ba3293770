//! The conformance tests of normalization: a text, and the text in each of
//! the four normalization forms.

use crate::parse::{
    first_from, first_where, lemma_try_map_error, lemma_try_map_step, try_map, TableError,
};
use crate::text;
use crate::text::model;
use crate::text::model::views;
use crate::text::radix;
use vstd::prelude::*;
use vstd::string::StringExecFns;

verus! {

/// One test: the source text in `c1`, and in `c2` to `c5` what it is in the
/// forms NFC, NFD, NFKC and NFKD.
#[derive(Debug, Clone)]
pub struct NormalizationTest {
    /// The heading of the part of the file in which the test stands.
    pub part: String,
    pub description: String,
    /// The number of the line of the test, counted from one.
    pub line: usize,
    pub c1: String,
    pub c2: String,
    pub c3: String,
    pub c4: String,
    pub c5: String,
}

/// What a [`NormalizationTest`] holds.
pub struct NormalizationTestView {
    pub part: Seq<char>,
    pub description: Seq<char>,
    pub line: nat,
    pub c1: Seq<char>,
    pub c2: Seq<char>,
    pub c3: Seq<char>,
    pub c4: Seq<char>,
    pub c5: Seq<char>,
}

impl View for NormalizationTest {
    type V = NormalizationTestView;

    open spec fn view(&self) -> NormalizationTestView {
        NormalizationTestView {
            part: self.part@,
            description: self.description@,
            line: self.line as nat,
            c1: self.c1@,
            c2: self.c2@,
            c3: self.c3@,
            c4: self.c4@,
            c5: self.c5@,
        }
    }
}

/// The code points of a text as the tests write them: each as four or more
/// hexadecimal digits with a space after it.
pub open spec fn codes_text(s: Seq<char>) -> Seq<char>
    decreases s.len(),
{
    if s.len() == 0 {
        Seq::empty()
    } else {
        codes_text(s.drop_last()) + radix::padded(s.last() as u32 as nat, 16, 4) + seq![' ']
    }
}

impl NormalizationTestView {
    /// The test written out for a reader: where it stands, and the code
    /// points of its five columns.
    pub open spec fn formatted(self) -> Seq<char> {
        "\n\nPart: "@ + self.part + "\nDescription: "@ + self.description + "\nLine: "@
            + radix::digits(self.line, 10) + "\n\nC1: "@ + codes_text(self.c1) + "\nC2: "@
            + codes_text(self.c2) + "\nC3: "@ + codes_text(self.c3) + "\nC4: "@ + codes_text(
            self.c4,
        ) + "\nC5: "@ + codes_text(self.c5) + "\n"@
    }
}

/// The number of a character.
fn number_of(c: char) -> (r: u32)
    ensures
        r == c as u32,
{
    c as u32
}

/// Appends the code points of a text as the tests write them.
fn push_codes(out: &mut String, s: &str)
    ensures
        final(out)@ == old(out)@ + codes_text(s@),
{
    let chars = text::to_chars(s);
    let mut i: usize = 0;
    assert(chars@.take(0) =~= Seq::empty());
    assert(out@ =~= old(out)@ + codes_text(chars@.take(0)));
    while i < chars.len()
        invariant
            i <= chars.len(),
            out@ == old(out)@ + codes_text(chars@.take(i as int)),
        decreases chars.len() - i,
    {
        let code = number_of(chars[i]);
        radix::push_padded(out, code as u64, 16, 4);
        out.push(' ');
        proof {
            assert(chars@.take(i + 1).drop_last() =~= chars@.take(i as int));
            assert(chars@.take(i + 1).last() == chars@[i as int]);
            assert(out@ =~= old(out)@ + codes_text(chars@.take(i + 1)));
        }
        i += 1;
    }
    assert(chars@.take(i as int) =~= chars@);
}

impl NormalizationTest {
    /// The test written out for a reader.
    pub fn formatted(&self) -> (r: String)
        ensures
            r@ == self@.formatted(),
    {
        let mut out = String::new();
        out.append("\n\nPart: ");
        out.append(self.part.as_str());
        out.append("\nDescription: ");
        out.append(self.description.as_str());
        out.append("\nLine: ");
        radix::push_digits(&mut out, self.line as u64, 10);
        out.append("\n\nC1: ");
        push_codes(&mut out, self.c1.as_str());
        out.append("\nC2: ");
        push_codes(&mut out, self.c2.as_str());
        out.append("\nC3: ");
        push_codes(&mut out, self.c3.as_str());
        out.append("\nC4: ");
        push_codes(&mut out, self.c4.as_str());
        out.append("\nC5: ");
        push_codes(&mut out, self.c5.as_str());
        out.append("\n");
        assert(out@ =~= self@.formatted());
        out
    }
}

/// What a list of tests holds, test by test.
pub open spec fn tests_view(tests: Seq<NormalizationTest>) -> Seq<NormalizationTestView> {
    tests.map_values(|t: NormalizationTest| t@)
}

/// The text that a column denotes: the characters whose numbers it holds
/// in hexadecimal, with white space between them.
pub open spec fn column_of(field: Seq<char>) -> Result<Seq<char>, TableError> {
    match radix::all_hex_u32(model::split_whitespace(field)) {
        None => Err(TableError::BadNumber),
        Some(codes) => match model::text_of(codes) {
            None => Err(TableError::NotACharacter),
            Some(text) => Ok(text),
        },
    }
}

/// `column_of`, as a value.
pub open spec fn column_parser() -> spec_fn(Seq<char>) -> Result<Seq<char>, TableError> {
    |field: Seq<char>| column_of(field)
}

/// The test that a line denotes: five columns, each ended by a semicolon,
/// then a number sign and a description. The test takes the heading of its
/// part and the number of its line from where it stands.
pub open spec fn test_of(line: Seq<char>, part: Seq<char>, number: nat) -> Result<
    NormalizationTestView,
    TableError,
> {
    match model::split_once(line, "#"@) {
        None => Err(TableError::MissingSeparator),
        Some((codes, description)) => {
            let fields = model::split(codes, ";"@);
            if fields.len() != 6 {
                Err(TableError::BadFieldCount)
            } else {
                match try_map(fields.take(5), column_parser()) {
                    Err(e) => Err(e),
                    Ok(columns) => Ok(
                        NormalizationTestView {
                            part,
                            description,
                            line: number,
                            c1: columns[0],
                            c2: columns[1],
                            c3: columns[2],
                            c4: columns[3],
                            c5: columns[4],
                        },
                    ),
                }
            }
        },
    }
}

/// The tests that the lines denote, and the heading that is in force after
/// them. A line that begins with a number sign is a comment; one that
/// begins with `@` is the heading of the tests that follow it; any other
/// line holds a test.
pub open spec fn tests_of_lines(lines: Seq<Seq<char>>) -> Result<
    (Seq<NormalizationTestView>, Seq<char>),
    TableError,
>
    decreases lines.len(),
{
    if lines.len() == 0 {
        Ok((Seq::empty(), Seq::empty()))
    } else {
        match tests_of_lines(lines.drop_last()) {
            Err(e) => Err(e),
            Ok((tests, part)) => {
                let line = lines.last();
                if "#"@.is_prefix_of(line) {
                    Ok((tests, part))
                } else if "@"@.is_prefix_of(line) {
                    Ok((tests, line))
                } else {
                    match test_of(line, part, lines.len()) {
                        Err(e) => Err(e),
                        Ok(test) => Ok((tests.push(test), part)),
                    }
                }
            },
        }
    }
}

/// The tests that a source text denotes, in the order of its lines.
pub open spec fn tests_of(source: Seq<char>) -> Result<Seq<NormalizationTestView>, TableError> {
    match tests_of_lines(model::lines(source)) {
        Err(e) => Err(e),
        Ok((tests, part)) => Ok(tests),
    }
}

/// An error among the first lines is the error of the whole.
proof fn lemma_tests_error(head: Seq<Seq<char>>, tail: Seq<Seq<char>>)
    requires
        tests_of_lines(head) is Err,
    ensures
        tests_of_lines(head + tail) == tests_of_lines(head),
    decreases tail.len(),
{
    if tail.len() == 0 {
        assert(head + tail =~= head);
    } else {
        lemma_tests_error(head, tail.drop_last());
        assert((head + tail).drop_last() =~= head + tail.drop_last());
    }
}

/// Parses one column.
fn parse_column(field: &[char]) -> (r: Result<String, TableError>)
    ensures
        match r {
            Ok(s) => column_of(field@) == Ok::<Seq<char>, TableError>(s@),
            Err(e) => column_of(field@) == Err::<Seq<char>, TableError>(e),
        },
{
    let pieces = text::split_whitespace(field);
    match radix::parse_all_hex_u32(&pieces) {
        None => Err(TableError::BadNumber),
        Some(codes) => match text::string_of(codes.as_slice()) {
            None => Err(TableError::NotACharacter),
            Some(s) => Ok(s),
        },
    }
}

/// What the strings hold, string by string.
pub open spec fn strings_view(strings: Seq<String>) -> Seq<Seq<char>> {
    strings.map_values(|s: String| s@)
}

/// Parses the line of one test.
fn parse_test(line: &[char], part: &String, number: usize) -> (r: Result<
    NormalizationTest,
    TableError,
>)
    ensures
        match r {
            Ok(test) => test_of(line@, part@, number as nat) == Ok::<
                NormalizationTestView,
                TableError,
            >(test@),
            Err(e) => test_of(line@, part@, number as nat) == Err::<
                NormalizationTestView,
                TableError,
            >(e),
        },
{
    let hash = text::to_chars("#");
    let semicolon = text::to_chars(";");
    let (codes, description) = match text::split_once(line, hash.as_slice()) {
        Some(parts) => parts,
        None => {
            return Err(TableError::MissingSeparator);
        },
    };
    let fields = text::split(codes, semicolon.as_slice());
    if fields.len() != 6 {
        return Err(TableError::BadFieldCount);
    }
    let ghost items = views(fields@).take(5);
    let mut columns: Vec<String> = Vec::new();
    let mut i: usize = 0;
    proof {
        assert(items.take(0) =~= Seq::empty());
        assert(strings_view(columns@) =~= Seq::empty());
    }
    while i < 5
        invariant
            i <= 5,
            fields@.len() == 6,
            model::split_once(line@, "#"@) == Some((codes@, description@)),
            views(fields@) == model::split(codes@, ";"@),
            items == views(fields@).take(5),
            columns@.len() == i,
            try_map(items.take(i as int), column_parser()) == Ok::<Seq<Seq<char>>, TableError>(
                strings_view(columns@),
            ),
        decreases 5 - i,
    {
        proof {
            lemma_try_map_step(items, i as int, column_parser());
        }
        let ghost before = columns@;
        match parse_column(fields[i]) {
            Ok(s) => {
                columns.push(s);
                assert(strings_view(columns@) =~= strings_view(before).push(s@));
            },
            Err(e) => {
                proof {
                    lemma_try_map_error(items.take(i + 1), items.skip(i + 1), column_parser());
                    assert(items.take(i + 1) + items.skip(i + 1) =~= items);
                }
                return Err(e);
            },
        }
        i += 1;
    }
    assert(items.take(5) =~= items);
    let c5 = columns.pop().unwrap();
    let c4 = columns.pop().unwrap();
    let c3 = columns.pop().unwrap();
    let c2 = columns.pop().unwrap();
    let c1 = columns.pop().unwrap();
    Ok(
        NormalizationTest {
            part: part.clone(),
            description: text::from_chars(description),
            line: number,
            c1,
            c2,
            c3,
            c4,
            c5,
        },
    )
}

/// Reads the tests from the text of their source. The first line that
/// breaks the grammar fails the whole.
pub fn normalization_tests(source: &str) -> (r: Result<Vec<NormalizationTest>, TableError>)
    ensures
        match r {
            Ok(tests) => tests_of(source@) == Ok::<Seq<NormalizationTestView>, TableError>(
                tests_view(tests@),
            ),
            Err(e) => tests_of(source@) == Err::<Seq<NormalizationTestView>, TableError>(e),
        },
{
    let chars = text::to_chars(source);
    let lines = text::lines(chars.as_slice());
    let comment = text::to_chars("#");
    let heading = text::to_chars("@");
    let ghost all = views(lines@);
    let mut tests: Vec<NormalizationTest> = Vec::new();
    let mut part = String::new();
    let mut i: usize = 0;
    proof {
        assert(all.take(0) =~= Seq::empty());
        assert(tests_view(tests@) =~= Seq::empty());
    }
    while i < lines.len()
        invariant
            i <= lines.len(),
            comment@ == "#"@,
            heading@ == "@"@,
            all == views(lines@),
            all == model::lines(source@),
            tests_of_lines(all.take(i as int)) == Ok::<
                (Seq<NormalizationTestView>, Seq<char>),
                TableError,
            >((tests_view(tests@), part@)),
        decreases lines.len() - i,
    {
        let line = lines[i];
        proof {
            assert(all.take(i + 1).drop_last() =~= all.take(i as int));
            assert(all.take(i + 1).last() == line@);
        }
        if text::starts_with(line, comment.as_slice()) {
        } else if text::starts_with(line, heading.as_slice()) {
            part = text::from_chars(line);
        } else {
            let ghost before = tests@;
            match parse_test(line, &part, i + 1) {
                Ok(test) => {
                    tests.push(test);
                    assert(tests_view(tests@) =~= tests_view(before).push(test@));
                },
                Err(e) => {
                    proof {
                        assert(all.take(i + 1) + all.skip(i + 1) =~= all);
                        lemma_tests_error(all.take(i + 1), all.skip(i + 1));
                    }
                    return Err(e);
                },
            }
        }
        i += 1;
    }
    assert(all.take(i as int) =~= all);
    Ok(tests)
}

/// The class of the tests that stand on the line with the given number.
pub open spec fn on_line(number: nat) -> spec_fn(NormalizationTestView) -> bool {
    |test: NormalizationTestView| test.line == number
}

/// Finds the test that stands on the line with the given number.
pub fn get_normalization_test(tests: &[NormalizationTest], i: usize) -> (r: Option<
    &NormalizationTest,
>)
    ensures
        match r {
            Some(test) => first_where(tests_view(tests@), on_line(i as nat)) matches Some(at)
                && test@ == tests_view(tests@)[at],
            None => first_where(tests_view(tests@), on_line(i as nat)) is None,
        },
{
    let mut k: usize = 0;
    while k < tests.len()
        invariant
            k <= tests.len(),
            first_where(tests_view(tests@), on_line(i as nat)) == first_from(
                tests_view(tests@),
                on_line(i as nat),
                k as int,
            ),
        decreases tests.len() - k,
    {
        if tests[k].line == i {
            return Some(&tests[k]);
        }
        k += 1;
    }
    None
}

} // verus!
