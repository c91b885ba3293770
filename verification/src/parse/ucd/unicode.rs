//! The database of the code points: one record for each assigned code
//! point, built from the text of the character database.

use crate::codepoint::bidi_class::{bidi_class_of, parse_bidi_class, BidiClass};
use crate::codepoint::canonical_combining_class::CanonicalCombiningClass;
use crate::codepoint::decomposition::{
    decomposition_tag_of, parse_decomposition_tag, DecompositionTag,
};
use crate::codepoint::general_category::{
    general_category_of, parse_general_category, GeneralCategory,
};
use crate::codepoint::{BidiMirrored, Codepoint, CodepointView, NumericType, SimpleCaseMapping};
use crate::parse::ucd::blocks::{covering, get_block_by_code, BlockIndex, CodepointsBlockView};
use crate::parse::{first_where, lemma_first_from};
use std::collections::HashMap;
use crate::parse::TableError;
use crate::text;
use crate::text::model;
use crate::text::model::views;
use crate::text::radix;
use vstd::prelude::*;

verus! {

/// What a line of the source says of a code point.
pub struct Record {
    pub code: u32,
    pub name: Seq<char>,
    pub gc: GeneralCategory,
    pub ccc: CanonicalCombiningClass,
    pub bc: BidiClass,
    pub numeric: NumericType,
    pub bidi_mirrored: BidiMirrored,
    pub simple_uppercase_mapping: SimpleCaseMapping,
    pub simple_lowercase_mapping: SimpleCaseMapping,
    pub simple_titlecase_mapping: SimpleCaseMapping,
    pub decomposition_tag: Option<DecompositionTag>,
    pub decomposition: Seq<u32>,
}

/// The decomposition that a field denotes: nothing, or one or more code
/// points in hexadecimal with one space between them, with a tag in angle
/// brackets before them where the decomposition is one of compatibility.
pub open spec fn decomposition_of(field: Seq<char>) -> Result<
    (Option<DecompositionTag>, Seq<u32>),
    TableError,
> {
    if field.len() == 0 {
        Ok((None, Seq::empty()))
    } else {
        let words = model::split(field, " "@);
        if "<"@.is_prefix_of(words[0]) {
            match decomposition_tag_of(words[0]) {
                None => Err(TableError::UnknownValue),
                Some(tag) => match radix::all_hex_u32(words.skip(1)) {
                    None => Err(TableError::BadNumber),
                    Some(codes) => if codes.len() == 0 {
                        Err(TableError::BadNumber)
                    } else {
                        Ok((Some(tag), codes))
                    },
                },
            }
        } else {
            match radix::all_hex_u32(words) {
                None => Err(TableError::BadNumber),
                Some(codes) => Ok((None, codes)),
            }
        }
    }
}

/// The numeric type that the three numeric fields denote: a decimal digit
/// where the first holds its value, another digit where the second does,
/// a number of another kind where only the third holds anything.
pub open spec fn numeric_of(decimal: Seq<char>, digit: Seq<char>, numeric: Seq<char>) -> Result<
    NumericType,
    TableError,
> {
    if decimal.len() > 0 {
        match radix::decimal_u8(decimal) {
            Some(value) => Ok(NumericType::Decimal(value)),
            None => Err(TableError::BadNumber),
        }
    } else if digit.len() > 0 {
        match radix::decimal_u8(digit) {
            Some(value) => Ok(NumericType::Digit(value)),
            None => Err(TableError::BadNumber),
        }
    } else if numeric.len() > 0 {
        Ok(NumericType::Numeric)
    } else {
        Ok(NumericType::NotNumeric)
    }
}

/// Whether the field says that the character is mirrored: `Y` or `N`.
pub open spec fn mirrored_of(field: Seq<char>) -> Result<BidiMirrored, TableError> {
    if field == "Y"@ {
        Ok(BidiMirrored(true))
    } else if field == "N"@ {
        Ok(BidiMirrored(false))
    } else {
        Err(TableError::UnknownValue)
    }
}

/// The case mapping that a field denotes: nothing, or one code point in
/// hexadecimal.
pub open spec fn case_of(field: Seq<char>) -> Result<SimpleCaseMapping, TableError> {
    if field.len() == 0 {
        Ok(SimpleCaseMapping(None))
    } else {
        match radix::hex_u32(field) {
            Some(code) => Ok(SimpleCaseMapping(Some(code))),
            None => Err(TableError::BadNumber),
        }
    }
}

/// The record that a line denotes. A line has fifteen fields with
/// semicolons between them: the code point, the name, the general
/// category, the combining class, the bidirectional class, the
/// decomposition, three numeric fields, the mirrored flag, two fields that
/// are not read, and the mappings to upper case, lower case and title case.
pub open spec fn record_of(line: Seq<char>) -> Result<Record, TableError> {
    let f = model::split(line, ";"@);
    if f.len() != 15 {
        Err(TableError::BadFieldCount)
    } else {
        match radix::hex_u32(f[0]) {
            None => Err(TableError::BadNumber),
            Some(code) => match general_category_of(f[2]) {
                None => Err(TableError::UnknownValue),
                Some(gc) => match radix::decimal_u8(f[3]) {
                    None => Err(TableError::BadNumber),
                    Some(ccc) => match bidi_class_of(f[4]) {
                        None => Err(TableError::UnknownValue),
                        Some(bc) => match decomposition_of(f[5]) {
                            Err(e) => Err(e),
                            Ok((decomposition_tag, decomposition)) => match numeric_of(
                                f[6],
                                f[7],
                                f[8],
                            ) {
                                Err(e) => Err(e),
                                Ok(numeric) => match mirrored_of(f[9]) {
                                    Err(e) => Err(e),
                                    Ok(bidi_mirrored) => match (
                                        case_of(f[12]),
                                        case_of(f[13]),
                                        case_of(f[14]),
                                    ) {
                                        (Ok(upper), Ok(lower), Ok(title)) => Ok(
                                            Record {
                                                code,
                                                name: f[1],
                                                gc,
                                                ccc: CanonicalCombiningClass(ccc),
                                                bc,
                                                numeric,
                                                bidi_mirrored,
                                                simple_uppercase_mapping: upper,
                                                simple_lowercase_mapping: lower,
                                                simple_titlecase_mapping: title,
                                                decomposition_tag,
                                                decomposition,
                                            },
                                        ),
                                        _ => Err(TableError::BadNumber),
                                    },
                                },
                            },
                        },
                    },
                },
            },
        }
    }
}

/// A record as it is read, before the database is put together.
struct RawRecord {
    code: u32,
    name: String,
    gc: GeneralCategory,
    ccc: CanonicalCombiningClass,
    bc: BidiClass,
    numeric: NumericType,
    bidi_mirrored: BidiMirrored,
    simple_uppercase_mapping: SimpleCaseMapping,
    simple_lowercase_mapping: SimpleCaseMapping,
    simple_titlecase_mapping: SimpleCaseMapping,
    decomposition_tag: Option<DecompositionTag>,
    decomposition: Vec<u32>,
}

impl View for RawRecord {
    type V = Record;

    closed spec fn view(&self) -> Record {
        Record {
            code: self.code,
            name: self.name@,
            gc: self.gc,
            ccc: self.ccc,
            bc: self.bc,
            numeric: self.numeric,
            bidi_mirrored: self.bidi_mirrored,
            simple_uppercase_mapping: self.simple_uppercase_mapping,
            simple_lowercase_mapping: self.simple_lowercase_mapping,
            simple_titlecase_mapping: self.simple_titlecase_mapping,
            decomposition_tag: self.decomposition_tag,
            decomposition: self.decomposition@,
        }
    }
}

/// Parses the decomposition field.
fn parse_decomposition(field: &[char]) -> (r: Result<
    (Option<DecompositionTag>, Vec<u32>),
    TableError,
>)
    ensures
        match r {
            Ok((tag, codes)) => decomposition_of(field@) == Ok::<
                (Option<DecompositionTag>, Seq<u32>),
                TableError,
            >((tag, codes@)),
            Err(e) => decomposition_of(field@) == Err::<
                (Option<DecompositionTag>, Seq<u32>),
                TableError,
            >(e),
        },
{
    if field.len() == 0 {
        return Ok((None, Vec::new()));
    }
    let space = text::to_chars(" ");
    let angle = text::to_chars("<");
    let mut words = text::split(field, space.as_slice());
    proof {
        model::lemma_split_nonempty(field@, " "@);
    }
    if text::starts_with(words[0], angle.as_slice()) {
        let tag = match parse_decomposition_tag(words[0]) {
            Some(tag) => tag,
            None => {
                return Err(TableError::UnknownValue);
            },
        };
        let ghost all = words@;
        words.remove(0);
        assert(views(words@) =~= views(all).skip(1));
        match radix::parse_all_hex_u32(&words) {
            Some(codes) => if codes.len() == 0 {
                Err(TableError::BadNumber)
            } else {
                Ok((Some(tag), codes))
            },
            None => Err(TableError::BadNumber),
        }
    } else {
        match radix::parse_all_hex_u32(&words) {
            Some(codes) => Ok((None, codes)),
            None => Err(TableError::BadNumber),
        }
    }
}

/// Parses the three numeric fields.
fn parse_numeric(decimal: &[char], digit: &[char], numeric: &[char]) -> (r: Result<
    NumericType,
    TableError,
>)
    ensures
        r == numeric_of(decimal@, digit@, numeric@),
{
    if decimal.len() > 0 {
        match radix::parse_decimal_u8(decimal) {
            Some(value) => Ok(NumericType::Decimal(value)),
            None => Err(TableError::BadNumber),
        }
    } else if digit.len() > 0 {
        match radix::parse_decimal_u8(digit) {
            Some(value) => Ok(NumericType::Digit(value)),
            None => Err(TableError::BadNumber),
        }
    } else if numeric.len() > 0 {
        Ok(NumericType::Numeric)
    } else {
        Ok(NumericType::NotNumeric)
    }
}

/// Parses the mirrored flag.
fn parse_mirrored(field: &[char]) -> (r: Result<BidiMirrored, TableError>)
    ensures
        r == mirrored_of(field@),
{
    if text::is(field, "Y") {
        Ok(BidiMirrored(true))
    } else if text::is(field, "N") {
        Ok(BidiMirrored(false))
    } else {
        Err(TableError::UnknownValue)
    }
}

/// Parses a case mapping.
fn parse_case(field: &[char]) -> (r: Result<SimpleCaseMapping, TableError>)
    ensures
        r == case_of(field@),
{
    if field.len() == 0 {
        Ok(SimpleCaseMapping(None))
    } else {
        match radix::parse_hex_u32(field) {
            Some(code) => Ok(SimpleCaseMapping(Some(code))),
            None => Err(TableError::BadNumber),
        }
    }
}

/// Parses one line of the source.
fn parse_record(line: &[char]) -> (r: Result<RawRecord, TableError>)
    ensures
        match r {
            Ok(record) => record_of(line@) == Ok::<Record, TableError>(record@),
            Err(e) => record_of(line@) == Err::<Record, TableError>(e),
        },
{
    let semicolon = text::to_chars(";");
    let f = text::split(line, semicolon.as_slice());
    if f.len() != 15 {
        return Err(TableError::BadFieldCount);
    }
    let code = match radix::parse_hex_u32(f[0]) {
        Some(code) => code,
        None => {
            return Err(TableError::BadNumber);
        },
    };
    let gc = match parse_general_category(f[2]) {
        Some(gc) => gc,
        None => {
            return Err(TableError::UnknownValue);
        },
    };
    let ccc = match radix::parse_decimal_u8(f[3]) {
        Some(ccc) => ccc,
        None => {
            return Err(TableError::BadNumber);
        },
    };
    let bc = match parse_bidi_class(f[4]) {
        Some(bc) => bc,
        None => {
            return Err(TableError::UnknownValue);
        },
    };
    let (decomposition_tag, decomposition) = match parse_decomposition(f[5]) {
        Ok(d) => d,
        Err(e) => {
            return Err(e);
        },
    };
    let numeric = match parse_numeric(f[6], f[7], f[8]) {
        Ok(numeric) => numeric,
        Err(e) => {
            return Err(e);
        },
    };
    let bidi_mirrored = match parse_mirrored(f[9]) {
        Ok(m) => m,
        Err(e) => {
            return Err(e);
        },
    };
    match (parse_case(f[12]), parse_case(f[13]), parse_case(f[14])) {
        (Ok(upper), Ok(lower), Ok(title)) => Ok(
            RawRecord {
                code,
                name: text::from_chars(f[1]),
                gc,
                ccc: CanonicalCombiningClass(ccc),
                bc,
                numeric,
                bidi_mirrored,
                simple_uppercase_mapping: upper,
                simple_lowercase_mapping: lower,
                simple_titlecase_mapping: title,
                decomposition_tag,
                decomposition,
            },
        ),
        _ => Err(TableError::BadNumber),
    }
}

/// Whether a name marks the first code point of a range. The source gives
/// a range of code points with the same properties by its two ends.
pub open spec fn is_range_start(name: Seq<char>) -> bool {
    ", First>"@.is_suffix_of(name)
}

/// Whether a name marks the last code point of a range.
pub open spec fn is_range_end(name: Seq<char>) -> bool {
    ", Last>"@.is_suffix_of(name)
}

/// The name of the code points of a range: the name of its first line
/// without the mark.
pub open spec fn range_name(name: Seq<char>) -> Seq<char> {
    name.take(name.len() - ", First>"@.len()) + ">"@
}

/// The record of the code point `code` of a range, where `first` is the
/// record of the first line of the range.
pub open spec fn range_record(first: Record, code: u32) -> Record {
    Record {
        code,
        name: range_name(first.name),
        gc: first.gc,
        ccc: first.ccc,
        bc: first.bc,
        numeric: first.numeric,
        bidi_mirrored: first.bidi_mirrored,
        simple_uppercase_mapping: first.simple_uppercase_mapping,
        simple_lowercase_mapping: first.simple_lowercase_mapping,
        simple_titlecase_mapping: first.simple_titlecase_mapping,
        decomposition_tag: first.decomposition_tag,
        decomposition: first.decomposition,
    }
}

/// The records of a range: one for each code point from that of `first` to
/// `last`.
pub open spec fn range_records(first: Record, last: u32) -> Seq<Record> {
    Seq::new(
        (last - first.code + 1) as nat,
        |i: int| range_record(first, (first.code + i) as u32),
    )
}

/// The class of the lines that hold a record: all but empty lines and
/// comments.
pub open spec fn holds_record() -> spec_fn(Seq<char>) -> bool {
    |line: Seq<char>| line.len() > 0 && !"#"@.is_prefix_of(line)
}

/// The records that the lines denote, and the first line of a range that
/// is open after them. A line gives one record, but for the two lines of a
/// range, which give a record for each code point from the first to the
/// last.
pub open spec fn records_of_lines(lines: Seq<Seq<char>>) -> Result<
    (Seq<Record>, Option<Record>),
    TableError,
>
    decreases lines.len(),
{
    if lines.len() == 0 {
        Ok((Seq::empty(), None))
    } else {
        match records_of_lines(lines.drop_last()) {
            Err(e) => Err(e),
            Ok((done, open)) => match record_of(lines.last()) {
                Err(e) => Err(e),
                Ok(record) => match open {
                    Some(first) => if is_range_end(record.name) && first.code <= record.code {
                        Ok((done + range_records(first, record.code), None))
                    } else {
                        Err(TableError::BadRange)
                    },
                    None => if is_range_start(record.name) {
                        Ok((done, Some(record)))
                    } else if is_range_end(record.name) {
                        Err(TableError::BadRange)
                    } else {
                        Ok((done.push(record), None))
                    },
                },
            },
        }
    }
}

/// The records that a source text denotes, in the order of its lines.
pub open spec fn records_of(source: Seq<char>) -> Result<Seq<Record>, TableError> {
    match records_of_lines(model::lines(source).filter(holds_record())) {
        Err(e) => Err(e),
        Ok((records, open)) => if open is Some {
            Err(TableError::BadRange)
        } else {
            Ok(records)
        },
    }
}

/// An error among the first lines is the error of the whole.
proof fn lemma_records_error(head: Seq<Seq<char>>, tail: Seq<Seq<char>>)
    requires
        records_of_lines(head) is Err,
    ensures
        records_of_lines(head + tail) == records_of_lines(head),
    decreases tail.len(),
{
    if tail.len() == 0 {
        assert(head + tail =~= head);
    } else {
        lemma_records_error(head, tail.drop_last());
        assert((head + tail).drop_last() =~= head + tail.drop_last());
    }
}

/// What the records hold, record by record.
spec fn raws_view(raws: Seq<RawRecord>) -> Seq<Record> {
    raws.map_values(|r: RawRecord| r@)
}

/// A copy of a list of code points.
fn copy_codes(codes: &Vec<u32>) -> (r: Vec<u32>)
    ensures
        r@ == codes@,
{
    let mut out: Vec<u32> = Vec::new();
    let mut i: usize = 0;
    while i < codes.len()
        invariant
            i <= codes.len(),
            out@ == codes@.take(i as int),
        decreases codes.len() - i,
    {
        out.push(codes[i]);
        assert(out@ =~= codes@.take(i + 1));
        i += 1;
    }
    assert(codes@.take(i as int) =~= codes@);
    out
}

/// Appends the records of a range.
fn push_range(records: &mut Vec<RawRecord>, first: &RawRecord, last: u32)
    requires
        first.code <= last,
        is_range_start(first.name@),
    ensures
        raws_view(final(records)@) == raws_view(old(records)@) + range_records(first@, last),
{
    let mark = text::to_chars(", First>");
    let close = text::to_chars(">");
    let full = text::to_chars(first.name.as_str());
    let mut name: Vec<char> = Vec::new();
    let keep = full.len() - mark.len();
    let mut k: usize = 0;
    while k < keep
        invariant
            k <= keep <= full.len(),
            name@ == full@.take(k as int),
        decreases keep - k,
    {
        name.push(full[k]);
        assert(name@ =~= full@.take(k + 1));
        k += 1;
    }
    let mut k: usize = 0;
    while k < close.len()
        invariant
            k <= close.len(),
            name@ == full@.take(keep as int) + close@.take(k as int),
        decreases close.len() - k,
    {
        name.push(close[k]);
        assert(name@ =~= full@.take(keep as int) + close@.take(k + 1));
        k += 1;
    }
    proof {
        assert(close@.take(k as int) =~= close@);
        assert(name@ == range_name(first.name@));
    }
    let mut code: u32 = first.code;
    proof {
        assert(raws_view(records@) =~= raws_view(old(records)@) + range_records(first@, last).take(
            0,
        ));
    }
    loop
        invariant_except_break
            raws_view(records@) == raws_view(old(records)@) + range_records(first@, last).take(
                code - first.code,
            ),
        invariant
            first.code <= code <= last,
            name@ == range_name(first.name@),
        ensures
            raws_view(records@) == raws_view(old(records)@) + range_records(first@, last),
        decreases last - code,
    {
        let ghost before = records@;
        let record = RawRecord {
            code,
            name: text::from_chars(name.as_slice()),
            gc: first.gc,
            ccc: first.ccc,
            bc: first.bc,
            numeric: first.numeric,
            bidi_mirrored: first.bidi_mirrored,
            simple_uppercase_mapping: first.simple_uppercase_mapping,
            simple_lowercase_mapping: first.simple_lowercase_mapping,
            simple_titlecase_mapping: first.simple_titlecase_mapping,
            decomposition_tag: first.decomposition_tag,
            decomposition: copy_codes(&first.decomposition),
        };
        records.push(record);
        proof {
            assert(record@ == range_record(first@, code));
            assert(raws_view(records@) =~= raws_view(before).push(record@));
            assert(raws_view(records@) =~= raws_view(old(records)@) + range_records(
                first@,
                last,
            ).take(code - first.code + 1));
        }
        if code == last {
            proof {
                assert(range_records(first@, last).take(code - first.code + 1) =~= range_records(
                    first@,
                    last,
                ));
            }
            break;
        }
        code += 1;
    }
}

/// Reads the records of a source text.
fn read_records(source: &str) -> (r: Result<Vec<RawRecord>, TableError>)
    ensures
        match r {
            Ok(records) => records_of(source@) == Ok::<Seq<Record>, TableError>(
                raws_view(records@),
            ),
            Err(e) => records_of(source@) == Err::<Seq<Record>, TableError>(e),
        },
{
    let chars = text::to_chars(source);
    let lines = text::lines(chars.as_slice());
    let comment = text::to_chars("#");
    let first_mark = text::to_chars(", First>");
    let last_mark = text::to_chars(", Last>");
    let ghost all = views(lines@);
    let mut records: Vec<RawRecord> = Vec::new();
    let mut open: Option<RawRecord> = None;
    let mut i: usize = 0;
    proof {
        assert(all.take(0) =~= Seq::empty());
        reveal(Seq::filter);
        assert(raws_view(records@) =~= Seq::empty());
    }
    while i < lines.len()
        invariant
            i <= lines.len(),
            comment@ == "#"@,
            first_mark@ == ", First>"@,
            last_mark@ == ", Last>"@,
            all == views(lines@),
            all == model::lines(source@),
            records_of_lines(all.take(i as int).filter(holds_record())) == Ok::<
                (Seq<Record>, Option<Record>),
                TableError,
            >(
                (
                    raws_view(records@),
                    match open {
                        Some(first) => Some(first@),
                        None => None,
                    },
                ),
            ),
            open matches Some(first) ==> is_range_start(first.name@),
        decreases lines.len() - i,
    {
        let line = lines[i];
        let ghost kept = all.take(i as int).filter(holds_record());
        proof {
            assert(all.take(i + 1) =~= all.take(i as int).push(all[i as int]));
            crate::parse::lemma_filter_push(all.take(i as int), all[i as int], holds_record());
            assert(kept.push(all[i as int]).drop_last() =~= kept);
        }
        if line.len() > 0 && !text::starts_with(line, comment.as_slice()) {
            let ghost before = records@;
            let step: Result<(), TableError> = match parse_record(line) {
                Err(e) => Err(e),
                Ok(record) => {
                    let chars = text::to_chars(record.name.as_str());
                    let starts = text::ends_with(chars.as_slice(), first_mark.as_slice());
                    let ends = text::ends_with(chars.as_slice(), last_mark.as_slice());
                    match open.take() {
                        Some(first) => {
                            if ends && first.code <= record.code {
                                push_range(&mut records, &first, record.code);
                                Ok(())
                            } else {
                                Err(TableError::BadRange)
                            }
                        },
                        None => {
                            if starts {
                                open = Some(record);
                                Ok(())
                            } else if ends {
                                Err(TableError::BadRange)
                            } else {
                                records.push(record);
                                assert(raws_view(records@) =~= raws_view(before).push(record@));
                                Ok(())
                            }
                        },
                    }
                },
            };
            match step {
                Ok(()) => {},
                Err(e) => {
                    proof {
                        assert(all.take(i + 1) + all.skip(i + 1) =~= all);
                        Seq::filter_distributes_over_add(
                            all.take(i + 1),
                            all.skip(i + 1),
                            holds_record(),
                        );
                        lemma_records_error(
                            all.take(i + 1).filter(holds_record()),
                            all.skip(i + 1).filter(holds_record()),
                        );
                    }
                    return Err(e);
                },
            }
        }
        i += 1;
    }
    assert(all.take(i as int) =~= all);
    match open {
        Some(_) => Err(TableError::BadRange),
        None => Ok(records),
    }
}

/// The class of the records of the code point `code`.
pub open spec fn has_code(code: u32) -> spec_fn(Record) -> bool {
    |record: Record| record.code == code
}

/// Whether no two records have the same code point.
pub open spec fn unique_codes(records: Seq<Record>) -> bool {
    forall|i: int, j: int|
        0 <= i < j < records.len() ==> (#[trigger] records[i]).code != (#[trigger] records[j]).code
}

/// What a code point decomposes to in one step: its decomposition, where it
/// has one that is canonical, or with `compat` one of either kind.
pub open spec fn mapping_of(records: Seq<Record>, code: u32, compat: bool) -> Option<Seq<u32>> {
    match first_where(records, has_code(code)) {
        Some(i) => if records[i].decomposition.len() > 0 && (compat
            || records[i].decomposition_tag is None) {
            Some(records[i].decomposition)
        } else {
            None
        },
        None => None,
    }
}

/// The code points with each of them decomposed, and what it decomposes to
/// decomposed in its turn, through at most `depth` steps.
pub open spec fn expanded(records: Seq<Record>, codes: Seq<u32>, compat: bool, depth: nat) -> Seq<
    u32,
>
    decreases depth, codes.len(),
{
    if codes.len() == 0 {
        Seq::empty()
    } else {
        let head = expanded(records, codes.drop_last(), compat, depth);
        match mapping_of(records, codes.last(), compat) {
            Some(mapping) => if depth > 0 {
                head + expanded(records, mapping, compat, (depth - 1) as nat)
            } else {
                head.push(codes.last())
            },
            None => head.push(codes.last()),
        }
    }
}

/// The greatest number of steps through which a decomposition is followed.
/// The decompositions of the standard end after a few.
pub const EXPANSION_DEPTH: usize = 32;

/// The code point of the database that a record gives: the record with its
/// two full decompositions and its block. The full canonical decomposition
/// is that of a canonical decomposition, followed through canonical
/// decompositions; the full compatibility decomposition is that of a
/// decomposition of either kind, followed through both kinds.
pub open spec fn complete(
    record: Record,
    records: Seq<Record>,
    blocks: Seq<CodepointsBlockView>,
) -> CodepointView {
    CodepointView {
        code: record.code,
        name: record.name,
        gc: record.gc,
        ccc: record.ccc,
        bc: record.bc,
        numeric: record.numeric,
        bidi_mirrored: record.bidi_mirrored,
        simple_uppercase_mapping: record.simple_uppercase_mapping,
        simple_lowercase_mapping: record.simple_lowercase_mapping,
        simple_titlecase_mapping: record.simple_titlecase_mapping,
        decomposition_tag: record.decomposition_tag,
        decomposition: record.decomposition,
        canonical_decomposition: if record.decomposition_tag is None {
            expanded(records, record.decomposition, false, EXPANSION_DEPTH as nat)
        } else {
            Seq::empty()
        },
        compat_decomposition: expanded(records, record.decomposition, true, EXPANSION_DEPTH as nat),
        block: match first_where(blocks, covering(record.code)) {
            Some(i) => Some(blocks[i]),
            None => None,
        },
    }
}

/// The database that a source text denotes, with the blocks at hand: the
/// code points of its records, in the order of its lines. Two records for
/// one code point fail the whole.
pub open spec fn database_of(source: Seq<char>, blocks: Seq<CodepointsBlockView>) -> Result<
    Seq<CodepointView>,
    TableError,
> {
    match records_of(source) {
        Err(e) => Err(e),
        Ok(records) => if unique_codes(records) {
            Ok(records.map_values(|record: Record| complete(record, records, blocks)))
        } else {
            Err(TableError::DuplicateCodepoint)
        },
    }
}

/// Whether `index` gives for each code point of the records the place of
/// its record, and for no other code point a place.
spec fn indexed(codes: Seq<u32>, index: Map<u32, usize>) -> bool {
    &&& forall|j: int|
        0 <= j < codes.len() ==> index.contains_key(#[trigger] codes[j]) && index[codes[j]] == j
    &&& forall|c: u32| #[trigger]
        index.contains_key(c) ==> index[c] < codes.len() && codes[index[c] as int] == c
}

/// The code points of the records, in order.
spec fn codes_of(records: Seq<Record>) -> Seq<u32> {
    records.map_values(|record: Record| record.code)
}

/// With an index, the record of a code point is at the place that the
/// index gives.
proof fn lemma_indexed(records: Seq<Record>, index: Map<u32, usize>, code: u32)
    requires
        indexed(codes_of(records), index),
    ensures
        first_where(records, has_code(code)) == if index.contains_key(code) {
            Some(index[code] as int)
        } else {
            None
        },
        unique_codes(records),
{
    lemma_first_from(records, has_code(code), 0);
    let codes = codes_of(records);
    match first_where(records, has_code(code)) {
        Some(i) => {
            assert(codes[i] == code);
        },
        None => {
            if index.contains_key(code) {
                assert(has_code(code)(records[index[code] as int])) by {
                    assert(codes[index[code] as int] == code);
                }
            }
        },
    }
    assert forall|i: int, j: int| 0 <= i < j < records.len() implies (#[trigger] records[i]).code
        != (#[trigger] records[j]).code by {
        assert(codes[i] == records[i].code);
        assert(codes[j] == records[j].code);
    }
}

/// Builds the index of the records, if no two have the same code point.
fn index_records(raws: &Vec<RawRecord>) -> (r: Option<HashMap<u32, usize>>)
    ensures
        match r {
            Some(index) => indexed(codes_of(raws_view(raws@)), index@),
            None => !unique_codes(raws_view(raws@)),
        },
{
    let mut index: HashMap<u32, usize> = HashMap::new();
    let ghost codes = codes_of(raws_view(raws@));
    let mut i: usize = 0;
    while i < raws.len()
        invariant
            i <= raws.len(),
            codes == codes_of(raws_view(raws@)),
            indexed(codes.take(i as int), index@),
        decreases raws.len() - i,
    {
        let code = raws[i].code;
        assert(codes[i as int] == code);
        if index.contains_key(&code) {
            proof {
                let j = index@[code] as int;
                assert(codes.take(i as int)[j] == code);
                assert(raws_view(raws@)[j].code == codes[j]);
                assert(raws_view(raws@)[i as int].code == codes[i as int]);
            }
            return None;
        }
        let ghost before = index@;
        index.insert(code, i);
        proof {
            let now = codes.take(i + 1);
            assert forall|j: int| 0 <= j < now.len() implies index@.contains_key(
                #[trigger] now[j],
            ) && index@[now[j]] == j by {
                if j < i {
                    assert(codes.take(i as int)[j] == now[j]);
                }
            }
            assert forall|c: u32| #[trigger] index@.contains_key(c) implies index@[c] < now.len()
                && now[index@[c] as int] == c by {
                if c != code {
                    assert(before.contains_key(c));
                    assert(codes.take(i as int)[before[c] as int] == c);
                }
            }
        }
        i += 1;
    }
    assert(codes.take(i as int) =~= codes);
    Some(index)
}

/// What a code point decomposes to in one step.
fn find_mapping<'r>(
    raws: &'r Vec<RawRecord>,
    index: &HashMap<u32, usize>,
    code: u32,
    compat: bool,
) -> (r: Option<&'r Vec<u32>>)
    requires
        indexed(codes_of(raws_view(raws@)), index@),
    ensures
        match r {
            Some(mapping) => mapping_of(raws_view(raws@), code, compat) == Some(mapping@),
            None => mapping_of(raws_view(raws@), code, compat) is None,
        },
{
    proof {
        lemma_indexed(raws_view(raws@), index@, code);
    }
    match index.get(&code) {
        Some(at) => {
            assert(codes_of(raws_view(raws@))[*at as int] == code);
            let record = &raws[*at];
            if record.decomposition.len() > 0 && (compat || record.decomposition_tag.is_none()) {
                Some(&record.decomposition)
            } else {
                None
            }
        },
        None => None,
    }
}

/// Appends the code points, each decomposed as far as it goes within
/// `depth` steps.
fn expand(
    raws: &Vec<RawRecord>,
    index: &HashMap<u32, usize>,
    codes: &Vec<u32>,
    compat: bool,
    depth: usize,
    out: &mut Vec<u32>,
)
    requires
        indexed(codes_of(raws_view(raws@)), index@),
    ensures
        final(out)@ == old(out)@ + expanded(raws_view(raws@), codes@, compat, depth as nat),
    decreases depth,
{
    let ghost records = raws_view(raws@);
    let mut i: usize = 0;
    proof {
        assert(codes@.take(0) =~= Seq::empty());
        assert(out@ =~= old(out)@ + expanded(records, codes@.take(0), compat, depth as nat));
    }
    while i < codes.len()
        invariant
            i <= codes.len(),
            records == raws_view(raws@),
            indexed(codes_of(records), index@),
            out@ == old(out)@ + expanded(records, codes@.take(i as int), compat, depth as nat),
        decreases codes.len() - i,
    {
        let code = codes[i];
        proof {
            assert(codes@.take(i + 1).drop_last() =~= codes@.take(i as int));
            assert(codes@.take(i + 1).last() == code);
        }
        let mapping = if depth > 0 {
            find_mapping(raws, index, code, compat)
        } else {
            None
        };
        match mapping {
            Some(mapping) => {
                expand(raws, index, mapping, compat, depth - 1, out);
                assert(out@ =~= old(out)@ + expanded(
                    records,
                    codes@.take(i + 1),
                    compat,
                    depth as nat,
                ));
            },
            None => {
                out.push(code);
                assert(out@ =~= old(out)@ + expanded(
                    records,
                    codes@.take(i + 1),
                    compat,
                    depth as nat,
                ));
            },
        }
        i += 1;
    }
    assert(codes@.take(i as int) =~= codes@);
}

/// The database of the code points: the assigned code points with their
/// properties, in the order of the source.
pub struct PropertyDatabase<'a> {
    records: Vec<Codepoint<'a>>,
    index: HashMap<u32, usize>,
}

/// What the code points hold, one by one.
pub open spec fn codepoints_view(records: Seq<Codepoint>) -> Seq<CodepointView> {
    records.map_values(|c: Codepoint| c@)
}

impl<'a> View for PropertyDatabase<'a> {
    type V = Seq<CodepointView>;

    closed spec fn view(&self) -> Seq<CodepointView> {
        codepoints_view(self.records@)
    }
}

/// Whether no two code points have the same number.
pub open spec fn unique_numbers(codepoints: Seq<CodepointView>) -> bool {
    forall|i: int, j: int|
        0 <= i < j < codepoints.len() ==> (#[trigger] codepoints[i]).code != (
        #[trigger] codepoints[j]).code
}

/// The class of the code points with the number `code`.
pub open spec fn numbered(code: u32) -> spec_fn(CodepointView) -> bool {
    |codepoint: CodepointView| codepoint.code == code
}

impl<'a> PropertyDatabase<'a> {
    /// The index gives the place of each code point.
    #[verifier::type_invariant]
    spec fn sound(&self) -> bool {
        indexed(self.records@.map_values(|c: Codepoint| c.code), self.index@)
    }

    /// The number of code points.
    pub fn len(&self) -> (n: usize)
        ensures
            n == self@.len(),
    {
        self.records.len()
    }

    /// The code point at the place `i`, in the order of the source.
    pub fn codepoint(&self, i: usize) -> (r: &Codepoint<'a>)
        requires
            i < self@.len(),
        ensures
            r@ == self@[i as int],
    {
        &self.records[i]
    }

    /// The code point with the number `code`, if the database assigns it.
    pub fn get(&self, code: u32) -> (r: Option<&Codepoint<'a>>)
        ensures
            unique_numbers(self@),
            match r {
                Some(codepoint) => first_where(self@, numbered(code)) matches Some(i) && codepoint@
                    == self@[i],
                None => first_where(self@, numbered(code)) is None,
            },
    {
        proof {
            use_type_invariant(self);
            lemma_first_from(self@, numbered(code), 0);
        }
        let ghost codes = self.records@.map_values(|c: Codepoint| c.code);
        proof {
            assert forall|i: int, j: int| 0 <= i < j < self@.len() implies (
            #[trigger] self@[i]).code != (#[trigger] self@[j]).code by {
                assert(codes[i] == self@[i].code);
                assert(codes[j] == self@[j].code);
            }
        }
        match self.index.get(&code) {
            Some(at) => {
                proof {
                    assert(codes[*at as int] == code);
                    assert(self@[*at as int].code == code);
                    let found = first_where(self@, numbered(code));
                    if let Some(i) = found {
                        assert(codes[i] == code);
                    }
                }
                Some(&self.records[*at])
            },
            None => {
                proof {
                    if let Some(i) = first_where(self@, numbered(code)) {
                        assert(codes[i] == code);
                    }
                }
                None
            },
        }
    }
}

impl<'a> PropertyDatabase<'a> {
    /// The numbers of the code points, in the order of the source.
    pub fn codes(&self) -> (r: Vec<u32>)
        ensures
            r@ == self@.map_values(|c: CodepointView| c.code),
    {
        let mut out: Vec<u32> = Vec::new();
        let mut i: usize = 0;
        while i < self.records.len()
            invariant
                i <= self.records@.len(),
                out@ == self@.map_values(|c: CodepointView| c.code).take(i as int),
            decreases self.records@.len() - i,
        {
            out.push(self.records[i].code);
            assert(out@ =~= self@.map_values(|c: CodepointView| c.code).take(i + 1));
            i += 1;
        }
        assert(out@ =~= self@.map_values(|c: CodepointView| c.code));
        out
    }

    /// The combining classes of the code points, in the order of the
    /// source.
    pub fn classes(&self) -> (r: Vec<CanonicalCombiningClass>)
        ensures
            r@ == self@.map_values(|c: CodepointView| c.ccc),
    {
        let mut out: Vec<CanonicalCombiningClass> = Vec::new();
        let mut i: usize = 0;
        while i < self.records.len()
            invariant
                i <= self.records@.len(),
                out@ == self@.map_values(|c: CodepointView| c.ccc).take(i as int),
            decreases self.records@.len() - i,
        {
            out.push(self.records[i].ccc);
            assert(out@ =~= self@.map_values(|c: CodepointView| c.ccc).take(i + 1));
            i += 1;
        }
        assert(out@ =~= self@.map_values(|c: CodepointView| c.ccc));
        out
    }
}

/// Puts together the code point of a record.
fn complete_record<'a>(
    raws: &Vec<RawRecord>,
    index: &HashMap<u32, usize>,
    at: usize,
    blocks: &'a BlockIndex,
) -> (r: Codepoint<'a>)
    requires
        at < raws@.len(),
        indexed(codes_of(raws_view(raws@)), index@),
    ensures
        r@ == complete(raws_view(raws@)[at as int], raws_view(raws@), blocks@),
{
    let raw = &raws[at];
    let mut canonical: Vec<u32> = Vec::new();
    if raw.decomposition_tag.is_none() {
        expand(raws, index, &raw.decomposition, false, EXPANSION_DEPTH, &mut canonical);
    }
    let mut compat: Vec<u32> = Vec::new();
    expand(raws, index, &raw.decomposition, true, EXPANSION_DEPTH, &mut compat);
    let block = get_block_by_code(blocks, raw.code);
    let r = Codepoint {
        code: raw.code,
        name: raw.name.clone(),
        gc: raw.gc,
        ccc: raw.ccc,
        bc: raw.bc,
        numeric: raw.numeric,
        bidi_mirrored: raw.bidi_mirrored,
        simple_uppercase_mapping: raw.simple_uppercase_mapping,
        simple_lowercase_mapping: raw.simple_lowercase_mapping,
        simple_titlecase_mapping: raw.simple_titlecase_mapping,
        decomposition_tag: raw.decomposition_tag,
        decomposition: copy_codes(&raw.decomposition),
        canonical_decomposition: canonical,
        compat_decomposition: compat,
        block,
    };
    proof {
        let expected = complete(raws_view(raws@)[at as int], raws_view(raws@), blocks@);
        assert(r@.canonical_decomposition =~= expected.canonical_decomposition);
        assert(r@.compat_decomposition =~= expected.compat_decomposition);
    }
    r
}

/// Builds the database from the text of its source, with the blocks into
/// which its code points fall. A line that breaks the grammar, a range that
/// is not closed, or a second record for a code point fails the build.
pub fn unicode<'a>(source: &str, blocks: &'a BlockIndex) -> (r: Result<
    PropertyDatabase<'a>,
    TableError,
>)
    ensures
        match r {
            Ok(database) => database_of(source@, blocks@) == Ok::<Seq<CodepointView>, TableError>(
                database@,
            ),
            Err(e) => database_of(source@, blocks@) == Err::<Seq<CodepointView>, TableError>(e),
        },
{
    let raws = match read_records(source) {
        Ok(raws) => raws,
        Err(e) => {
            return Err(e);
        },
    };
    let index = match index_records(&raws) {
        Some(index) => index,
        None => {
            return Err(TableError::DuplicateCodepoint);
        },
    };
    let ghost records = raws_view(raws@);
    let ghost expected = records.map_values(|record: Record| complete(record, records, blocks@));
    proof {
        lemma_indexed(records, index@, 0);
    }
    let mut out: Vec<Codepoint<'a>> = Vec::new();
    let mut i: usize = 0;
    assert(codepoints_view(out@) =~= expected.take(0));
    while i < raws.len()
        invariant
            i <= raws.len(),
            records == raws_view(raws@),
            expected == records.map_values(|record: Record| complete(record, records, blocks@)),
            indexed(codes_of(records), index@),
            codepoints_view(out@) == expected.take(i as int),
        decreases raws.len() - i,
    {
        let ghost before = out@;
        let codepoint = complete_record(&raws, &index, i, blocks);
        out.push(codepoint);
        assert(codepoints_view(out@) =~= codepoints_view(before).push(codepoint@));
        assert(codepoints_view(out@) =~= expected.take(i + 1));
        i += 1;
    }
    proof {
        assert(expected.take(i as int) =~= expected);
        let codes = out@.map_values(|c: Codepoint| c.code);
        assert(codes =~= codes_of(records)) by {
            assert forall|j: int| 0 <= j < codes.len() implies codes[j] == codes_of(records)[j] by {
                assert(codepoints_view(out@)[j] == expected[j]);
            }
        }
    }
    Ok(PropertyDatabase { records: out, index })
}

} // verus!
