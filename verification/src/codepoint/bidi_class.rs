//! The bidirectional class of a code point.

use crate::text;
use vstd::prelude::*;

verus! {

/// The bidirectional class of a code point.
#[derive(Debug, Clone, Copy, PartialEq, Eq, Structural)]
pub enum BidiClass {
    /// a strong left-to-right character (`L`)
    LeftToRight,
    /// a strong right-to-left character (`R`)
    RightToLeft,
    /// a strong right-to-left Arabic character (`AL`)
    ArabicLetter,
    /// a European digit (`EN`)
    EuropeanNumber,
    /// a plus or minus sign (`ES`)
    EuropeanSeparator,
    /// a terminator of a European number (`ET`)
    EuropeanTerminator,
    /// an Arabic-Indic digit (`AN`)
    ArabicNumber,
    /// a separator common to numbers (`CS`)
    CommonSeparator,
    /// a nonspacing mark (`NSM`)
    NonspacingMark,
    /// a default ignorable of most kinds (`BN`)
    BoundaryNeutral,
    /// a paragraph separator (`B`)
    ParagraphSeparator,
    /// a segment separator (`S`)
    SegmentSeparator,
    /// white space (`WS`)
    WhiteSpace,
    /// a neutral of another kind (`ON`)
    OtherNeutral,
    /// the left-to-right embedding (`LRE`)
    LeftToRightEmbedding,
    /// the left-to-right override (`LRO`)
    LeftToRightOverride,
    /// the right-to-left embedding (`RLE`)
    RightToLeftEmbedding,
    /// the right-to-left override (`RLO`)
    RightToLeftOverride,
    /// the end of an embedding or override (`PDF`)
    PopDirectionalFormat,
    /// the left-to-right isolate (`LRI`)
    LeftToRightIsolate,
    /// the right-to-left isolate (`RLI`)
    RightToLeftIsolate,
    /// the first-strong isolate (`FSI`)
    FirstStrongIsolate,
    /// the end of an isolate (`PDI`)
    PopDirectionalIsolate,
}

/// The class that an abbreviation names.
pub open spec fn bidi_class_of(word: Seq<char>) -> Option<BidiClass> {
    if word == "L"@ {
        Some(BidiClass::LeftToRight)
    } else if word == "R"@ {
        Some(BidiClass::RightToLeft)
    } else if word == "AL"@ {
        Some(BidiClass::ArabicLetter)
    } else if word == "EN"@ {
        Some(BidiClass::EuropeanNumber)
    } else if word == "ES"@ {
        Some(BidiClass::EuropeanSeparator)
    } else if word == "ET"@ {
        Some(BidiClass::EuropeanTerminator)
    } else if word == "AN"@ {
        Some(BidiClass::ArabicNumber)
    } else if word == "CS"@ {
        Some(BidiClass::CommonSeparator)
    } else if word == "NSM"@ {
        Some(BidiClass::NonspacingMark)
    } else if word == "BN"@ {
        Some(BidiClass::BoundaryNeutral)
    } else if word == "B"@ {
        Some(BidiClass::ParagraphSeparator)
    } else if word == "S"@ {
        Some(BidiClass::SegmentSeparator)
    } else if word == "WS"@ {
        Some(BidiClass::WhiteSpace)
    } else if word == "ON"@ {
        Some(BidiClass::OtherNeutral)
    } else if word == "LRE"@ {
        Some(BidiClass::LeftToRightEmbedding)
    } else if word == "LRO"@ {
        Some(BidiClass::LeftToRightOverride)
    } else if word == "RLE"@ {
        Some(BidiClass::RightToLeftEmbedding)
    } else if word == "RLO"@ {
        Some(BidiClass::RightToLeftOverride)
    } else if word == "PDF"@ {
        Some(BidiClass::PopDirectionalFormat)
    } else if word == "LRI"@ {
        Some(BidiClass::LeftToRightIsolate)
    } else if word == "RLI"@ {
        Some(BidiClass::RightToLeftIsolate)
    } else if word == "FSI"@ {
        Some(BidiClass::FirstStrongIsolate)
    } else if word == "PDI"@ {
        Some(BidiClass::PopDirectionalIsolate)
    } else {
        None
    }
}

/// The class that an abbreviation names.
pub fn parse_bidi_class(word: &[char]) -> (r: Option<BidiClass>)
    ensures
        r == bidi_class_of(word@),
{
    if text::is(word, "L") {
        Some(BidiClass::LeftToRight)
    } else if text::is(word, "R") {
        Some(BidiClass::RightToLeft)
    } else if text::is(word, "AL") {
        Some(BidiClass::ArabicLetter)
    } else if text::is(word, "EN") {
        Some(BidiClass::EuropeanNumber)
    } else if text::is(word, "ES") {
        Some(BidiClass::EuropeanSeparator)
    } else if text::is(word, "ET") {
        Some(BidiClass::EuropeanTerminator)
    } else if text::is(word, "AN") {
        Some(BidiClass::ArabicNumber)
    } else if text::is(word, "CS") {
        Some(BidiClass::CommonSeparator)
    } else if text::is(word, "NSM") {
        Some(BidiClass::NonspacingMark)
    } else if text::is(word, "BN") {
        Some(BidiClass::BoundaryNeutral)
    } else if text::is(word, "B") {
        Some(BidiClass::ParagraphSeparator)
    } else if text::is(word, "S") {
        Some(BidiClass::SegmentSeparator)
    } else if text::is(word, "WS") {
        Some(BidiClass::WhiteSpace)
    } else if text::is(word, "ON") {
        Some(BidiClass::OtherNeutral)
    } else if text::is(word, "LRE") {
        Some(BidiClass::LeftToRightEmbedding)
    } else if text::is(word, "LRO") {
        Some(BidiClass::LeftToRightOverride)
    } else if text::is(word, "RLE") {
        Some(BidiClass::RightToLeftEmbedding)
    } else if text::is(word, "RLO") {
        Some(BidiClass::RightToLeftOverride)
    } else if text::is(word, "PDF") {
        Some(BidiClass::PopDirectionalFormat)
    } else if text::is(word, "LRI") {
        Some(BidiClass::LeftToRightIsolate)
    } else if text::is(word, "RLI") {
        Some(BidiClass::RightToLeftIsolate)
    } else if text::is(word, "FSI") {
        Some(BidiClass::FirstStrongIsolate)
    } else if text::is(word, "PDI") {
        Some(BidiClass::PopDirectionalIsolate)
    } else {
        None
    }
}

} // verus!
