//! The kind of a compatibility decomposition.

use crate::text;
use vstd::prelude::*;

verus! {

/// The tag of a compatibility decomposition: how the character differs from what it decomposes to.
#[derive(Debug, Clone, Copy, PartialEq, Eq, Structural)]
pub enum DecompositionTag {
    /// a font variant (`<font>`)
    Font,
    /// a no-break version of a space or hyphen (`<noBreak>`)
    NoBreak,
    /// an initial presentation form (`<initial>`)
    Initial,
    /// a medial presentation form (`<medial>`)
    Medial,
    /// a final presentation form (`<final>`)
    Final,
    /// an isolated presentation form (`<isolated>`)
    Isolated,
    /// an encircled form (`<circle>`)
    Circle,
    /// a superscript form (`<super>`)
    Super,
    /// a subscript form (`<sub>`)
    Sub,
    /// a vertical layout presentation form (`<vertical>`)
    Vertical,
    /// a wide compatibility character (`<wide>`)
    Wide,
    /// a narrow compatibility character (`<narrow>`)
    Narrow,
    /// a small variant form (`<small>`)
    Small,
    /// a squared font variant (`<square>`)
    Square,
    /// a vulgar fraction form (`<fraction>`)
    Fraction,
    /// another compatibility character (`<compat>`)
    Compat,
}

/// The tag that a word in angle brackets names.
pub open spec fn decomposition_tag_of(word: Seq<char>) -> Option<DecompositionTag> {
    if word == "<font>"@ {
        Some(DecompositionTag::Font)
    } else if word == "<noBreak>"@ {
        Some(DecompositionTag::NoBreak)
    } else if word == "<initial>"@ {
        Some(DecompositionTag::Initial)
    } else if word == "<medial>"@ {
        Some(DecompositionTag::Medial)
    } else if word == "<final>"@ {
        Some(DecompositionTag::Final)
    } else if word == "<isolated>"@ {
        Some(DecompositionTag::Isolated)
    } else if word == "<circle>"@ {
        Some(DecompositionTag::Circle)
    } else if word == "<super>"@ {
        Some(DecompositionTag::Super)
    } else if word == "<sub>"@ {
        Some(DecompositionTag::Sub)
    } else if word == "<vertical>"@ {
        Some(DecompositionTag::Vertical)
    } else if word == "<wide>"@ {
        Some(DecompositionTag::Wide)
    } else if word == "<narrow>"@ {
        Some(DecompositionTag::Narrow)
    } else if word == "<small>"@ {
        Some(DecompositionTag::Small)
    } else if word == "<square>"@ {
        Some(DecompositionTag::Square)
    } else if word == "<fraction>"@ {
        Some(DecompositionTag::Fraction)
    } else if word == "<compat>"@ {
        Some(DecompositionTag::Compat)
    } else {
        None
    }
}

/// The tag that a word in angle brackets names.
pub fn parse_decomposition_tag(word: &[char]) -> (r: Option<DecompositionTag>)
    ensures
        r == decomposition_tag_of(word@),
{
    if text::is(word, "<font>") {
        Some(DecompositionTag::Font)
    } else if text::is(word, "<noBreak>") {
        Some(DecompositionTag::NoBreak)
    } else if text::is(word, "<initial>") {
        Some(DecompositionTag::Initial)
    } else if text::is(word, "<medial>") {
        Some(DecompositionTag::Medial)
    } else if text::is(word, "<final>") {
        Some(DecompositionTag::Final)
    } else if text::is(word, "<isolated>") {
        Some(DecompositionTag::Isolated)
    } else if text::is(word, "<circle>") {
        Some(DecompositionTag::Circle)
    } else if text::is(word, "<super>") {
        Some(DecompositionTag::Super)
    } else if text::is(word, "<sub>") {
        Some(DecompositionTag::Sub)
    } else if text::is(word, "<vertical>") {
        Some(DecompositionTag::Vertical)
    } else if text::is(word, "<wide>") {
        Some(DecompositionTag::Wide)
    } else if text::is(word, "<narrow>") {
        Some(DecompositionTag::Narrow)
    } else if text::is(word, "<small>") {
        Some(DecompositionTag::Small)
    } else if text::is(word, "<square>") {
        Some(DecompositionTag::Square)
    } else if text::is(word, "<fraction>") {
        Some(DecompositionTag::Fraction)
    } else if text::is(word, "<compat>") {
        Some(DecompositionTag::Compat)
    } else {
        None
    }
}

} // verus!
