//! A code point and its properties.

use crate::codepoint::bidi_class::BidiClass;
use crate::codepoint::canonical_combining_class::CanonicalCombiningClass;
use crate::codepoint::decomposition::DecompositionTag;
use crate::codepoint::general_category::GeneralCategory;
use crate::parse::ucd::blocks::{CodepointsBlock, CodepointsBlockView};
use crate::parse::ucd::composition_exclusions::CompositionExclusions;
use vstd::prelude::*;

pub mod bidi_class;
pub mod canonical_combining_class;
pub mod conversions;
pub mod decomposition;
pub mod general_category;

verus! {

/// Whether a code point stands for a number, and how it is written.
#[derive(Debug, Clone, Copy, PartialEq, Eq, Structural)]
pub enum NumericType {
    /// The code point stands for no number.
    NotNumeric,
    /// A digit of a decimal system, with the value of the digit.
    Decimal(u8),
    /// A digit in another use, such as a superscript, with its value.
    Digit(u8),
    /// A number of another kind, such as a fraction or a number above nine.
    Numeric,
}

/// Whether a character is shown mirrored in text that runs from right to
/// left.
#[derive(Debug, Clone, Copy, PartialEq, Eq, Structural)]
pub struct BidiMirrored(pub bool);

/// The one code point that a character maps to in another case, if there
/// is one.
#[derive(Debug, Clone, Copy, PartialEq, Eq, Structural)]
pub struct SimpleCaseMapping(pub Option<u32>);

/// An assigned code point with its properties, as the character database
/// gives them.
#[derive(Debug, Clone)]
pub struct Codepoint<'a> {
    pub code: u32,
    pub name: String,
    pub gc: GeneralCategory,
    pub ccc: CanonicalCombiningClass,
    pub bc: BidiClass,
    pub numeric: NumericType,
    pub bidi_mirrored: BidiMirrored,
    pub simple_uppercase_mapping: SimpleCaseMapping,
    pub simple_lowercase_mapping: SimpleCaseMapping,
    pub simple_titlecase_mapping: SimpleCaseMapping,
    /// The tag of the decomposition. A decomposition without a tag is
    /// canonical, one with a tag is a compatibility decomposition.
    pub decomposition_tag: Option<DecompositionTag>,
    /// The decomposition as the database gives it, empty where the code
    /// point has none.
    pub decomposition: Vec<u32>,
    /// The canonical decomposition, decomposed in its turn as far as it
    /// goes.
    pub canonical_decomposition: Vec<u32>,
    /// The compatibility decomposition, decomposed in its turn as far as
    /// it goes.
    pub compat_decomposition: Vec<u32>,
    /// The block in which the code point lies.
    pub block: Option<&'a CodepointsBlock>,
}

/// What a [`Codepoint`] holds.
pub struct CodepointView {
    pub code: u32,
    pub name: Seq<char>,
    pub gc: GeneralCategory,
    pub ccc: CanonicalCombiningClass,
    pub bc: BidiClass,
    pub numeric: NumericType,
    pub bidi_mirrored: BidiMirrored,
    pub simple_uppercase_mapping: SimpleCaseMapping,
    pub simple_lowercase_mapping: SimpleCaseMapping,
    pub simple_titlecase_mapping: SimpleCaseMapping,
    pub decomposition_tag: Option<DecompositionTag>,
    pub decomposition: Seq<u32>,
    pub canonical_decomposition: Seq<u32>,
    pub compat_decomposition: Seq<u32>,
    pub block: Option<CodepointsBlockView>,
}

impl<'a> View for Codepoint<'a> {
    type V = CodepointView;

    open spec fn view(&self) -> CodepointView {
        CodepointView {
            code: self.code,
            name: self.name@,
            gc: self.gc,
            ccc: self.ccc,
            bc: self.bc,
            numeric: self.numeric,
            bidi_mirrored: self.bidi_mirrored,
            simple_uppercase_mapping: self.simple_uppercase_mapping,
            simple_lowercase_mapping: self.simple_lowercase_mapping,
            simple_titlecase_mapping: self.simple_titlecase_mapping,
            decomposition_tag: self.decomposition_tag,
            decomposition: self.decomposition@,
            canonical_decomposition: self.canonical_decomposition@,
            compat_decomposition: self.compat_decomposition@,
            block: match self.block {
                Some(block) => Some(block@),
                None => None,
            },
        }
    }
}

impl<'a> Codepoint<'a> {
    /// Whether the code point starts a combining sequence.
    pub fn is_starter(&self) -> (r: bool)
        ensures
            r == (self.ccc.0 == 0),
    {
        self.ccc.is_starter()
    }

    /// Whether the code point is reordered after a starter.
    pub fn is_nonstarter(&self) -> (r: bool)
        ensures
            r == (self.ccc.0 != 0),
    {
        self.ccc.is_nonstarter()
    }

    /// Whether the code point has a canonical decomposition.
    pub fn has_canonical_decomposition(&self) -> (r: bool)
        ensures
            r == (self.decomposition_tag is None && self.decomposition@.len() > 0),
    {
        self.decomposition_tag.is_none() && self.decomposition.len() > 0
    }

    /// Whether the code point has a compatibility decomposition.
    pub fn has_compat_decomposition(&self) -> (r: bool)
        ensures
            r == (self.decomposition_tag is Some && self.decomposition@.len() > 0),
    {
        self.decomposition_tag.is_some() && self.decomposition.len() > 0
    }

    /// Whether canonical composition never produces the code point.
    pub fn is_composition_exclusion(&self, exclusions: &CompositionExclusions) -> (r: bool)
        ensures
            r == exclusions@.contains(self.code),
    {
        crate::parse::ucd::composition_exclusions::is_composition_exclusion(exclusions, self.code)
    }
}

/// Why a value of a property could not be had.
#[derive(Debug, Clone, Copy, PartialEq, Eq, Structural)]
pub enum PropertiesError {
    /// The text names no value of the property, or the value is not one
    /// that the database holds.
    UnknownPropertyValue,
}

/// The error with which the standard library refuses a numeral,
/// `core::num::ParseIntError`. The type is only named here: nothing is
/// read from a value of it, and nothing is believed of one.
#[verifier::external_type_specification]
#[verifier::external_body]
pub struct ExParseIntError(core::num::ParseIntError);

/// A numeral that the standard library refuses names no value.
impl From<core::num::ParseIntError> for PropertiesError {
    fn from(error: core::num::ParseIntError) -> (r: Self) {
        PropertiesError::UnknownPropertyValue
    }
}

impl vstd::std_specs::convert::FromSpecImpl<core::num::ParseIntError> for PropertiesError {
    open spec fn obeys_from_spec() -> bool {
        true
    }

    open spec fn from_spec(error: core::num::ParseIntError) -> Self {
        PropertiesError::UnknownPropertyValue
    }
}

} // verus!
