//! The general category of a code point.

use crate::text;
use vstd::prelude::*;

verus! {

/// The general category of a code point.
#[derive(Debug, Clone, Copy, PartialEq, Eq, Structural)]
pub enum GeneralCategory {
    /// an uppercase letter (`Lu`)
    UppercaseLetter,
    /// a lowercase letter (`Ll`)
    LowercaseLetter,
    /// a digraph with its first part in upper case (`Lt`)
    TitlecaseLetter,
    /// a modifier letter (`Lm`)
    ModifierLetter,
    /// another letter, such as a syllable or an ideograph (`Lo`)
    OtherLetter,
    /// a combining mark without width (`Mn`)
    NonspacingMark,
    /// a combining mark with width (`Mc`)
    SpacingMark,
    /// an enclosing combining mark (`Me`)
    EnclosingMark,
    /// a decimal digit (`Nd`)
    DecimalNumber,
    /// a number written as a letter (`Nl`)
    LetterNumber,
    /// a number of another kind (`No`)
    OtherNumber,
    /// a connecting punctuation mark (`Pc`)
    ConnectorPunctuation,
    /// a dash or hyphen (`Pd`)
    DashPunctuation,
    /// an opening bracket (`Ps`)
    OpenPunctuation,
    /// a closing bracket (`Pe`)
    ClosePunctuation,
    /// an opening quotation mark (`Pi`)
    InitialPunctuation,
    /// a closing quotation mark (`Pf`)
    FinalPunctuation,
    /// a punctuation mark of another kind (`Po`)
    OtherPunctuation,
    /// a mathematical symbol (`Sm`)
    MathSymbol,
    /// a currency sign (`Sc`)
    CurrencySymbol,
    /// a modifier symbol (`Sk`)
    ModifierSymbol,
    /// a symbol of another kind (`So`)
    OtherSymbol,
    /// a space (`Zs`)
    SpaceSeparator,
    /// the line separator (`Zl`)
    LineSeparator,
    /// the paragraph separator (`Zp`)
    ParagraphSeparator,
    /// a control code (`Cc`)
    Control,
    /// a format control character (`Cf`)
    Format,
    /// a surrogate code point (`Cs`)
    Surrogate,
    /// a private-use code point (`Co`)
    PrivateUse,
    /// a reserved or noncharacter code point (`Cn`)
    Unassigned,
}

/// The category that an abbreviation names.
pub open spec fn general_category_of(word: Seq<char>) -> Option<GeneralCategory> {
    if word == "Lu"@ {
        Some(GeneralCategory::UppercaseLetter)
    } else if word == "Ll"@ {
        Some(GeneralCategory::LowercaseLetter)
    } else if word == "Lt"@ {
        Some(GeneralCategory::TitlecaseLetter)
    } else if word == "Lm"@ {
        Some(GeneralCategory::ModifierLetter)
    } else if word == "Lo"@ {
        Some(GeneralCategory::OtherLetter)
    } else if word == "Mn"@ {
        Some(GeneralCategory::NonspacingMark)
    } else if word == "Mc"@ {
        Some(GeneralCategory::SpacingMark)
    } else if word == "Me"@ {
        Some(GeneralCategory::EnclosingMark)
    } else if word == "Nd"@ {
        Some(GeneralCategory::DecimalNumber)
    } else if word == "Nl"@ {
        Some(GeneralCategory::LetterNumber)
    } else if word == "No"@ {
        Some(GeneralCategory::OtherNumber)
    } else if word == "Pc"@ {
        Some(GeneralCategory::ConnectorPunctuation)
    } else if word == "Pd"@ {
        Some(GeneralCategory::DashPunctuation)
    } else if word == "Ps"@ {
        Some(GeneralCategory::OpenPunctuation)
    } else if word == "Pe"@ {
        Some(GeneralCategory::ClosePunctuation)
    } else if word == "Pi"@ {
        Some(GeneralCategory::InitialPunctuation)
    } else if word == "Pf"@ {
        Some(GeneralCategory::FinalPunctuation)
    } else if word == "Po"@ {
        Some(GeneralCategory::OtherPunctuation)
    } else if word == "Sm"@ {
        Some(GeneralCategory::MathSymbol)
    } else if word == "Sc"@ {
        Some(GeneralCategory::CurrencySymbol)
    } else if word == "Sk"@ {
        Some(GeneralCategory::ModifierSymbol)
    } else if word == "So"@ {
        Some(GeneralCategory::OtherSymbol)
    } else if word == "Zs"@ {
        Some(GeneralCategory::SpaceSeparator)
    } else if word == "Zl"@ {
        Some(GeneralCategory::LineSeparator)
    } else if word == "Zp"@ {
        Some(GeneralCategory::ParagraphSeparator)
    } else if word == "Cc"@ {
        Some(GeneralCategory::Control)
    } else if word == "Cf"@ {
        Some(GeneralCategory::Format)
    } else if word == "Cs"@ {
        Some(GeneralCategory::Surrogate)
    } else if word == "Co"@ {
        Some(GeneralCategory::PrivateUse)
    } else if word == "Cn"@ {
        Some(GeneralCategory::Unassigned)
    } else {
        None
    }
}

/// The category that an abbreviation names.
pub fn parse_general_category(word: &[char]) -> (r: Option<GeneralCategory>)
    ensures
        r == general_category_of(word@),
{
    if text::is(word, "Lu") {
        Some(GeneralCategory::UppercaseLetter)
    } else if text::is(word, "Ll") {
        Some(GeneralCategory::LowercaseLetter)
    } else if text::is(word, "Lt") {
        Some(GeneralCategory::TitlecaseLetter)
    } else if text::is(word, "Lm") {
        Some(GeneralCategory::ModifierLetter)
    } else if text::is(word, "Lo") {
        Some(GeneralCategory::OtherLetter)
    } else if text::is(word, "Mn") {
        Some(GeneralCategory::NonspacingMark)
    } else if text::is(word, "Mc") {
        Some(GeneralCategory::SpacingMark)
    } else if text::is(word, "Me") {
        Some(GeneralCategory::EnclosingMark)
    } else if text::is(word, "Nd") {
        Some(GeneralCategory::DecimalNumber)
    } else if text::is(word, "Nl") {
        Some(GeneralCategory::LetterNumber)
    } else if text::is(word, "No") {
        Some(GeneralCategory::OtherNumber)
    } else if text::is(word, "Pc") {
        Some(GeneralCategory::ConnectorPunctuation)
    } else if text::is(word, "Pd") {
        Some(GeneralCategory::DashPunctuation)
    } else if text::is(word, "Ps") {
        Some(GeneralCategory::OpenPunctuation)
    } else if text::is(word, "Pe") {
        Some(GeneralCategory::ClosePunctuation)
    } else if text::is(word, "Pi") {
        Some(GeneralCategory::InitialPunctuation)
    } else if text::is(word, "Pf") {
        Some(GeneralCategory::FinalPunctuation)
    } else if text::is(word, "Po") {
        Some(GeneralCategory::OtherPunctuation)
    } else if text::is(word, "Sm") {
        Some(GeneralCategory::MathSymbol)
    } else if text::is(word, "Sc") {
        Some(GeneralCategory::CurrencySymbol)
    } else if text::is(word, "Sk") {
        Some(GeneralCategory::ModifierSymbol)
    } else if text::is(word, "So") {
        Some(GeneralCategory::OtherSymbol)
    } else if text::is(word, "Zs") {
        Some(GeneralCategory::SpaceSeparator)
    } else if text::is(word, "Zl") {
        Some(GeneralCategory::LineSeparator)
    } else if text::is(word, "Zp") {
        Some(GeneralCategory::ParagraphSeparator)
    } else if text::is(word, "Cc") {
        Some(GeneralCategory::Control)
    } else if text::is(word, "Cf") {
        Some(GeneralCategory::Format)
    } else if text::is(word, "Cs") {
        Some(GeneralCategory::Surrogate)
    } else if text::is(word, "Co") {
        Some(GeneralCategory::PrivateUse)
    } else if text::is(word, "Cn") {
        Some(GeneralCategory::Unassigned)
    } else {
        None
    }
}

} // verus!
