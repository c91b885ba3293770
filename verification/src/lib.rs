//! Tables of Unicode character properties and collation weights, built from
//! the text of the Unicode data files, together with the lookups that text
//! normalization and collation are built on.

pub mod codepoint;
pub mod parse;
pub mod text;
