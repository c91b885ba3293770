//! The collation element tables: the default table of the Unicode Collation
//! Algorithm and its adaptation for the root locale of CLDR.

pub mod allkeys;
pub mod collation_test;
pub mod fractional_uca;
pub mod implicit;
pub mod trie;
