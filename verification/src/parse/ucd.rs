//! The tables of the Unicode Character Database.

pub mod blocks;
pub mod composition_exclusions;
pub mod normalization_tests;
pub mod quick_checks;
pub mod unicode;
