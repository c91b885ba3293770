//! The default collation element table as its source gives it.

pub mod allkeys;
