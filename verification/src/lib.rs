//! Decoding layer for a line-oriented, section-delimited chart text format.
//!
//! Given the already-split lines of one section, the library produces a typed
//! record or fails with a structured error.  Metadata sections (`Key: Value`
//! lines) are decoded by a declarative, table-driven field decoder; the data
//! section (comma-delimited records) is decoded by a per-line entity decoder
//! that dispatches on a type discriminant.

pub mod data;
pub mod fields;
pub mod parsing;
pub mod scalars;
pub mod text;
