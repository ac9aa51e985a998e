//! Normalisation of the raw syntactic forms produced by the grammar of a
//! configuration language: field paths, piecewise record definitions,
//! metadata annotations and indented multi-line strings.

pub mod position;
pub mod term;
pub mod strings;
pub mod combine;
pub mod records;
pub mod utils;
