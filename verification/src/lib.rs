//! A verified two-pass assembler for the SIC/XE instruction set.
//!
//! The crate parses assembly source lines, resolves labels and literals to
//! absolute addresses (pass one), and emits one hexadecimal object-code
//! string per source line (pass two), choosing between PC-relative,
//! base-relative and extended addressing.

pub mod driver;
pub mod encoder;
pub mod error;
pub mod global_map;
pub mod laws;
pub mod nixbpe;
pub mod parse_utils;
pub mod utils;
