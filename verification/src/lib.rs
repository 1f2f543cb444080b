//! A verified parser and canonical serializer for the BLK hierarchical
//! configuration format: semicolon- or newline-terminated entries, where an
//! entry is either a typed property (`key:tag=value`) or a named section
//! holding a nested block of entries.
//!
//! Deeply nested input is parsed by call-stack recursion; pathologically deep
//! nesting can exhaust the stack of the host process.

pub mod ast;
pub mod laws;
pub mod lex;
pub mod num;
pub mod parse;
pub mod ser;
pub mod strutil;

pub use ast::{
    BlkBlock, BlkConfig, BlkEntry, BlkProperty, BlkPropertyValue, BlkSection, EntryV, ParseError,
    ParseErrorKind, PropertyV, SectionV, ValueV,
};
pub use laws::canonicalize;
pub use parse::{parse_config, BlkType};
pub use ser::stringify_config;
