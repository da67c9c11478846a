//! A recursive-descent parser for JSON text.
//!
//! The parser reads a byte buffer and produces a tree of [`Value`] nodes,
//! validating the grammar (structure, string escapes, numeric literals)
//! without interpreting the data any further.  Every parsing function is
//! specified against a mathematical model of the grammar in [`grammar`],
//! and verified to return exactly what that model prescribes.

pub mod ast;
pub mod grammar;
pub mod laws;
mod parser;

pub use ast::{ErrKind, Member, ParseError, Value};
pub use parser::{escaped_hex, json};
