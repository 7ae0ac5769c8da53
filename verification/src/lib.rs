//! A small JSON reader: text in, a tree of tagged values or a typed error out.
//!
//! [`JsonParser::parse`] reads exactly one document by recursive descent. The
//! numbers it reads are signed 64-bit integers, saturated at the bounds of that
//! type; strings have their escape sequences decoded; arrays and objects may
//! nest only as deep as the caller allows.
//!
//! What the parser returns, and where it leaves its cursor, is for every text
//! the value of the function [`grammar::document`]. On top of that the crate
//! proves what this function means:
//!
//! - [`cursor`]: the cursor never moves back and never leaves the text.
//! - [`tokens`]: an integer written in decimal digits is read as itself.
//! - [`syntax`] describes documents as trees of tokens with whitespace between
//!   them. [`roundtrip`] shows that the text of such a tree is read as the value
//!   of its tokens, or refused with `DepthExceeded` if the tree nests too deep,
//!   and [`parse_tree`] that every text that is read is the text of such a tree.
//! - [`whitespace`]: documents that differ only in the whitespace between their
//!   tokens are read alike.

pub mod cursor;
pub mod error;
pub mod grammar;
pub mod parse_tree;
pub mod parser;
pub mod roundtrip;
pub mod syntax;
pub mod tokens;
pub mod value;
pub mod whitespace;

pub use error::ParserError;
pub use parser::JsonParser;
pub use value::JsonValue;
