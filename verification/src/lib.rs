//! Decoder for the TinyVG binary vector-graphics format.
//!
//! TinyVG is a compact binary container for 2D vector images: a fixed
//! header, a color table, and a stream of drawing commands that refer to
//! those colors by index. This crate parses such a byte stream into a
//! fully materialized in-memory representation and proves, among other
//! things, that every color index of a successfully parsed image lies
//! inside its color table and that every path segment holds exactly as
//! many instructions as the stream declared.

pub mod error;
pub mod format;
pub mod parser;
pub mod reader;

pub use error::ErrorKind;
pub use error::ParseError;
pub use format::Image;
pub use parser::Parser;
