//! A reader for glyph description files: one XML document per glyph.
//!
//! [`parse_glif`] reads a document in one pass and gives the glyph that it
//! describes, or the first failure on the way. Tokenizing is the work of
//! quick-xml, and the property dictionary of a glyph is parsed by the plist
//! crate; the rules of the format are this library's own, and are proved.
//!
//! Numbers are kept as the texts that spell them: a [`Number`] is a text
//! that follows the grammar of floating-point numbers, and stands for the
//! number that it spells.

pub mod dictionary;
pub mod elements;
pub mod error;
pub mod glyph;
pub mod identifier;
pub mod laws;
pub mod machine;
pub mod number;
pub mod parser;
pub mod primitive;
pub mod xml;

pub use error::{Error, ErrorKind};
pub use glyph::{AffineTransform, Anchor, GlifVersion, Glyph, Guideline, Image, Line};
pub use identifier::Identifier;
pub use number::Number;
pub use parser::parse_glif;
pub use primitive::{parse_codepoint, Color};
