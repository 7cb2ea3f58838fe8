//! Diagnostic notation for CBOR: text in, data item tree out.

pub mod bytes;
pub mod codec;
pub mod float;
pub mod grammar;
pub mod item;
pub mod laws;
pub mod lexical;
pub mod number;
pub mod parse;
pub mod simple;
pub mod text;

pub use item::{
    ByteString, DataItem, FloatValue, FloatWidth, IntegerWidth, Simple, Tag, TextString,
};
pub use parse::{parse_diag, ErrorKind, Label, ParseError};
