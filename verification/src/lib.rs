//! Symbolic expressions: a parenthesized text format, the tree of an
//! expression, a parser, serializers in several layouts, and the reading
//! of expressions as typed values and back.

pub mod access;
pub mod builder;
pub mod codec;
pub mod decode;
pub mod encode;
pub mod error;
pub mod fitting;
pub mod formatter;
pub mod inverse;
pub mod iteratom;
pub mod parser;
pub mod pretty;
pub mod roundtrip;
pub mod ser;
pub mod sexp;
pub mod text;
pub mod value;

pub use codec::{decode, encode};
pub use decode::DecodeError;
pub use fitting::value_fits;
pub use error::{parse_error, ParseError, SexpError};
pub use formatter::{Formatter, Rules};
pub use iteratom::from_sexp;
pub use sexp::{Sexp, Tree};
pub use text::encode_string;
pub use value::{Payload, Shape, Value};
