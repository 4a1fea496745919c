//! Decoding and filtering of IAB TCF v1 GDPR consent strings.

pub mod ast;
pub mod base64;
pub mod bits;
pub mod chart;
pub mod consent;
pub mod lexer;
pub mod parser;
pub mod summary;

pub use base64::{decode, DecodeError};
pub use bits::BitDecoder;
pub use chart::vendor_chart;
pub use ast::{Expr, Field, Opcode, QueryError, Value};
pub use consent::{ConsentString, Purpose, Purposes, Timestamp};
pub use lexer::{tokenize, Lexeme, ParseError, Token};
pub use parser::parse_query;
pub use summary::SConsentString;
