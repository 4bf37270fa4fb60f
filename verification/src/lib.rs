//! A parser-combinator engine: small parsers over a byte stream are composed
//! into larger ones by sequencing, ordered choice and repetition, while a
//! context carries the cursor and the furthest failure seen so far.

pub mod add_parser;
pub mod bidor_parser;
pub mod common_parsers;
pub mod either;
pub mod error;
pub mod laws;
pub mod parse_context;
pub mod parse_error;
pub mod parse_errors;
pub mod parse_result;
pub mod parser;
pub mod parser_input;
pub mod parser_methods;
pub mod prelude;
