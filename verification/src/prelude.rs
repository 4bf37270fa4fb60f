//! The modules of the library under one path.

pub use crate::add_parser;
pub use crate::bidor_parser;
pub use crate::common_parsers;
pub use crate::either;
pub use crate::error;
pub use crate::laws;
pub use crate::parse_context;
pub use crate::parse_error;
pub use crate::parse_errors;
pub use crate::parse_result;
pub use crate::parser;
pub use crate::parser_input;
pub use crate::parser_methods;
