//! The expression language: its values, its grammar, its parsers and its printer.

pub mod arguments_parser;
pub mod base_parser;
pub mod conditions_parser;
pub mod parser_type;
pub mod printer;
pub mod round_trip;
