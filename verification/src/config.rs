//! The configuration of a run: its analyzers, the expressions of their arguments and
//! conditions, and the rules that a configuration keeps.

pub mod analyzer;
pub mod arguments;
pub mod conditions;
pub mod config;
pub mod error;
pub mod loaded;
pub mod names;
pub mod parser;
