//! The conditional analyzer pipeline of a firmware analysis: the expression language of
//! the configuration and its parser, the compilation of accessors to statements for the
//! store, the evaluation of conditions and the gathering of arguments from what the
//! store answers, and the order in which the analyzers are run on each entry of the
//! firmware tree.
//!
//! The library touches neither the file system nor the store nor the analyzers. It
//! tells the program around it what to do next, and takes in what came of it.

pub mod config;
pub mod database;
pub mod gateway;
pub mod json;
pub mod text;
