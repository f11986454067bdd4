//! The ways of running an analyzer.

pub mod dispatcher;
pub mod error;
