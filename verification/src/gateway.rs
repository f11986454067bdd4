//! The work on the entries of a firmware tree.

pub mod dispatcher;
pub mod error;
pub mod gateway;
pub mod prepared;
pub mod walk;
