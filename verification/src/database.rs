//! What the library has to say to the store: the statements of a run, and what their
//! answers mean.

pub mod column;
pub mod compare;
pub mod database;
pub mod error;
pub mod evaluate;
pub mod safety;
pub mod statement;
