//! The arguments of an analyzer.

use crate::config::parser::parser_type::{Access, AccessView};
use vstd::prelude::*;

verus! {

/// One argument of an analyzer: the accessor whose value is handed to it.
#[derive(Debug, PartialEq)]
pub struct Argument {
    pub value: Access,
}

impl View for Argument {
    type V = AccessView;

    open spec fn view(&self) -> AccessView {
        self.value@
    }
}

} // verus!
