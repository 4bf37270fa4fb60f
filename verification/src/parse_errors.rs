use vstd::prelude::*;
use crate::parse_error::{trees, ErrorTree, ParseError};

verus! {

/// A run of failures, in the order in which they were met.
#[derive(Debug)]
pub struct ParseErrors {
    pub errors: Vec<ParseError>,
}

impl View for ParseErrors {
    type V = Seq<ErrorTree>;

    open spec fn view(&self) -> Seq<ErrorTree> {
        trees(self.errors@)
    }
}

} // verus!
