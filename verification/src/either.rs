use vstd::prelude::*;

verus! {

/// A value of one of two types, tagged with the side it came from.
#[derive(Clone, PartialEq, Debug)]
pub enum Either<L, R> {
    Left(L),
    Right(R),
}

} // verus!
