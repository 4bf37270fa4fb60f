use vstd::prelude::*;

verus! {

/// Outcome of one parse step. The detail of a failure lives in the context
/// that is returned beside the result.
#[derive(Clone, PartialEq, Debug)]
pub enum ParseResult<A> {
    Success { value: A },
    Failure {  },
}

impl<A> ParseResult<A> {
    /// The success with `value`.
    pub fn successful(value: A) -> (result: Self)
        ensures
            result == (ParseResult::Success { value }),
    {
        ParseResult::Success { value }
    }

    /// The failure.
    pub fn failure() -> (result: Self)
        ensures
            result == (ParseResult::<A>::Failure {  }),
    {
        ParseResult::Failure {  }
    }

    /// Applies `f` to the value of a success; a failure stays a failure and
    /// `f` is not called.
    pub fn map<B, F>(self, f: F) -> (result: ParseResult<B>) where F: Fn(A) -> B
        requires
            self matches ParseResult::Success { value } ==> call_requires(f, (value,)),
        ensures
            match self {
                ParseResult::Success { value } => result matches ParseResult::Success {
                    value: mapped,
                } && call_ensures(f, (value,), mapped),
                ParseResult::Failure {  } => result is Failure,
            },
    {
        match self {
            ParseResult::Success { value } => ParseResult::successful(f(value)),
            ParseResult::Failure {  } => ParseResult::Failure {  },
        }
    }
}

} // verus!
