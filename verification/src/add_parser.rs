use vstd::prelude::*;
use std::ops::Add;
use crate::parse_context::ContextView;
use crate::parse_result::ParseResult;
use crate::parser::{Parser, ParserTrait};
use crate::parser_methods::{and_admits, ParserMethods};

verus! {

impl<A: 'static, B: 'static> Add<Parser<B>> for Parser<A> {
    type Output = Parser<(A, B)>;

    /// `self + parser2` is `self.and(parser2)`.
    fn add(self, parser2: Parser<B>) -> (both: Parser<(A, B)>)
        ensures
            both.wf(),
            forall|
                text: Seq<u8>,
                context: ContextView,
                next: ContextView,
                result: ParseResult<(A, B)>,
            |
                #[trigger] both.admits(text, context, next, result) == and_admits(
                    self,
                    parser2,
                    text,
                    context,
                    next,
                    result,
                ),
    {
        self.and(parser2)
    }
}

impl<A: 'static, B: 'static> vstd::std_specs::ops::AddSpecImpl<Parser<B>> for Parser<A> {
    /// The operator builds a parser, of which only its meaning is stated.
    open spec fn obeys_add_spec() -> bool {
        false
    }

    /// Both operands may be run.
    open spec fn add_req(self, rhs: Parser<B>) -> bool {
        self.wf() && rhs.wf()
    }

    /// Left open: the parser is described by what it admits.
    open spec fn add_spec(self, rhs: Parser<B>) -> Parser<(A, B)> {
        arbitrary()
    }
}

} // verus!
