use vstd::prelude::*;
use std::ops::BitOr;
use crate::parse_context::ContextView;
use crate::parse_result::ParseResult;
use crate::parser::{Parser, ParserTrait};
use crate::parser_methods::{or_admits, ParserMethods};

verus! {

impl<A: 'static> BitOr<Parser<A>> for Parser<A> {
    type Output = Parser<A>;

    /// `self | parser2` is `self.or(parser2)`.
    fn bitor(self, parser2: Parser<A>) -> (choice: Parser<A>)
        ensures
            choice.wf(),
            forall|text: Seq<u8>, context: ContextView, next: ContextView, result: ParseResult<A>|
                #[trigger] choice.admits(text, context, next, result) == or_admits(
                    self,
                    parser2,
                    text,
                    context,
                    next,
                    result,
                ),
    {
        self.or(parser2)
    }
}

impl<A: 'static> vstd::std_specs::ops::BitOrSpecImpl<Parser<A>> for Parser<A> {
    /// The operator builds a parser, of which only its meaning is stated.
    open spec fn obeys_bitor_spec() -> bool {
        false
    }

    /// Both operands may be run.
    open spec fn bitor_req(self, rhs: Parser<A>) -> bool {
        self.wf() && rhs.wf()
    }

    /// Left open: the parser is described by what it admits.
    open spec fn bitor_spec(self, rhs: Parser<A>) -> Parser<A> {
        arbitrary()
    }
}

} // verus!
