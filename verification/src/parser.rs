use vstd::prelude::*;
use std::rc::Rc;
use crate::parse_context::{ContextView, ParseContext};
use crate::parse_result::ParseResult;
use crate::parser_input::ParserInput;

verus! {

/// One parse step with its meaning. `admits` is the relation between the
/// text, the context a step starts from, and the context and result it may
/// end with; `run` is held to it on every in-memory text.
pub trait ParseStep<A> {
    /// Whether the step may be run.
    spec fn wf(&self) -> bool;

    /// Whether, on `text`, the step may lead from `context` to `next` with
    /// `result`.
    spec fn admits(
        &self,
        text: Seq<u8>,
        context: ContextView,
        next: ContextView,
        result: ParseResult<A>,
    ) -> bool;

    /// Runs the step on `input` from `context`. The input stays the text or
    /// stream it was; of a stream only the window may move.
    fn run(&self, input: &mut ParserInput, context: &ParseContext) -> (out: (
        ParseContext,
        ParseResult<A>,
    ))
        requires
            self.wf(),
            old(input).wf(),
        ensures
            final(input).wf(),
            final(input).same_stream(old(input)),
            old(input).content() matches Some(text) ==> self.admits(
                text,
                context@,
                out.0@,
                out.1,
            ),
    ;
}

/// A reusable parse step that yields an `A`. Composition never changes a
/// parser: it builds a new one that shares the old.
#[verifier::reject_recursive_types(A)]
pub struct Parser<A> {
    pub parse: Rc<Box<dyn ParseStep<A>>>,
}

/// What every parser offers: it can be run, and it has a meaning to be run
/// against.
pub trait ParserTrait {
    type Output;

    /// Whether the parser may be run at all: every function it was built
    /// from accepts every argument.
    spec fn wf(&self) -> bool;

    /// Whether, on `text`, a run from `context` may end in `next` with
    /// `result`.
    spec fn admits(
        &self,
        text: Seq<u8>,
        context: ContextView,
        next: ContextView,
        result: ParseResult<Self::Output>,
    ) -> bool;

    /// Runs the parser on `input` from `context` and gives the context it
    /// ended in with the result. Neither the parser nor `context` changes, so
    /// that the same call may be made again; the input stays the text or
    /// stream it was.
    fn parse(&self, input: &mut ParserInput, context: &ParseContext) -> (out: (
        ParseContext,
        ParseResult<Self::Output>,
    ))
        requires
            self.wf(),
            old(input).wf(),
        ensures
            final(input).wf(),
            final(input).same_stream(old(input)),
            old(input).content() matches Some(text) ==> self.admits(
                text,
                context@,
                out.0@,
                out.1,
            ),
    ;
}

impl<A> ParserTrait for Parser<A> {
    type Output = A;

    open spec fn wf(&self) -> bool {
        self.parse.wf()
    }

    open spec fn admits(
        &self,
        text: Seq<u8>,
        context: ContextView,
        next: ContextView,
        result: ParseResult<A>,
    ) -> bool {
        self.parse.admits(text, context, next, result)
    }

    fn parse(&self, input: &mut ParserInput, context: &ParseContext) -> (out: (
        ParseContext,
        ParseResult<A>,
    )) {
        self.parse.run(input, context)
    }
}

/// `Rc::clone`: a second handle to the same allocation, so to the same value.
#[verifier::external_body]
fn share<T>(handle: &Rc<T>) -> (shared: Rc<T>)
    ensures
        shared == *handle,
{
    handle.clone()
}

impl<A> Clone for Parser<A> {
    fn clone(&self) -> (copy: Self)
        ensures
            copy == *self,
    {
        Parser { parse: share(&self.parse) }
    }
}

/// A step given by a function.
struct FnStep<F> {
    parse: F,
}

/// Whether `parse` may be called on every well-formed input and context.
pub open spec fn step_accepts<A, F>(parse: F) -> bool where
    F: Fn(&ParserInput, &ParseContext) -> (ParseContext, ParseResult<A>),
 {
    forall|input: ParserInput, context: ParseContext|
        input.wf() ==> call_requires(parse, (&input, &context))
}

/// Whether a call of `parse` on `text` from `context` may end in `next` with
/// `result`.
pub open spec fn step_admits<A, F>(
    parse: F,
    text: Seq<u8>,
    context: ContextView,
    next: ContextView,
    result: ParseResult<A>,
) -> bool where F: Fn(&ParserInput, &ParseContext) -> (ParseContext, ParseResult<A>) {
    exists|input: ParserInput, from: ParseContext, to: ParseContext|
        input.content() == Some(text) && from@ == context && to@ == next && #[trigger] call_ensures(
            parse,
            (&input, &from),
            (to, result),
        )
}

impl<A, F> ParseStep<A> for FnStep<F> where
    F: Fn(&ParserInput, &ParseContext) -> (ParseContext, ParseResult<A>),
 {
    closed spec fn wf(&self) -> bool {
        step_accepts(self.parse)
    }

    closed spec fn admits(
        &self,
        text: Seq<u8>,
        context: ContextView,
        next: ContextView,
        result: ParseResult<A>,
    ) -> bool {
        step_admits(self.parse, text, context, next, result)
    }

    fn run(&self, input: &mut ParserInput, context: &ParseContext) -> (out: (
        ParseContext,
        ParseResult<A>,
    )) {
        (self.parse)(&*input, context)
    }
}

impl<A: 'static> Parser<A> {
    /// The parser that runs `parse`. The function sees the input as it is
    /// held in memory and hands back the next context with the result.
    pub fn new<F>(parse: F) -> (parser: Parser<A>) where
        F: Fn(&ParserInput, &ParseContext) -> (ParseContext, ParseResult<A>) + 'static,

        requires
            step_accepts(parse),
        ensures
            parser.wf(),
            forall|text: Seq<u8>, context: ContextView, next: ContextView, result: ParseResult<A>|
                #[trigger] parser.admits(text, context, next, result) == step_admits(
                    parse,
                    text,
                    context,
                    next,
                    result,
                ),
    {
        Parser { parse: Rc::new(Box::new(FnStep { parse })) }
    }
}

/// Meaning of `map`: a failure of `parser` as it is, a success with the value
/// that `f` gives for the parsed one. Context and position are those of
/// `parser`.
pub open spec fn map_admits<P, B, F>(
    parser: P,
    f: F,
    text: Seq<u8>,
    context: ContextView,
    next: ContextView,
    result: ParseResult<B>,
) -> bool where P: ParserTrait, F: Fn(P::Output) -> B {
    ||| result is Failure && parser.admits(text, context, next, ParseResult::Failure {  })
    ||| exists|parsed: P::Output, value: B|
        #![trigger call_ensures(f, (parsed,), value)]
        parser.admits(text, context, next, ParseResult::Success { value: parsed })
            && call_ensures(f, (parsed,), value) && result == (ParseResult::Success { value })
}

/// Whether `f` may be called on every value.
pub open spec fn total<A, B, F>(f: F) -> bool where F: Fn(A) -> B {
    forall|value: A| call_requires(f, (value,))
}

/// Whether `f` may be called on every value and gives only parsers that may
/// be run.
pub open spec fn continues<A, B, F>(f: F) -> bool where F: Fn(A) -> Parser<B> {
    &&& total(f)
    &&& forall|value: A, then: Parser<B>| call_ensures(f, (value,), then) ==> then.wf()
}

/// Meaning of `flat_map`: a failure of `parser` as it is; after a success,
/// whatever the parser that `f` gives for the value admits from where
/// `parser` ended.
pub open spec fn flat_map_admits<P, B, F>(
    parser: P,
    f: F,
    text: Seq<u8>,
    context: ContextView,
    next: ContextView,
    result: ParseResult<B>,
) -> bool where P: ParserTrait, F: Fn(P::Output) -> Parser<B> {
    ||| result is Failure && parser.admits(text, context, next, ParseResult::Failure {  })
    ||| exists|parsed: P::Output, middle: ContextView, then: Parser<B>|
        parser.admits(text, context, middle, ParseResult::Success { value: parsed })
            && #[trigger] call_ensures(f, (parsed,), then) && #[trigger] then.admits(
            text,
            middle,
            next,
            result,
        )
}

/// Parsers whose value can be mapped.
pub trait ParserFunctuor: ParserTrait + Sized {
    /// The parser that runs `self` once and applies `f` to the value of a
    /// success.
    fn map<B, F>(self, f: F) -> (mapped: Parser<B>) where
        F: Fn(Self::Output) -> B + 'static,
        Self::Output: 'static,
        B: 'static,

        requires
            self.wf(),
            total(f),
        ensures
            mapped.wf(),
            forall|text: Seq<u8>, context: ContextView, next: ContextView, result: ParseResult<B>|
                #[trigger] mapped.admits(text, context, next, result) == map_admits(
                    self,
                    f,
                    text,
                    context,
                    next,
                    result,
                ),
    ;
}

/// Parsers that can choose the parser to go on with by the value they read.
pub trait ParserMonad: ParserFunctuor {
    /// The parser that runs `self` and, after a success, the parser that `f`
    /// gives for the value, from the context that `self` ended in. After a
    /// failure `f` is not called.
    fn flat_map<B, F>(self, f: F) -> (bound: Parser<B>) where
        F: Fn(Self::Output) -> Parser<B> + 'static,
        Self::Output: 'static,
        B: 'static,

        requires
            self.wf(),
            continues(f),
        ensures
            bound.wf(),
            forall|text: Seq<u8>, context: ContextView, next: ContextView, result: ParseResult<B>|
                #[trigger] bound.admits(text, context, next, result) == flat_map_admits(
                    self,
                    f,
                    text,
                    context,
                    next,
                    result,
                ),
    ;
}

/// The step of `map`.
#[verifier::reject_recursive_types(A)]
struct MapStep<A, F> {
    parser: Parser<A>,
    f: F,
}

impl<A, B, F> ParseStep<B> for MapStep<A, F> where F: Fn(A) -> B {
    closed spec fn wf(&self) -> bool {
        &&& self.parser.wf()
        &&& total(self.f)
    }

    closed spec fn admits(
        &self,
        text: Seq<u8>,
        context: ContextView,
        next: ContextView,
        result: ParseResult<B>,
    ) -> bool {
        map_admits(self.parser, self.f, text, context, next, result)
    }

    fn run(&self, input: &mut ParserInput, context: &ParseContext) -> (out: (
        ParseContext,
        ParseResult<B>,
    )) {
        match self.parser.parse(input, context) {
            (next_context, ParseResult::Success { value }) => {
                let mapped = (self.f)(value);
                (next_context, ParseResult::successful(mapped))
            },
            (next_context, ParseResult::Failure {  }) => (next_context, ParseResult::failure()),
        }
    }
}

impl<A: 'static> ParserFunctuor for Parser<A> {
    fn map<B, F>(self, f: F) -> (mapped: Parser<B>) where
        F: Fn(A) -> B + 'static,
        B: 'static,
     {
        Parser { parse: Rc::new(Box::new(MapStep { parser: self, f })) }
    }
}

/// The step of `flat_map`.
#[verifier::reject_recursive_types(A)]
struct FlatMapStep<A, F> {
    parser: Parser<A>,
    f: F,
}

impl<A, B, F> ParseStep<B> for FlatMapStep<A, F> where F: Fn(A) -> Parser<B> {
    closed spec fn wf(&self) -> bool {
        &&& self.parser.wf()
        &&& continues(self.f)
    }

    closed spec fn admits(
        &self,
        text: Seq<u8>,
        context: ContextView,
        next: ContextView,
        result: ParseResult<B>,
    ) -> bool {
        flat_map_admits(self.parser, self.f, text, context, next, result)
    }

    fn run(&self, input: &mut ParserInput, context: &ParseContext) -> (out: (
        ParseContext,
        ParseResult<B>,
    )) {
        match self.parser.parse(input, context) {
            (next_context, ParseResult::Success { value }) => {
                let then = (self.f)(value);
                then.parse(input, &next_context)
            },
            (next_context, ParseResult::Failure {  }) => (next_context, ParseResult::failure()),
        }
    }
}

impl<A: 'static> ParserMonad for Parser<A> {
    fn flat_map<B, F>(self, f: F) -> (bound: Parser<B>) where
        F: Fn(A) -> Parser<B> + 'static,
        B: 'static,
     {
        Parser { parse: Rc::new(Box::new(FlatMapStep { parser: self, f })) }
    }
}

} // verus!
