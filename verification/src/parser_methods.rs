use vstd::prelude::*;
use std::rc::Rc;
use crate::common_parsers::{blanks_skipped, space_or_line_seq};
use crate::either::Either;
use crate::parse_context::{ContextView, ParseContext};
use crate::parse_result::ParseResult;
use crate::parser::{ParseStep, Parser, ParserTrait};
use crate::parser_input::ParserInput;

verus! {

/// Meaning of `and`: `first`, then `second` from where `first` ended. The
/// failure of either is the failure of the pair; two successes give the pair
/// of their values at the position after `second`.
pub open spec fn and_admits<P, B>(
    first: P,
    second: Parser<B>,
    text: Seq<u8>,
    context: ContextView,
    next: ContextView,
    result: ParseResult<(P::Output, B)>,
) -> bool where P: ParserTrait {
    ||| result is Failure && first.admits(text, context, next, ParseResult::Failure {  })
    ||| exists|left: P::Output, middle: ContextView|
        {
            &&& #[trigger] first.admits(
                text,
                context,
                middle,
                ParseResult::Success { value: left },
            )
            &&& result is Failure
            &&& second.admits(text, middle, next, ParseResult::Failure {  })
        }
    ||| exists|left: P::Output, middle: ContextView, right: B|
        {
            &&& #[trigger] first.admits(
                text,
                context,
                middle,
                ParseResult::Success { value: left },
            )
            &&& #[trigger] second.admits(text, middle, next, ParseResult::Success { value: right })
            &&& result == (ParseResult::Success { value: (left, right) })
        }
}

/// The pair's result with only its first value.
pub open spec fn keep_left<A, B>(both: ParseResult<(A, B)>) -> ParseResult<A> {
    match both {
        ParseResult::Success { value } => ParseResult::Success { value: value.0 },
        ParseResult::Failure {  } => ParseResult::Failure {  },
    }
}

/// The pair's result with only its second value.
pub open spec fn keep_right<A, B>(both: ParseResult<(A, B)>) -> ParseResult<B> {
    match both {
        ParseResult::Success { value } => ParseResult::Success { value: value.1 },
        ParseResult::Failure {  } => ParseResult::Failure {  },
    }
}

/// Meaning of `and_left` and `skip_right`: the sequence of both, of which
/// the value of `first` is kept.
pub open spec fn and_left_admits<P, B>(
    first: P,
    second: Parser<B>,
    text: Seq<u8>,
    context: ContextView,
    next: ContextView,
    result: ParseResult<P::Output>,
) -> bool where P: ParserTrait {
    exists|both: ParseResult<(P::Output, B)>| #[trigger]
        and_admits(first, second, text, context, next, both) && result == keep_left(both)
}

/// Meaning of `and_right` and `skip_left`: the sequence of both, of which
/// the value of `second` is kept.
pub open spec fn and_right_admits<P, B>(
    first: P,
    second: Parser<B>,
    text: Seq<u8>,
    context: ContextView,
    next: ContextView,
    result: ParseResult<B>,
) -> bool where P: ParserTrait {
    exists|both: ParseResult<(P::Output, B)>| #[trigger]
        and_admits(first, second, text, context, next, both) && result == keep_right(both)
}

/// The context after both branches of a choice failed from `context`: the
/// position is the one before the choice, and the error, reported under
/// `label`, holds the errors of the branches and lies as far as the furthest
/// of them.
pub open spec fn choice_failure(
    context: ContextView,
    first: ContextView,
    second: ContextView,
    label: Seq<char>,
) -> ContextView {
    context.new_error(label, "not valid parser"@).add_error(first).add_error(second).new_location(
        context.location,
    )
}

/// Meaning of `or`: the success of `first`; after its failure whatever
/// `second` does from the same context; after two failures the merged
/// failure at the position before the choice.
pub open spec fn or_admits<P>(
    first: P,
    second: Parser<P::Output>,
    text: Seq<u8>,
    context: ContextView,
    next: ContextView,
    result: ParseResult<P::Output>,
) -> bool where P: ParserTrait {
    ||| result is Success && first.admits(text, context, next, result)
    ||| exists|failed: ContextView|
        {
            &&& #[trigger] first.admits(text, context, failed, ParseResult::Failure {  })
            &&& result is Success
            &&& second.admits(text, context, next, result)
        }
    ||| exists|failed: ContextView, failed_too: ContextView|
        {
            &&& #[trigger] first.admits(text, context, failed, ParseResult::Failure {  })
            &&& #[trigger] second.admits(text, context, failed_too, ParseResult::Failure {  })
            &&& result is Failure
            &&& next == choice_failure(context, failed, failed_too, "or"@)
        }
}

/// Meaning of `either`: as `or`, with the value tagged by the branch that
/// gave it.
pub open spec fn either_admits<P, B>(
    first: P,
    second: Parser<B>,
    text: Seq<u8>,
    context: ContextView,
    next: ContextView,
    result: ParseResult<Either<P::Output, B>>,
) -> bool where P: ParserTrait {
    ||| exists|left: P::Output|
        {
            &&& #[trigger] first.admits(text, context, next, ParseResult::Success { value: left })
            &&& result == (ParseResult::Success { value: Either::<P::Output, B>::Left(left) })
        }
    ||| exists|failed: ContextView, right: B|
        {
            &&& #[trigger] first.admits(text, context, failed, ParseResult::Failure {  })
            &&& #[trigger] second.admits(text, context, next, ParseResult::Success { value: right })
            &&& result == (ParseResult::Success { value: Either::<P::Output, B>::Right(right) })
        }
    ||| exists|failed: ContextView, failed_too: ContextView|
        {
            &&& #[trigger] first.admits(text, context, failed, ParseResult::Failure {  })
            &&& #[trigger] second.admits(text, context, failed_too, ParseResult::Failure {  })
            &&& result is Failure
            &&& next == choice_failure(context, failed, failed_too, "either"@)
        }
}

/// Meaning of `optional`: the success of `parser` wrapped in `Some`; after
/// its failure a success with `None` at the position before the attempt, the
/// error of the attempt still attached.
pub open spec fn optional_admits<P>(
    parser: P,
    text: Seq<u8>,
    context: ContextView,
    next: ContextView,
    result: ParseResult<Option<P::Output>>,
) -> bool where P: ParserTrait {
    ||| exists|value: P::Output|
        {
            &&& #[trigger] parser.admits(text, context, next, ParseResult::Success { value })
            &&& result == (ParseResult::Success { value: Some(value) })
        }
    ||| exists|failed: ContextView|
        {
            &&& #[trigger] parser.admits(text, context, failed, ParseResult::Failure {  })
            &&& result == (ParseResult::Success { value: None::<P::Output> })
            &&& next == failed.new_location(context.location)
        }
}

/// Meaning of `pure`: a success with a clone of `b` that leaves the context
/// as it was, whatever the text.
pub open spec fn pure_admits<B: Clone>(
    b: B,
    context: ContextView,
    next: ContextView,
    result: ParseResult<B>,
) -> bool {
    &&& next == context
    &&& exists|value: B| #[trigger] cloned(b, value) && result == (ParseResult::Success { value })
}

/// Runs `first` and, after its success, `second` from where `first` ended.
fn run_both<A, B>(
    first: &Parser<A>,
    second: &Parser<B>,
    input: &mut ParserInput,
    context: &ParseContext,
) -> (out: (ParseContext, ParseResult<(A, B)>))
    requires
        first.wf(),
        second.wf(),
        old(input).wf(),
    ensures
        final(input).wf(),
        final(input).same_stream(old(input)),
        old(input).content() matches Some(text) ==> and_admits(
            *first,
            *second,
            text,
            context@,
            out.0@,
            out.1,
        ),
{
    match first.parse(input, context) {
        (middle, ParseResult::Success { value: left }) => match second.parse(input, &middle) {
            (next_context, ParseResult::Success { value: right }) => (
                next_context,
                ParseResult::successful((left, right)),
            ),
            (next_context, ParseResult::Failure {  }) => (next_context, ParseResult::failure()),
        },
        (next_context, ParseResult::Failure {  }) => (next_context, ParseResult::failure()),
    }
}

/// The step of `and`.
#[verifier::reject_recursive_types(A)]
#[verifier::reject_recursive_types(B)]
struct AndStep<A, B> {
    first: Parser<A>,
    second: Parser<B>,
}

impl<A, B> ParseStep<(A, B)> for AndStep<A, B> {
    closed spec fn wf(&self) -> bool {
        self.first.wf() && self.second.wf()
    }

    closed spec fn admits(
        &self,
        text: Seq<u8>,
        context: ContextView,
        next: ContextView,
        result: ParseResult<(A, B)>,
    ) -> bool {
        and_admits(self.first, self.second, text, context, next, result)
    }

    fn run(&self, input: &mut ParserInput, context: &ParseContext) -> (out: (
        ParseContext,
        ParseResult<(A, B)>,
    )) {
        run_both(&self.first, &self.second, input, context)
    }
}

/// The step of `and_left` and `skip_right`.
#[verifier::reject_recursive_types(A)]
#[verifier::reject_recursive_types(B)]
struct AndLeftStep<A, B> {
    first: Parser<A>,
    second: Parser<B>,
}

impl<A, B> ParseStep<A> for AndLeftStep<A, B> {
    closed spec fn wf(&self) -> bool {
        self.first.wf() && self.second.wf()
    }

    closed spec fn admits(
        &self,
        text: Seq<u8>,
        context: ContextView,
        next: ContextView,
        result: ParseResult<A>,
    ) -> bool {
        and_left_admits(self.first, self.second, text, context, next, result)
    }

    fn run(&self, input: &mut ParserInput, context: &ParseContext) -> (out: (
        ParseContext,
        ParseResult<A>,
    )) {
        match run_both(&self.first, &self.second, input, context) {
            (next_context, ParseResult::Success { value }) => (
                next_context,
                ParseResult::successful(value.0),
            ),
            (next_context, ParseResult::Failure {  }) => (next_context, ParseResult::failure()),
        }
    }
}

/// The step of `and_right` and `skip_left`.
#[verifier::reject_recursive_types(A)]
#[verifier::reject_recursive_types(B)]
struct AndRightStep<A, B> {
    first: Parser<A>,
    second: Parser<B>,
}

impl<A, B> ParseStep<B> for AndRightStep<A, B> {
    closed spec fn wf(&self) -> bool {
        self.first.wf() && self.second.wf()
    }

    closed spec fn admits(
        &self,
        text: Seq<u8>,
        context: ContextView,
        next: ContextView,
        result: ParseResult<B>,
    ) -> bool {
        and_right_admits(self.first, self.second, text, context, next, result)
    }

    fn run(&self, input: &mut ParserInput, context: &ParseContext) -> (out: (
        ParseContext,
        ParseResult<B>,
    )) {
        match run_both(&self.first, &self.second, input, context) {
            (next_context, ParseResult::Success { value }) => (
                next_context,
                ParseResult::successful(value.1),
            ),
            (next_context, ParseResult::Failure {  }) => (next_context, ParseResult::failure()),
        }
    }
}

/// The context after both branches of a choice failed.
fn merge_failures(
    context: &ParseContext,
    first: ParseContext,
    second: ParseContext,
    label: &str,
) -> (merged: ParseContext)
    ensures
        merged@ == choice_failure(context@, first@, second@, label@),
{
    context.new_error(label, "not valid parser").add_error(first).add_error(second).new_location(
        context.location,
    )
}

/// The step of `or`.
#[verifier::reject_recursive_types(A)]
struct OrStep<A> {
    first: Parser<A>,
    second: Parser<A>,
}

impl<A> ParseStep<A> for OrStep<A> {
    closed spec fn wf(&self) -> bool {
        self.first.wf() && self.second.wf()
    }

    closed spec fn admits(
        &self,
        text: Seq<u8>,
        context: ContextView,
        next: ContextView,
        result: ParseResult<A>,
    ) -> bool {
        or_admits(self.first, self.second, text, context, next, result)
    }

    fn run(&self, input: &mut ParserInput, context: &ParseContext) -> (out: (
        ParseContext,
        ParseResult<A>,
    )) {
        match self.first.parse(input, context) {
            (next_context, ParseResult::Success { value }) => (
                next_context,
                ParseResult::successful(value),
            ),
            (failed, ParseResult::Failure {  }) => match self.second.parse(input, context) {
                (next_context, ParseResult::Success { value }) => (
                    next_context,
                    ParseResult::successful(value),
                ),
                (failed_too, ParseResult::Failure {  }) => (
                    merge_failures(context, failed, failed_too, "or"),
                    ParseResult::failure(),
                ),
            },
        }
    }
}

/// The step of `either`.
#[verifier::reject_recursive_types(A)]
#[verifier::reject_recursive_types(B)]
struct EitherStep<A, B> {
    first: Parser<A>,
    second: Parser<B>,
}

impl<A, B> ParseStep<Either<A, B>> for EitherStep<A, B> {
    closed spec fn wf(&self) -> bool {
        self.first.wf() && self.second.wf()
    }

    closed spec fn admits(
        &self,
        text: Seq<u8>,
        context: ContextView,
        next: ContextView,
        result: ParseResult<Either<A, B>>,
    ) -> bool {
        either_admits(self.first, self.second, text, context, next, result)
    }

    fn run(&self, input: &mut ParserInput, context: &ParseContext) -> (out: (
        ParseContext,
        ParseResult<Either<A, B>>,
    )) {
        match self.first.parse(input, context) {
            (next_context, ParseResult::Success { value }) => (
                next_context,
                ParseResult::successful(Either::Left(value)),
            ),
            (failed, ParseResult::Failure {  }) => match self.second.parse(input, context) {
                (next_context, ParseResult::Success { value }) => (
                    next_context,
                    ParseResult::successful(Either::Right(value)),
                ),
                (failed_too, ParseResult::Failure {  }) => (
                    merge_failures(context, failed, failed_too, "either"),
                    ParseResult::failure(),
                ),
            },
        }
    }
}

/// The step of `optional`.
#[verifier::reject_recursive_types(A)]
struct OptionalStep<A> {
    parser: Parser<A>,
}

impl<A> ParseStep<Option<A>> for OptionalStep<A> {
    closed spec fn wf(&self) -> bool {
        self.parser.wf()
    }

    closed spec fn admits(
        &self,
        text: Seq<u8>,
        context: ContextView,
        next: ContextView,
        result: ParseResult<Option<A>>,
    ) -> bool {
        optional_admits(self.parser, text, context, next, result)
    }

    fn run(&self, input: &mut ParserInput, context: &ParseContext) -> (out: (
        ParseContext,
        ParseResult<Option<A>>,
    )) {
        match self.parser.parse(input, context) {
            (next_context, ParseResult::Success { value }) => (
                next_context,
                ParseResult::successful(Some(value)),
            ),
            (failed, ParseResult::Failure {  }) => (
                failed.new_location(context.location),
                ParseResult::successful(None),
            ),
        }
    }
}

/// The step of `pure`.
struct PureStep<B> {
    b: B,
}

impl<B: Clone> ParseStep<B> for PureStep<B> {
    closed spec fn wf(&self) -> bool {
        true
    }

    closed spec fn admits(
        &self,
        text: Seq<u8>,
        context: ContextView,
        next: ContextView,
        result: ParseResult<B>,
    ) -> bool {
        pure_admits(self.b, context, next, result)
    }

    fn run(&self, input: &mut ParserInput, context: &ParseContext) -> (out: (
        ParseContext,
        ParseResult<B>,
    )) {
        let value = self.b.clone();
        assert(cloned(self.b, value));
        (context.clone(), ParseResult::successful(value))
    }
}

/// Whether repeating `parser` from `from` collects exactly `values` and ends
/// in `end`. Each value is a success that moved the position on, but the last
/// may be one that did not: the repetition stops there, since from the same
/// position it would never end. Otherwise it stops at the first failure,
/// whose progress is given up while its error stays attached.
pub open spec fn repeats<P>(
    parser: P,
    text: Seq<u8>,
    from: ContextView,
    values: Seq<P::Output>,
    end: ContextView,
) -> bool where P: ParserTrait
    decreases values.len(),
{
    if values.len() == 0 {
        exists|failed: ContextView| #[trigger]
            parser.admits(text, from, failed, ParseResult::Failure {  }) && end
                == failed.new_location(from.location)
    } else {
        exists|next: ContextView| #[trigger]
            parser.admits(text, from, next, ParseResult::Success { value: values[0] }) && if next.location
                > from.location {
                repeats(parser, text, next, values.skip(1), end)
            } else {
                values.len() == 1 && end == next
            }
    }
}

/// Meaning of `seq0`: always a success, with the values that repeating
/// `parser` collects.
pub open spec fn seq0_admits<P>(
    parser: P,
    text: Seq<u8>,
    context: ContextView,
    next: ContextView,
    result: ParseResult<Vec<P::Output>>,
) -> bool where P: ParserTrait {
    result is Success && repeats(parser, text, context, result->value@, next)
}

/// The context after `seq1` found no repetition: the position is the one
/// before the attempt, and the error holds the error of the attempt.
pub open spec fn seq1_failure(context: ContextView, failed: ContextView) -> ContextView {
    context.new_error("seq1"@, "not valid parser"@).add_error(failed).new_location(
        context.location,
    )
}

/// Meaning of `seq1`: a failure where `parser` fails at once, otherwise the
/// success of `seq0`, which then holds at least one value.
pub open spec fn seq1_admits<P>(
    parser: P,
    text: Seq<u8>,
    context: ContextView,
    next: ContextView,
    result: ParseResult<Vec<P::Output>>,
) -> bool where P: ParserTrait {
    ||| exists|failed: ContextView|
        {
            &&& #[trigger] parser.admits(text, context, failed, ParseResult::Failure {  })
            &&& result is Failure
            &&& next == seq1_failure(context, failed)
        }
    ||| {
        &&& result is Success
        &&& result->value@.len() > 0
        &&& repeats(parser, text, context, result->value@, next)
    }
}

/// Repeats `parser` from `context` until it fails or stands still.
fn run_repeats<A>(parser: &Parser<A>, input: &mut ParserInput, context: &ParseContext) -> (out: (
    ParseContext,
    Vec<A>,
))
    requires
        parser.wf(),
        old(input).wf(),
    ensures
        final(input).wf(),
        final(input).same_stream(old(input)),
        old(input).content() matches Some(text) ==> repeats(
            *parser,
            text,
            context@,
            out.1@,
            out.0@,
        ),
{
    let ghost start = *input;
    let mut vec: Vec<A> = Vec::new();
    let mut current = context.clone();
    assert(forall|tail: Seq<A>| Seq::<A>::empty() + tail =~= tail);
    loop
        invariant
            start == *old(input),
            parser.wf(),
            input.wf(),
            input.same_stream(&start),
            start.content() matches Some(text) ==> forall|tail: Seq<A>, end: ContextView| #[trigger]
                repeats(*parser, text, current@, tail, end) ==> repeats(
                    *parser,
                    text,
                    context@,
                    vec@ + tail,
                    end,
                ),
        decreases usize::MAX - current.location,
    {
        match parser.parse(input, &current) {
            (next_context, ParseResult::Success { value }) => {
                proof {
                    if start.content() is Some {
                        let text = start.content()->Some_0;
                        if next_context.location > current.location {
                            assert forall|tail: Seq<A>, end: ContextView| #[trigger]
                                repeats(*parser, text, next_context@, tail, end) implies repeats(
                                *parser,
                                text,
                                context@,
                                vec@.push(value) + tail,
                                end,
                            ) by {
                                let longer = seq![value] + tail;
                                assert(longer.skip(1) =~= tail);
                                assert(parser.admits(
                                    text,
                                    current@,
                                    next_context@,
                                    ParseResult::Success { value: longer[0] },
                                ));
                                assert(repeats(*parser, text, current@, longer, end));
                                assert(vec@ + longer =~= vec@.push(value) + tail);
                            }
                        } else {
                            let last = seq![value];
                            assert(parser.admits(
                                text,
                                current@,
                                next_context@,
                                ParseResult::Success { value: last[0] },
                            ));
                            assert(repeats(*parser, text, current@, last, next_context@));
                            assert(vec@ + last =~= vec@.push(value));
                        }
                    }
                }
                vec.push(value);
                if next_context.location > current.location {
                    current = next_context;
                } else {
                    return (next_context, vec);
                }
            },
            (failed, ParseResult::Failure {  }) => {
                let end = failed.new_location(current.location);
                proof {
                    if start.content() is Some {
                        let text = start.content()->Some_0;
                        assert(repeats(*parser, text, current@, Seq::<A>::empty(), end@));
                        assert(vec@ + Seq::<A>::empty() =~= vec@);
                    }
                }
                return (end, vec);
            },
        }
    }
}

/// The step of `seq0`.
#[verifier::reject_recursive_types(A)]
struct Seq0Step<A> {
    parser: Parser<A>,
}

impl<A> ParseStep<Vec<A>> for Seq0Step<A> {
    closed spec fn wf(&self) -> bool {
        self.parser.wf()
    }

    closed spec fn admits(
        &self,
        text: Seq<u8>,
        context: ContextView,
        next: ContextView,
        result: ParseResult<Vec<A>>,
    ) -> bool {
        seq0_admits(self.parser, text, context, next, result)
    }

    fn run(&self, input: &mut ParserInput, context: &ParseContext) -> (out: (
        ParseContext,
        ParseResult<Vec<A>>,
    )) {
        let (next_context, vec) = run_repeats(&self.parser, input, context);
        (next_context, ParseResult::successful(vec))
    }
}

/// The step of `seq1`.
#[verifier::reject_recursive_types(A)]
struct Seq1Step<A> {
    parser: Parser<A>,
}

impl<A> ParseStep<Vec<A>> for Seq1Step<A> {
    closed spec fn wf(&self) -> bool {
        self.parser.wf()
    }

    closed spec fn admits(
        &self,
        text: Seq<u8>,
        context: ContextView,
        next: ContextView,
        result: ParseResult<Vec<A>>,
    ) -> bool {
        seq1_admits(self.parser, text, context, next, result)
    }

    fn run(&self, input: &mut ParserInput, context: &ParseContext) -> (out: (
        ParseContext,
        ParseResult<Vec<A>>,
    )) {
        let (next_context, vec) = run_repeats(&self.parser, input, context);
        if vec.len() > 0 {
            (next_context, ParseResult::successful(vec))
        } else {
            let failure = context.new_error("seq1", "not valid parser").add_error(
                next_context,
            ).new_location(context.location);
            (failure, ParseResult::failure())
        }
    }
}

/// The combinators: each builds a new parser from `self`, which it shares
/// and never changes.
pub trait ParserMethods: ParserTrait + Sized {
    /// `self`, then `parser2`; the pair of both values.
    fn and<B>(self, parser2: Parser<B>) -> (both: Parser<(Self::Output, B)>) where
        Self::Output: 'static,
        B: 'static,

        requires
            self.wf(),
            parser2.wf(),
        ensures
            both.wf(),
            forall|
                text: Seq<u8>,
                context: ContextView,
                next: ContextView,
                result: ParseResult<(Self::Output, B)>,
            |
                #[trigger] both.admits(text, context, next, result) == and_admits(
                    self,
                    parser2,
                    text,
                    context,
                    next,
                    result,
                ),
    ;

    /// `self`, then `parser2`; the value of `self`.
    fn and_left<B>(self, parser2: Parser<B>) -> (both: Parser<Self::Output>) where
        Self::Output: 'static,
        B: 'static,

        requires
            self.wf(),
            parser2.wf(),
        ensures
            both.wf(),
            forall|
                text: Seq<u8>,
                context: ContextView,
                next: ContextView,
                result: ParseResult<Self::Output>,
            |
                #[trigger] both.admits(text, context, next, result) == and_left_admits(
                    self,
                    parser2,
                    text,
                    context,
                    next,
                    result,
                ),
    ;

    /// `self`, then `parser2`; the value of `parser2`.
    fn and_right<B>(self, parser2: Parser<B>) -> (both: Parser<B>) where
        Self::Output: 'static,
        B: 'static,

        requires
            self.wf(),
            parser2.wf(),
        ensures
            both.wf(),
            forall|text: Seq<u8>, context: ContextView, next: ContextView, result: ParseResult<B>|
                #[trigger] both.admits(text, context, next, result) == and_right_admits(
                    self,
                    parser2,
                    text,
                    context,
                    next,
                    result,
                ),
    ;

    /// `self`, or else `parser2` from the same position, the value tagged
    /// with the branch it came from.
    fn either<B>(self, parser2: Parser<B>) -> (choice: Parser<Either<Self::Output, B>>) where
        Self::Output: 'static,
        B: 'static,

        requires
            self.wf(),
            parser2.wf(),
        ensures
            choice.wf(),
            forall|
                text: Seq<u8>,
                context: ContextView,
                next: ContextView,
                result: ParseResult<Either<Self::Output, B>>,
            |
                #[trigger] choice.admits(text, context, next, result) == either_admits(
                    self,
                    parser2,
                    text,
                    context,
                    next,
                    result,
                ),
    ;

    /// `self` where it succeeds, nothing where it fails; never a failure.
    fn optional(self) -> (maybe: Parser<Option<Self::Output>>) where Self::Output: 'static
        requires
            self.wf(),
        ensures
            maybe.wf(),
            forall|
                text: Seq<u8>,
                context: ContextView,
                next: ContextView,
                result: ParseResult<Option<Self::Output>>,
            |
                #[trigger] maybe.admits(text, context, next, result) == optional_admits(
                    self,
                    text,
                    context,
                    next,
                    result,
                ),
    ;

    /// `self`, or else `parser2` from the same position.
    fn or(self, parser2: Parser<Self::Output>) -> (choice: Parser<Self::Output>) where
        Self::Output: 'static,

        requires
            self.wf(),
            parser2.wf(),
        ensures
            choice.wf(),
            forall|
                text: Seq<u8>,
                context: ContextView,
                next: ContextView,
                result: ParseResult<Self::Output>,
            |
                #[trigger] choice.admits(text, context, next, result) == or_admits(
                    self,
                    parser2,
                    text,
                    context,
                    next,
                    result,
                ),
    ;

    /// The parser that reads nothing and always succeeds with a clone of `b`
    /// where it stands. The receiver is not run.
    fn pure<B>(self, b: B) -> (constant: Parser<B>) where B: Clone + 'static
        ensures
            constant.wf(),
            forall|text: Seq<u8>, context: ContextView, next: ContextView, result: ParseResult<B>|
                #[trigger] constant.admits(text, context, next, result) == pure_admits(
                    b,
                    context,
                    next,
                    result,
                ),
    ;

    /// `self` as often as it succeeds; never a failure.
    fn seq0(self) -> (many: Parser<Vec<Self::Output>>) where Self::Output: 'static
        requires
            self.wf(),
        ensures
            many.wf(),
            forall|
                text: Seq<u8>,
                context: ContextView,
                next: ContextView,
                result: ParseResult<Vec<Self::Output>>,
            |
                #[trigger] many.admits(text, context, next, result) == seq0_admits(
                    self,
                    text,
                    context,
                    next,
                    result,
                ),
    ;

    /// `self` as often as it succeeds, and at least once.
    fn seq1(self) -> (many: Parser<Vec<Self::Output>>) where Self::Output: 'static
        requires
            self.wf(),
        ensures
            many.wf(),
            forall|
                text: Seq<u8>,
                context: ContextView,
                next: ContextView,
                result: ParseResult<Vec<Self::Output>>,
            |
                #[trigger] many.admits(text, context, next, result) == seq1_admits(
                    self,
                    text,
                    context,
                    next,
                    result,
                ),
    ;

    /// `self`, then `parser2`; the value of `parser2`.
    fn skip_left<B>(self, parser2: Parser<B>) -> (both: Parser<B>) where
        Self::Output: 'static,
        B: 'static,

        requires
            self.wf(),
            parser2.wf(),
        ensures
            both.wf(),
            forall|text: Seq<u8>, context: ContextView, next: ContextView, result: ParseResult<B>|
                #[trigger] both.admits(text, context, next, result) == and_right_admits(
                    self,
                    parser2,
                    text,
                    context,
                    next,
                    result,
                ),
    ;

    /// `self`, then `parser2`; the value of `self`.
    fn skip_right<B>(self, parser2: Parser<B>) -> (both: Parser<Self::Output>) where
        Self::Output: 'static,
        B: 'static,

        requires
            self.wf(),
            parser2.wf(),
        ensures
            both.wf(),
            forall|
                text: Seq<u8>,
                context: ContextView,
                next: ContextView,
                result: ParseResult<Self::Output>,
            |
                #[trigger] both.admits(text, context, next, result) == and_left_admits(
                    self,
                    parser2,
                    text,
                    context,
                    next,
                    result,
                ),
    ;

    /// `self` behind any run of spaces, tabs and line terminators. The
    /// blanks are skipped first and cannot fail; what `self` then does from
    /// behind them is the outcome, so that a failure is the failure of `self`.
    fn with_skip_space(self) -> (skipping: Parser<Self::Output>) where Self::Output: 'static
        requires
            self.wf(),
        ensures
            skipping.wf(),
            forall|
                text: Seq<u8>,
                context: ContextView,
                next: ContextView,
                result: ParseResult<Self::Output>,
            |
                text.len() <= usize::MAX && #[trigger] skipping.admits(text, context, next, result)
                    ==> self.admits(text, blanks_skipped(text, context), next, result),
    ;
}

impl<A: 'static> ParserMethods for Parser<A> {
    fn and<B>(self, parser2: Parser<B>) -> (both: Parser<(A, B)>) where B: 'static {
        Parser { parse: Rc::new(Box::new(AndStep { first: self, second: parser2 })) }
    }

    fn and_left<B>(self, parser2: Parser<B>) -> (both: Parser<A>) where B: 'static {
        Parser { parse: Rc::new(Box::new(AndLeftStep { first: self, second: parser2 })) }
    }

    fn and_right<B>(self, parser2: Parser<B>) -> (both: Parser<B>) where B: 'static {
        Parser { parse: Rc::new(Box::new(AndRightStep { first: self, second: parser2 })) }
    }

    fn either<B>(self, parser2: Parser<B>) -> (choice: Parser<Either<A, B>>) where B: 'static {
        Parser { parse: Rc::new(Box::new(EitherStep { first: self, second: parser2 })) }
    }

    fn optional(self) -> (maybe: Parser<Option<A>>) {
        Parser { parse: Rc::new(Box::new(OptionalStep { parser: self })) }
    }

    fn or(self, parser2: Parser<A>) -> (choice: Parser<A>) {
        Parser { parse: Rc::new(Box::new(OrStep { first: self, second: parser2 })) }
    }

    fn pure<B>(self, b: B) -> (constant: Parser<B>) where B: Clone + 'static {
        Parser { parse: Rc::new(Box::new(PureStep { b })) }
    }

    fn seq0(self) -> (many: Parser<Vec<A>>) {
        Parser { parse: Rc::new(Box::new(Seq0Step { parser: self })) }
    }

    fn seq1(self) -> (many: Parser<Vec<A>>) {
        Parser { parse: Rc::new(Box::new(Seq1Step { parser: self })) }
    }

    fn skip_left<B>(self, parser2: Parser<B>) -> (both: Parser<B>) where B: 'static {
        self.and_right(parser2)
    }

    fn skip_right<B>(self, parser2: Parser<B>) -> (both: Parser<A>) where B: 'static {
        self.and_left(parser2)
    }

    fn with_skip_space(self) -> (skipping: Parser<A>) {
        let blanks = space_or_line_seq();
        let skipping = blanks.skip_left(self);
        proof {
            assert forall|
                text: Seq<u8>,
                context: ContextView,
                next: ContextView,
                result: ParseResult<A>,
            | text.len() <= usize::MAX && #[trigger] skipping.admits(
                text,
                context,
                next,
                result,
            ) implies self.admits(text, blanks_skipped(text, context), next, result) by {
                assert(and_right_admits(blanks, self, text, context, next, result));
                let both = choose|both: ParseResult<((), A)>| #[trigger]
                    and_admits(blanks, self, text, context, next, both) && result == keep_right(
                        both,
                    );
                assert(!blanks.admits(text, context, next, ParseResult::Failure {  }));
            }
        }
        skipping
    }
}

} // verus!
