//! What holds of every parser built here, stated over the meanings that the
//! combinators' contracts use.

use vstd::prelude::*;
use crate::parse_context::{further, ContextView};
use crate::parse_result::ParseResult;
use crate::either::Either;
use crate::parser::{flat_map_admits, map_admits, Parser, ParserTrait};
use crate::common_parsers::{
    array_admits, array_items, array_rest, break_line_outcome, char_outcome, digits_i32,
    end_outcome, escape_outcome, head_outcome, is_digit, lazy_admits, lemma_digits_end_bound,
    literal_outcome, number_i32_outcome, space_or_line_outcome, space_outcome, stop_char_outcome,
    ZERO_CODE,
};
use crate::parser_methods::{
    and_admits, and_left_admits, and_right_admits, choice_failure, either_admits,
    optional_admits, or_admits, repeats, seq0_admits, seq1_admits, seq1_failure,
};

verus! {

/// Whether `parser` admits at most one outcome for each text and context:
/// two runs from the same place then end the same.
pub open spec fn deterministic<P: ParserTrait>(parser: P) -> bool {
    forall|
        text: Seq<u8>,
        context: ContextView,
        next: ContextView,
        result: ParseResult<P::Output>,
        next_too: ContextView,
        result_too: ParseResult<P::Output>,
    |
        #[trigger] parser.admits(text, context, next, result) && #[trigger] parser.admits(
            text,
            context,
            next_too,
            result_too,
        ) ==> next == next_too && result == result_too
}

/// Whether `parser` can fail on `text` from `context`.
pub open spec fn can_fail<P: ParserTrait>(parser: P, text: Seq<u8>, context: ContextView) -> bool {
    exists|failed: ContextView| #[trigger]
        parser.admits(text, context, failed, ParseResult::Failure {  })
}

/// Whether `parser` can succeed on `text` from `context`.
pub open spec fn can_succeed<P: ParserTrait>(
    parser: P,
    text: Seq<u8>,
    context: ContextView,
) -> bool {
    exists|next: ContextView, value: P::Output| #[trigger]
        parser.admits(text, context, next, ParseResult::Success { value })
}

/// Two runs of a parser that admits one outcome, on the same text and from
/// the same context, end in the same context with the same result.
pub proof fn law_runs_agree<P: ParserTrait>(
    parser: P,
    text: Seq<u8>,
    context: ContextView,
    next: ContextView,
    result: ParseResult<P::Output>,
    next_too: ContextView,
    result_too: ParseResult<P::Output>,
)
    requires
        deterministic(parser),
        parser.admits(text, context, next, result),
        parser.admits(text, context, next_too, result_too),
    ensures
        next == next_too,
        result == result_too,
{
}

/// A parser whose meaning is the graph of a function, as that of every
/// primitive is, ends the same way whenever it is run from the same place.
pub proof fn law_outcome_is_deterministic<A>(
    parser: Parser<A>,
    outcome: spec_fn(Seq<u8>, ContextView) -> (ContextView, ParseResult<A>),
)
    requires
        forall|text: Seq<u8>, context: ContextView, next: ContextView, result: ParseResult<A>|
            #[trigger] parser.admits(text, context, next, result) == ((next, result) == outcome(
                text,
                context,
            )),
    ensures
        deterministic(parser),
{
}

/// Ordered choice between parsers that end the same way whenever they are
/// run from the same place does so too.
pub proof fn law_or_is_deterministic<A>(
    first: Parser<A>,
    second: Parser<A>,
    text: Seq<u8>,
    context: ContextView,
    next: ContextView,
    result: ParseResult<A>,
    next_too: ContextView,
    result_too: ParseResult<A>,
)
    requires
        deterministic(first),
        deterministic(second),
        or_admits(first, second, text, context, next, result),
        or_admits(first, second, text, context, next_too, result_too),
    ensures
        next == next_too,
        result == result_too,
{
}

/// A sequence of parsers that end the same way whenever they are run from
/// the same place does so too.
pub proof fn law_and_is_deterministic<A, B>(
    first: Parser<A>,
    second: Parser<B>,
    text: Seq<u8>,
    context: ContextView,
    next: ContextView,
    result: ParseResult<(A, B)>,
    next_too: ContextView,
    result_too: ParseResult<(A, B)>,
)
    requires
        deterministic(first),
        deterministic(second),
        and_admits(first, second, text, context, next, result),
        and_admits(first, second, text, context, next_too, result_too),
    ensures
        next == next_too,
        result == result_too,
{
}

/// A sequence that keeps the value of its first parser ends the same way
/// whenever it is run from the same place, if both parsers do.
pub proof fn law_and_left_is_deterministic<A, B>(
    first: Parser<A>,
    second: Parser<B>,
    text: Seq<u8>,
    context: ContextView,
    next: ContextView,
    result: ParseResult<A>,
    next_too: ContextView,
    result_too: ParseResult<A>,
)
    requires
        deterministic(first),
        deterministic(second),
        and_left_admits(first, second, text, context, next, result),
        and_left_admits(first, second, text, context, next_too, result_too),
    ensures
        next == next_too,
        result == result_too,
{
}

/// A sequence that keeps the value of its second parser ends the same way
/// whenever it is run from the same place, if both parsers do.
pub proof fn law_and_right_is_deterministic<A, B>(
    first: Parser<A>,
    second: Parser<B>,
    text: Seq<u8>,
    context: ContextView,
    next: ContextView,
    result: ParseResult<B>,
    next_too: ContextView,
    result_too: ParseResult<B>,
)
    requires
        deterministic(first),
        deterministic(second),
        and_right_admits(first, second, text, context, next, result),
        and_right_admits(first, second, text, context, next_too, result_too),
    ensures
        next == next_too,
        result == result_too,
{
}

/// A deferred parser ends the same way whenever it is run from the same
/// place, if its thunk gives one parser and that parser does.
pub proof fn law_lazy_is_deterministic<A, F: Fn() -> Parser<A>>(
    f: F,
    text: Seq<u8>,
    context: ContextView,
    next: ContextView,
    result: ParseResult<A>,
    next_too: ContextView,
    result_too: ParseResult<A>,
)
    requires
        forall|parser: Parser<A>, parser_too: Parser<A>|
            #[trigger] call_ensures(f, (), parser) && #[trigger] call_ensures(f, (), parser_too)
                ==> parser == parser_too && deterministic(parser),
        lazy_admits(f, text, context, next, result),
        lazy_admits(f, text, context, next_too, result_too),
    ensures
        next == next_too,
        result == result_too,
{
}

/// A tagged choice between parsers that end the same way whenever they are
/// run from the same place does so too.
pub proof fn law_either_is_deterministic<A, B>(
    first: Parser<A>,
    second: Parser<B>,
    text: Seq<u8>,
    context: ContextView,
    next: ContextView,
    result: ParseResult<Either<A, B>>,
    next_too: ContextView,
    result_too: ParseResult<Either<A, B>>,
)
    requires
        deterministic(first),
        deterministic(second),
        either_admits(first, second, text, context, next, result),
        either_admits(first, second, text, context, next_too, result_too),
    ensures
        next == next_too,
        result == result_too,
{
}

/// An optional parser ends the same way whenever it is run from the same
/// place, if the parser it tries does.
pub proof fn law_optional_is_deterministic<A>(
    parser: Parser<A>,
    text: Seq<u8>,
    context: ContextView,
    next: ContextView,
    result: ParseResult<Option<A>>,
    next_too: ContextView,
    result_too: ParseResult<Option<A>>,
)
    requires
        deterministic(parser),
        optional_admits(parser, text, context, next, result),
        optional_admits(parser, text, context, next_too, result_too),
    ensures
        next == next_too,
        result == result_too,
{
}

/// Whether `f` gives at most one value for each argument.
pub open spec fn single_valued<A, B, F: Fn(A) -> B>(f: F) -> bool {
    forall|argument: A, value: B, value_too: B|
        #[trigger] call_ensures(f, (argument,), value) && #[trigger] call_ensures(
            f,
            (argument,),
            value_too,
        ) ==> value == value_too
}

/// Mapping a parser that ends the same way whenever it is run from the same
/// place, with a function that gives one value for each argument, ends the
/// same way too.
pub proof fn law_map_is_deterministic<A, B, F: Fn(A) -> B>(
    parser: Parser<A>,
    f: F,
    text: Seq<u8>,
    context: ContextView,
    next: ContextView,
    result: ParseResult<B>,
    next_too: ContextView,
    result_too: ParseResult<B>,
)
    requires
        deterministic(parser),
        single_valued(f),
        map_admits(parser, f, text, context, next, result),
        map_admits(parser, f, text, context, next_too, result_too),
    ensures
        next == next_too,
        result == result_too,
{
}

/// Binding a parser that ends the same way whenever it is run from the same
/// place to a function that gives one parser for each value, and only such
/// parsers, ends the same way too.
pub proof fn law_flat_map_is_deterministic<A, B, F: Fn(A) -> Parser<B>>(
    parser: Parser<A>,
    f: F,
    text: Seq<u8>,
    context: ContextView,
    next: ContextView,
    result: ParseResult<B>,
    next_too: ContextView,
    result_too: ParseResult<B>,
)
    requires
        deterministic(parser),
        single_valued(f),
        forall|value: A, then: Parser<B>| #[trigger]
            call_ensures(f, (value,), then) ==> deterministic(then),
        flat_map_admits(parser, f, text, context, next, result),
        flat_map_admits(parser, f, text, context, next_too, result_too),
    ensures
        next == next_too,
        result == result_too,
{
}

/// Repetition of a parser that ends the same way whenever it is run from the
/// same place collects the same values and ends in the same context.
pub proof fn law_repeats_is_deterministic<A>(
    parser: Parser<A>,
    text: Seq<u8>,
    from: ContextView,
    values: Seq<A>,
    end: ContextView,
    values_too: Seq<A>,
    end_too: ContextView,
)
    requires
        deterministic(parser),
        repeats(parser, text, from, values, end),
        repeats(parser, text, from, values_too, end_too),
    ensures
        values == values_too,
        end == end_too,
    decreases values.len(),
{
    if values.len() == 0 {
        let failed = choose|failed: ContextView| #[trigger]
            parser.admits(text, from, failed, ParseResult::Failure {  }) && end
                == failed.new_location(from.location);
        if values_too.len() == 0 {
            let failed_too = choose|failed: ContextView| #[trigger]
                parser.admits(text, from, failed, ParseResult::Failure {  }) && end_too
                    == failed.new_location(from.location);
            assert(failed == failed_too);
            assert(values =~= values_too);
        } else {
            let next_too = choose|next: ContextView| #[trigger]
                parser.admits(text, from, next, ParseResult::Success { value: values_too[0] });
            assert(false);
        }
    } else {
        let next = choose|next: ContextView| #[trigger]
            parser.admits(text, from, next, ParseResult::Success { value: values[0] }) && if next.location
                > from.location {
                repeats(parser, text, next, values.skip(1), end)
            } else {
                values.len() == 1 && end == next
            };
        if values_too.len() == 0 {
            let failed_too = choose|failed: ContextView| #[trigger]
                parser.admits(text, from, failed, ParseResult::Failure {  });
            assert(false);
        } else {
            let next_too = choose|next: ContextView| #[trigger]
                parser.admits(text, from, next, ParseResult::Success { value: values_too[0] })
                    && if next.location > from.location {
                    repeats(parser, text, next, values_too.skip(1), end_too)
                } else {
                    values_too.len() == 1 && end_too == next
                };
            assert(next == next_too);
            assert(values[0] == values_too[0]);
            if next.location > from.location {
                law_repeats_is_deterministic(
                    parser,
                    text,
                    next,
                    values.skip(1),
                    end,
                    values_too.skip(1),
                    end_too,
                );
                assert(values =~= seq![values[0]] + values.skip(1));
                assert(values_too =~= seq![values_too[0]] + values_too.skip(1));
            } else {
                assert(values =~= values_too);
            }
        }
    }
}

/// `seq0` over a parser that ends the same way whenever it is run from the
/// same place collects the same values and ends in the same context.
pub proof fn law_seq0_is_deterministic<A>(
    parser: Parser<A>,
    text: Seq<u8>,
    context: ContextView,
    next: ContextView,
    result: ParseResult<Vec<A>>,
    next_too: ContextView,
    result_too: ParseResult<Vec<A>>,
)
    requires
        deterministic(parser),
        seq0_admits(parser, text, context, next, result),
        seq0_admits(parser, text, context, next_too, result_too),
    ensures
        next == next_too,
        result->value@ == result_too->value@,
{
    law_repeats_is_deterministic(
        parser,
        text,
        context,
        result->value@,
        next,
        result_too->value@,
        next_too,
    );
}

/// `seq1` over a parser that ends the same way whenever it is run from the
/// same place fails or succeeds the same way, with the same values, and ends
/// in the same context.
pub proof fn law_seq1_is_deterministic<A>(
    parser: Parser<A>,
    text: Seq<u8>,
    context: ContextView,
    next: ContextView,
    result: ParseResult<Vec<A>>,
    next_too: ContextView,
    result_too: ParseResult<Vec<A>>,
)
    requires
        deterministic(parser),
        seq1_admits(parser, text, context, next, result),
        seq1_admits(parser, text, context, next_too, result_too),
    ensures
        next == next_too,
        result is Success == result_too is Success,
        result is Success ==> result->value@ == result_too->value@,
{
    law_seq1_fails_with_parser(parser, text, context, next, result);
    law_seq1_fails_with_parser(parser, text, context, next_too, result_too);
    if result is Success && result_too is Success {
        law_repeats_is_deterministic(
            parser,
            text,
            context,
            result->value@,
            next,
            result_too->value@,
            next_too,
        );
    }
}

/// Behind an element, a list of parsers that end the same way whenever they
/// are run from the same place goes on with the same elements to the same
/// context.
pub proof fn law_array_rest_is_deterministic<A, D>(
    parser: Parser<A>,
    separator: Parser<D>,
    text: Seq<u8>,
    from: ContextView,
    values: Seq<A>,
    end: ContextView,
    values_too: Seq<A>,
    end_too: ContextView,
)
    requires
        deterministic(parser),
        deterministic(separator),
        array_rest(parser, separator, text, from, values, end),
        array_rest(parser, separator, text, from, values_too, end_too),
    ensures
        values == values_too,
        end == end_too,
    decreases values.len(),
{
    if values.len() > 0 && values_too.len() > 0 {
        let (behind, mark, next) = choose|behind: ContextView, mark: D, next: ContextView|
            {
                &&& #[trigger] separator.admits(
                    text,
                    from,
                    behind,
                    ParseResult::Success { value: mark },
                )
                &&& #[trigger] parser.admits(
                    text,
                    behind,
                    next,
                    ParseResult::Success { value: values[0] },
                )
                &&& if next.location > from.location {
                    array_rest(parser, separator, text, next, values.skip(1), end)
                } else {
                    values.len() == 1 && end == next
                }
            };
        let (behind_too, mark_too, next_too) = choose|
            behind: ContextView,
            mark: D,
            next: ContextView,
        |
            {
                &&& #[trigger] separator.admits(
                    text,
                    from,
                    behind,
                    ParseResult::Success { value: mark },
                )
                &&& #[trigger] parser.admits(
                    text,
                    behind,
                    next,
                    ParseResult::Success { value: values_too[0] },
                )
                &&& if next.location > from.location {
                    array_rest(parser, separator, text, next, values_too.skip(1), end_too)
                } else {
                    values_too.len() == 1 && end_too == next
                }
            };
        assert(behind == behind_too);
        assert(next == next_too);
        assert(values[0] == values_too[0]);
        if next.location > from.location {
            law_array_rest_is_deterministic(
                parser,
                separator,
                text,
                next,
                values.skip(1),
                end,
                values_too.skip(1),
                end_too,
            );
            assert(values =~= seq![values[0]] + values.skip(1));
            assert(values_too =~= seq![values_too[0]] + values_too.skip(1));
        } else {
            assert(values =~= values_too);
        }
    } else {
        assert(values =~= values_too);
    }
}

/// A list of parsers that end the same way whenever they are run from the
/// same place holds the same elements and ends the same way.
pub proof fn law_array_is_deterministic<A, B, C, D>(
    parser: Parser<A>,
    left_bracket: Parser<B>,
    right_bracket: Parser<C>,
    separator: Parser<D>,
    text: Seq<u8>,
    context: ContextView,
    next: ContextView,
    result: ParseResult<Vec<A>>,
    next_too: ContextView,
    result_too: ParseResult<Vec<A>>,
)
    requires
        deterministic(parser),
        deterministic(left_bracket),
        deterministic(right_bracket),
        deterministic(separator),
        array_admits(
            parser,
            left_bracket,
            right_bracket,
            separator,
            text,
            context,
            next,
            result,
        ),
        array_admits(
            parser,
            left_bracket,
            right_bracket,
            separator,
            text,
            context,
            next_too,
            result_too,
        ),
    ensures
        next == next_too,
        result is Success == result_too is Success,
        result is Success ==> result->value@ == result_too->value@,
{
    assert forall|
        from: ContextView,
        values: Seq<A>,
        end: ContextView,
        values_too: Seq<A>,
        end_too: ContextView,
    | #[trigger]
        array_items(parser, separator, text, from, values, end) && #[trigger] array_items(
            parser,
            separator,
            text,
            from,
            values_too,
            end_too,
        ) implies values == values_too && end == end_too by {
        if values.len() > 0 && values_too.len() > 0 {
            let first = choose|first: ContextView| #[trigger]
                parser.admits(text, from, first, ParseResult::Success { value: values[0] })
                    && array_rest(parser, separator, text, first, values.skip(1), end);
            let first_too = choose|first: ContextView| #[trigger]
                parser.admits(text, from, first, ParseResult::Success { value: values_too[0] })
                    && array_rest(parser, separator, text, first, values_too.skip(1), end_too);
            assert(first == first_too);
            law_array_rest_is_deterministic(
                parser,
                separator,
                text,
                first,
                values.skip(1),
                end,
                values_too.skip(1),
                end_too,
            );
            assert(values =~= seq![values[0]] + values.skip(1));
            assert(values_too =~= seq![values_too[0]] + values_too.skip(1));
        } else {
            assert(values =~= values_too);
        }
    }
}

/// Where `first` cannot succeed, `or` is `second` run from the very context
/// that `first` was tried in: a success is one of `second` from there, and a
/// failure of both leaves the position where it was before the choice.
pub proof fn law_or_backtracks<A>(
    first: Parser<A>,
    second: Parser<A>,
    text: Seq<u8>,
    context: ContextView,
    next: ContextView,
    result: ParseResult<A>,
)
    requires
        !can_succeed(first, text, context),
        or_admits(first, second, text, context, next, result),
    ensures
        can_fail(first, text, context),
        result is Success ==> second.admits(text, context, next, result),
        result is Failure ==> can_fail(second, text, context) && next.location
            == context.location,
{
    if result is Success && first.admits(text, context, next, result) {
        assert(first.admits(text, context, next, ParseResult::Success { value: result->value }));
        assert(false);
    }
}

/// Where exactly one of two parsers succeeds, here `winner`, while `loser`
/// fails, the two orders of `or` admit the same outcomes: the successes of
/// `winner`, with its values and end positions.
pub proof fn law_or_commutes_on_success<A>(
    winner: Parser<A>,
    loser: Parser<A>,
    text: Seq<u8>,
    context: ContextView,
    next: ContextView,
    result: ParseResult<A>,
)
    requires
        !can_fail(winner, text, context),
        !can_succeed(loser, text, context),
        can_fail(loser, text, context),
    ensures
        or_admits(winner, loser, text, context, next, result) == or_admits(
            loser,
            winner,
            text,
            context,
            next,
            result,
        ),
        or_admits(winner, loser, text, context, next, result) == (result is Success
            && winner.admits(text, context, next, result)),
{
    let failed = choose|failed: ContextView| #[trigger]
        loser.admits(text, context, failed, ParseResult::Failure {  });
    if result is Success && loser.admits(text, context, next, result) {
        assert(loser.admits(text, context, next, ParseResult::Success { value: result->value }));
        assert(false);
    }
}

/// `optional` never fails.
pub proof fn law_optional_never_fails<A>(
    parser: Parser<A>,
    text: Seq<u8>,
    context: ContextView,
    next: ContextView,
    result: ParseResult<Option<A>>,
)
    requires
        optional_admits(parser, text, context, next, result),
    ensures
        result is Success,
        result->value is None ==> next.location == context.location,
{
}

/// A success of the first branch is the outcome of the choice, whatever the
/// second branch would do.
pub proof fn law_or_prefers_first<A>(
    first: Parser<A>,
    second: Parser<A>,
    text: Seq<u8>,
    context: ContextView,
    next: ContextView,
    value: A,
)
    requires
        first.admits(text, context, next, ParseResult::Success { value }),
    ensures
        or_admits(first, second, text, context, next, ParseResult::Success { value }),
{
}

/// `seq0` never fails.
pub proof fn law_seq0_never_fails<A>(
    parser: Parser<A>,
    text: Seq<u8>,
    context: ContextView,
    next: ContextView,
    result: ParseResult<Vec<A>>,
)
    requires
        seq0_admits(parser, text, context, next, result),
    ensures
        result is Success,
{
}

/// `seq1` fails only where `parser` fails at the start, and succeeds only
/// where `parser` succeeds there.
pub proof fn law_seq1_fails_with_parser<A>(
    parser: Parser<A>,
    text: Seq<u8>,
    context: ContextView,
    next: ContextView,
    result: ParseResult<Vec<A>>,
)
    requires
        seq1_admits(parser, text, context, next, result),
    ensures
        result is Failure ==> can_fail(parser, text, context),
        result is Success ==> can_succeed(parser, text, context),
{
    if result is Success {
        let values = result->value@;
        let first = choose|first: ContextView| #[trigger]
            parser.admits(text, context, first, ParseResult::Success { value: values[0] });
    }
}

/// Where `parser` fails at the start, `seq1` fails.
pub proof fn law_seq1_fails_where_parser_fails<A>(
    parser: Parser<A>,
    text: Seq<u8>,
    context: ContextView,
    failed: ContextView,
)
    requires
        parser.admits(text, context, failed, ParseResult::Failure {  }),
    ensures
        seq1_admits(
            parser,
            text,
            context,
            seq1_failure(context, failed),
            ParseResult::<Vec<A>>::Failure {  },
        ),
{
}

/// Folding the error of a sibling into a recorded one reports the result at
/// the further of their two locations.
pub proof fn law_merged_error_is_furthest(context: ContextView, other: ContextView)
    requires
        context.error is Some,
        other.error is Some,
    ensures
        context.add_error(other).error is Some,
        context.add_error(other).error->Some_0.location == further(
            context.error->Some_0.location,
            other.error->Some_0.location,
        ),
{
}

/// After both branches of a choice failed with an error each, the failure is
/// reported at the furthest of their locations, and never before the
/// position of the choice, to which the cursor returns.
pub proof fn law_choice_failure_is_furthest(
    context: ContextView,
    first: ContextView,
    second: ContextView,
    label: Seq<char>,
)
    requires
        first.error is Some,
        second.error is Some,
    ensures
        choice_failure(context, first, second, label).location == context.location,
        choice_failure(context, first, second, label).error is Some,
        choice_failure(context, first, second, label).error->Some_0.location == further(
            further(context.location, first.error->Some_0.location),
            second.error->Some_0.location,
        ),
{
}

/// Whether every success of `parser` ends at or behind the position it
/// started from.
pub open spec fn advancing<P: ParserTrait>(parser: P) -> bool {
    forall|text: Seq<u8>, context: ContextView, next: ContextView, value: P::Output|
        text.len() <= usize::MAX && #[trigger] parser.admits(
            text,
            context,
            next,
            ParseResult::Success { value },
        ) ==> next.location >= context.location
}

/// No primitive moves the position back: where one succeeds on a text that
/// fits in memory, it ends at or behind the position it started from.
pub proof fn law_primitives_advance<A>(
    c: char,
    literal: A,
    bytes: Seq<u8>,
    text: Seq<u8>,
    context: ContextView,
)
    requires
        text.len() <= usize::MAX,
    ensures
        char_outcome(c, text, context).1 is Success ==> char_outcome(c, text, context).0.location
            >= context.location,
        literal_outcome(literal, bytes, text, context).1 is Success ==> literal_outcome(
            literal,
            bytes,
            text,
            context,
        ).0.location >= context.location,
        end_outcome(text, context).0.location == context.location,
        head_outcome(text, context).0.location == context.location,
        break_line_outcome(text, context).1 is Success ==> break_line_outcome(
            text,
            context,
        ).0.location > context.location,
        space_outcome(text, context).1 is Success ==> space_outcome(text, context).0.location
            == context.location + 1,
        space_or_line_outcome(text, context).1 is Success ==> space_or_line_outcome(
            text,
            context,
        ).0.location > context.location,
        number_i32_outcome(text, context).1 is Success ==> number_i32_outcome(
            text,
            context,
        ).0.location > context.location,
        escape_outcome(text, context).1 is Success ==> escape_outcome(text, context).0.location
            == context.location + 2,
        stop_char_outcome(c, text, context).1 is Success ==> stop_char_outcome(
            c,
            text,
            context,
        ).0.location == context.location + 1,
{
    vstd::utf8::char_is_scalar(c);
    lemma_digits_end_bound(text, context.location as int);
    lemma_digits_end_bound(text, context.location + 1);
}

/// A sequence of parsers that do not move back does not move back.
pub proof fn law_and_advances<A, B>(
    first: Parser<A>,
    second: Parser<B>,
    text: Seq<u8>,
    context: ContextView,
    next: ContextView,
    value: (A, B),
)
    requires
        text.len() <= usize::MAX,
        advancing(first),
        advancing(second),
        and_admits(first, second, text, context, next, ParseResult::Success { value }),
    ensures
        next.location >= context.location,
{
}

/// A choice between parsers that do not move back does not move back.
pub proof fn law_or_advances<A>(
    first: Parser<A>,
    second: Parser<A>,
    text: Seq<u8>,
    context: ContextView,
    next: ContextView,
    value: A,
)
    requires
        text.len() <= usize::MAX,
        advancing(first),
        advancing(second),
        or_admits(first, second, text, context, next, ParseResult::Success { value }),
    ensures
        next.location >= context.location,
{
}

/// Repeating a parser that does not move back ends at or behind the start,
/// and the failed last attempt moves nothing.
pub proof fn law_repeats_advances<A>(
    parser: Parser<A>,
    text: Seq<u8>,
    from: ContextView,
    values: Seq<A>,
    end: ContextView,
)
    requires
        text.len() <= usize::MAX,
        advancing(parser),
        repeats(parser, text, from, values, end),
    ensures
        end.location >= from.location,
        values.len() == 0 ==> end.location == from.location,
    decreases values.len(),
{
    if values.len() > 0 {
        let next = choose|next: ContextView| #[trigger]
            parser.admits(text, from, next, ParseResult::Success { value: values[0] }) && if next.location
                > from.location {
                repeats(parser, text, next, values.skip(1), end)
            } else {
                values.len() == 1 && end == next
            };
        if next.location > from.location {
            law_repeats_advances(parser, text, next, values.skip(1), end);
        }
    }
}

/// The decimal value of the digits of `text` from `from` up to `to`.
pub open spec fn digits_value(text: Seq<u8>, from: int, to: int) -> nat
    decreases to - from,
{
    if to <= from || to > text.len() || from < 0 {
        0
    } else {
        10 * digits_value(text, from, to - 1) + (text[to - 1] - ZERO_CODE) as nat
    }
}

/// A run of digits whose decimal value fits an `i32` is read as that value:
/// the arithmetic wraps only behind the largest `i32`.
pub proof fn law_digits_read_their_value(text: Seq<u8>, from: int, to: int)
    requires
        0 <= from <= to <= text.len(),
        forall|k: int| from <= k < to ==> is_digit(#[trigger] text[k]),
        digits_value(text, from, to) <= i32::MAX,
    ensures
        digits_i32(text, from, to) == digits_value(text, from, to),
    decreases to - from,
{
    if to > from {
        law_digits_read_their_value(text, from, to - 1);
        let shorter = digits_value(text, from, to - 1);
        assert(is_digit(text[to - 1]));
        assert(shorter * 10 <= i32::MAX);
        assert((shorter * 10) % 0x1_0000_0000 == shorter * 10);
    }
}

} // verus!
