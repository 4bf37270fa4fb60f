use vstd::prelude::*;
use vstd::slice::slice_to_vec;
use vstd::string::StringSliceAdditionalSpecFns;
use vstd::utf8::{decode_utf8, encode_scalar, valid_utf8};
use std::rc::Rc;
use crate::error::MyError;
use crate::parse_context::{ContextView, ParseContext};
use crate::parse_result::ParseResult;
use crate::parser::{map_admits, ParseStep, Parser, ParserFunctuor, ParserTrait};
use crate::parser_methods::{choice_failure, or_admits, repeats, seq0_admits, ParserMethods};
use crate::parser_input::ParserInput;

verus! {

/// Carriage return.
pub const CR_CODE: u8 = 13;

/// Line feed.
pub const LF_CODE: u8 = 10;

/// Space.
pub const SPACE_CODE: u8 = 32;

/// Tab.
pub const TAB_CODE: u8 = 9;

/// The digit `0`.
pub const ZERO_CODE: u8 = 48;

/// The digit `9`.
pub const NINE_CODE: u8 = 57;

/// The sign `-`.
pub const MINUS_CODE: u8 = 45;

/// The sign `+`.
pub const PLUS_CODE: u8 = 43;

/// The decimal point.
pub const DOT_CODE: u8 = 46;

/// The backslash that starts an escape sequence.
pub const BACKSLASH_CODE: u8 = 92;

/// The double quote.
pub const DQUOTE_CODE: u8 = 34;

/// The byte of `text` at `at`, if there is one.
pub open spec fn text_byte(text: Seq<u8>, at: int) -> Option<u8> {
    if 0 <= at < text.len() {
        Some(text[at])
    } else {
        None
    }
}

/// Whether `text` holds exactly `bytes` at `at`.
pub open spec fn holds_at(text: Seq<u8>, at: int, bytes: Seq<u8>) -> bool {
    0 <= at && at + bytes.len() <= text.len() && text.subrange(at, at + bytes.len()) == bytes
}

/// The outcome of a primitive that failed in `context`: the position stays
/// and the error names the primitive.
pub open spec fn mismatch<A>(context: ContextView, label: Seq<char>, message: Seq<char>) -> (
    ContextView,
    ParseResult<A>,
) {
    (context.new_error(label, message), ParseResult::Failure {  })
}

/// The outcome of a primitive that matched `size` bytes in `context`.
pub open spec fn matched<A>(context: ContextView, size: usize, value: A) -> (
    ContextView,
    ParseResult<A>,
) {
    (context.move_location(size), ParseResult::Success { value })
}

/// Remembers `error` if the stream failed and no failure is remembered yet.
/// That a read went past the end is no failure of the stream.
fn note(failure: &mut Option<MyError>, error: MyError)
    ensures
        error is Common ==> *final(failure) == *old(failure),
        *old(failure) is Some ==> *final(failure) == *old(failure),
        error is IO || *old(failure) is Some ==> *final(failure) is Some,
{
    if failure.is_none() {
        match error {
            MyError::IO(message) => {
                *failure = Some(MyError::IO(message));
            },
            MyError::Common(_) => {},
        }
    }
}

/// The outcome of a primitive that read the input: `out` if every read was
/// answered, and otherwise a failure in place that reports the stream's
/// failure under the label `io`, apart from every mismatch.
fn settle<A>(
    context: &ParseContext,
    failure: Option<MyError>,
    out: (ParseContext, ParseResult<A>),
) -> (settled: (ParseContext, ParseResult<A>))
    ensures
        failure is None ==> settled == out,
        failure matches Some(error) ==> (settled.0@, settled.1) == mismatch::<A>(
            context@,
            "io"@,
            error.detail(),
        ),
{
    match failure {
        Some(MyError::IO(message)) => fail(context, "io", message.as_str()),
        Some(MyError::Common(message)) => fail(context, "io", message.as_str()),
        None => out,
    }
}

/// The byte at `offset`, if the input holds one there.
fn byte_at(input: &mut ParserInput, offset: usize, failure: &mut Option<MyError>) -> (byte: Option<
    u8,
>)
    requires
        old(input).wf(),
    ensures
        final(input).wf(),
        final(input).same_stream(old(input)),
        old(input).content() matches Some(text) ==> byte == text_byte(text, offset as int)
            && *final(failure) == *old(failure),
{
    match input.read_by_size(offset, 1) {
        Ok(bytes) => {
            assert(old(input).content() matches Some(text) ==> bytes@ == text.subrange(
                offset as int,
                offset + 1,
            ));
            Some(bytes[0])
        },
        Err(error) => {
            note(failure, error);
            None
        },
    }
}

/// Whether two runs of bytes are the same.
fn same_bytes(left: &[u8], right: &[u8]) -> (same: bool)
    ensures
        same == (left@ == right@),
{
    if left.len() != right.len() {
        return false;
    }
    let mut i: usize = 0;
    while i < left.len()
        invariant
            left@.len() == right@.len(),
            i <= left@.len(),
            forall|k: int| 0 <= k < i ==> left@[k] == right@[k],
        decreases left@.len() - i,
    {
        if left[i] != right[i] {
            return false;
        }
        i += 1;
    }
    assert(left@ =~= right@);
    true
}

/// Whether the input holds exactly `bytes` at `offset`, read in one piece.
fn holds(input: &mut ParserInput, offset: usize, bytes: &[u8], failure: &mut Option<MyError>) -> (found:
    bool)
    requires
        old(input).wf(),
    ensures
        final(input).wf(),
        final(input).same_stream(old(input)),
        old(input).content() matches Some(text) ==> found == holds_at(text, offset as int, bytes@)
            && *final(failure) == *old(failure),
{
    match input.read_by_size(offset, bytes.len()) {
        Ok(read) => same_bytes(read, bytes),
        Err(error) => {
            note(failure, error);
            false
        },
    }
}

/// The context and result of a primitive that failed in `context`.
fn fail<A>(context: &ParseContext, label: &str, message: &str) -> (out: (
    ParseContext,
    ParseResult<A>,
))
    ensures
        (out.0@, out.1) == mismatch::<A>(context@, label@, message@),
{
    (context.new_error(label, message), ParseResult::failure())
}

/// The UTF-8 encoding of `c`.
pub fn encode_char(c: char) -> (bytes: Vec<u8>)
    ensures
        bytes@ == encode_scalar(c as u32),
{
    let scalar: u32 = c as u32;
    let mut bytes: Vec<u8> = Vec::new();
    if scalar <= 0x7F {
        bytes.push(#[verifier::truncate] ((scalar & 0x7F) as u8));
    } else if scalar <= 0x7FF {
        bytes.push(0xC0 | #[verifier::truncate] (((scalar >> 6) & 0x1F) as u8));
        bytes.push(0x80 | #[verifier::truncate] ((scalar & 0x3F) as u8));
    } else if scalar <= 0xFFFF {
        bytes.push(0xE0 | #[verifier::truncate] (((scalar >> 12) & 0x0F) as u8));
        bytes.push(0x80 | #[verifier::truncate] (((scalar >> 6) & 0x3F) as u8));
        bytes.push(0x80 | #[verifier::truncate] ((scalar & 0x3F) as u8));
    } else {
        bytes.push(0xF0 | #[verifier::truncate] (((scalar >> 18) & 0x7) as u8));
        bytes.push(0x80 | #[verifier::truncate] (((scalar >> 12) & 0x3F) as u8));
        bytes.push(0x80 | #[verifier::truncate] (((scalar >> 6) & 0x3F) as u8));
        bytes.push(0x80 | #[verifier::truncate] ((scalar & 0x3F) as u8));
    }
    proof {
        vstd::utf8::char_is_scalar(c);
        assert(bytes@ =~= encode_scalar(scalar));
    }
    bytes
}

/// Outcome of `char(c)`: where the text holds the UTF-8 encoding of `c` at
/// the position, a success with `c` behind those bytes; a failure in place
/// otherwise.
pub open spec fn char_outcome(c: char, text: Seq<u8>, context: ContextView) -> (
    ContextView,
    ParseResult<char>,
) {
    let bytes = encode_scalar(c as u32);
    if holds_at(text, context.location as int, bytes) {
        matched(context, bytes.len() as usize, c)
    } else {
        mismatch(context, "char"@, "not match"@)
    }
}

/// The step of `char`.
struct CharStep {
    c: char,
    bytes: Vec<u8>,
}

impl ParseStep<char> for CharStep {
    closed spec fn wf(&self) -> bool {
        self.bytes@ == encode_scalar(self.c as u32)
    }

    closed spec fn admits(
        &self,
        text: Seq<u8>,
        context: ContextView,
        next: ContextView,
        result: ParseResult<char>,
    ) -> bool {
        (next, result) == char_outcome(self.c, text, context)
    }

    fn run(&self, input: &mut ParserInput, context: &ParseContext) -> (out: (
        ParseContext,
        ParseResult<char>,
    )) {
        let mut failure: Option<MyError> = None;
        let out = self.scan(input, context, &mut failure);
        settle(context, failure, out)
    }
}

impl CharStep {
    fn scan(
        &self,
        input: &mut ParserInput,
        context: &ParseContext,
        failure: &mut Option<MyError>,
    ) -> (out: (ParseContext, ParseResult<char>))
        requires
            self.wf(),
            old(input).wf(),
        ensures
            final(input).wf(),
            final(input).same_stream(old(input)),
            old(input).content() matches Some(text) ==> *final(failure) == *old(failure)
                && self.admits(text, context@, out.0@, out.1),
    {
        let len = self.bytes.len();
        proof {
            input.lemma_content_fits();
        }
        if holds(input, context.location, self.bytes.as_slice(), failure) && len <= usize::MAX
            - context.location {
            (context.move_location(len), ParseResult::successful(self.c))
        } else {
            fail(context, "char", "not match")
        }
    }
}

/// The parser that matches the one character `c` in its UTF-8 encoding.
pub fn char(c: char) -> (parser: Parser<char>)
    ensures
        parser.wf(),
        forall|text: Seq<u8>, context: ContextView, next: ContextView, result: ParseResult<char>|
            #[trigger] parser.admits(text, context, next, result) == ((next, result)
                == char_outcome(c, text, context)),
{
    Parser { parse: Rc::new(Box::new(CharStep { c, bytes: encode_char(c) })) }
}

/// How many bytes of `bytes`, from its index `from` on, the text holds one
/// after another from `at + from` on.
pub open spec fn matched_from(text: Seq<u8>, at: int, bytes: Seq<u8>, from: int) -> int
    decreases bytes.len() - from,
{
    if 0 <= from < bytes.len() && text_byte(text, at + from) == Some(bytes[from]) {
        1 + matched_from(text, at, bytes, from + 1)
    } else {
        0
    }
}

/// Outcome of `literal(v)` for the bytes of `v`: where the text holds them
/// at the position, a success behind them; otherwise a failure in place whose
/// error lies at the first byte that differs.
pub open spec fn literal_outcome<A>(value: A, bytes: Seq<u8>, text: Seq<u8>, context: ContextView) -> (
    ContextView,
    ParseResult<A>,
) {
    if holds_at(text, context.location as int, bytes) {
        matched(context, bytes.len() as usize, value)
    } else {
        (
            ContextView {
                label: context.label,
                location: context.location,
                error: Some(
                    crate::parse_error::ErrorTree::leaf(
                        (context.location + matched_from(text, context.location as int, bytes, 0)) as usize,
                        "literal"@,
                        "not match"@,
                    ),
                ),
            },
            ParseResult::Failure {  },
        )
    }
}

/// The matched bytes lie within the text.
proof fn lemma_matched_from_bound(text: Seq<u8>, at: int, bytes: Seq<u8>, from: int)
    requires
        0 <= at,
        0 <= from,
    ensures
        0 <= matched_from(text, at, bytes, from),
        from + matched_from(text, at, bytes, from) <= bytes.len() || matched_from(
            text,
            at,
            bytes,
            from,
        ) == 0,
        matched_from(text, at, bytes, from) > 0 ==> at + from + matched_from(text, at, bytes, from)
            <= text.len(),
    decreases bytes.len() - from,
{
    if 0 <= from < bytes.len() && text_byte(text, at + from) == Some(bytes[from]) {
        lemma_matched_from_bound(text, at, bytes, from + 1);
    }
}

/// The step of `literal`.
struct LiteralStep {
    v: &'static str,
}

impl ParseStep<&'static str> for LiteralStep {
    closed spec fn wf(&self) -> bool {
        true
    }

    closed spec fn admits(
        &self,
        text: Seq<u8>,
        context: ContextView,
        next: ContextView,
        result: ParseResult<&'static str>,
    ) -> bool {
        (next, result) == literal_outcome(self.v, self.v.spec_bytes(), text, context)
    }

    fn run(&self, input: &mut ParserInput, context: &ParseContext) -> (out: (
        ParseContext,
        ParseResult<&'static str>,
    )) {
        let mut failure: Option<MyError> = None;
        let out = self.scan(input, context, &mut failure);
        settle(context, failure, out)
    }
}

impl LiteralStep {
    fn scan(
        &self,
        input: &mut ParserInput,
        context: &ParseContext,
        failure: &mut Option<MyError>,
    ) -> (out: (ParseContext, ParseResult<&'static str>))
        requires
            self.wf(),
            old(input).wf(),
        ensures
            final(input).wf(),
            final(input).same_stream(old(input)),
            old(input).content() matches Some(text) ==> *final(failure) == *old(failure)
                && self.admits(text, context@, out.0@, out.1),
    {
        let bytes = self.v.as_bytes();
        let len = bytes.len();
        let ghost start = *input;
        proof {
            input.lemma_content_fits();
        }
        if holds(input, context.location, bytes, failure) && len <= usize::MAX - context.location {
            return (context.move_location(len), ParseResult::successful(self.v));
        }
        let mut matched: usize = 0;
        let mut stopped = false;
        while !stopped
            invariant
                start == *old(input),
                input.wf(),
                input.same_stream(&start),
                len == bytes@.len(),
                matched <= len,
                matched <= usize::MAX - context.location,
                start.content() is Some ==> *failure == *old(failure),
                start.content() matches Some(text) ==> text.len() <= usize::MAX && matched_from(
                    text,
                    context.location as int,
                    bytes@,
                    0,
                ) == matched + matched_from(text, context.location as int, bytes@, matched as int),
                stopped ==> (start.content() matches Some(text) ==> matched_from(
                    text,
                    context.location as int,
                    bytes@,
                    matched as int,
                ) == 0),
            decreases
                    len - matched + if stopped {
                        0int
                    } else {
                        1int
                    },
        {
            if matched >= len || matched >= usize::MAX - context.location {
                stopped = true;
            } else {
                match byte_at(input, context.location + matched, failure) {
                    Some(byte) => {
                        if byte == bytes[matched] {
                            matched += 1;
                        } else {
                            stopped = true;
                        }
                    },
                    None => {
                        stopped = true;
                    },
                }
            }
        }
        let error = crate::parse_error::ParseError::new_error(
            context.location + matched,
            "literal",
            "not match",
        );
        (
            ParseContext {
                label: context.label.clone(),
                location: context.location,
                parse_error_opt: Some(error),
            },
            ParseResult::failure(),
        )
    }
}

/// The parser that matches the bytes of `v` and yields `v`.
pub fn literal(v: &'static str) -> (parser: Parser<&'static str>)
    ensures
        parser.wf(),
        forall|
            text: Seq<u8>,
            context: ContextView,
            next: ContextView,
            result: ParseResult<&'static str>,
        |
            #[trigger] parser.admits(text, context, next, result) == ((next, result)
                == literal_outcome(v, v.spec_bytes(), text, context)),
{
    Parser { parse: Rc::new(Box::new(LiteralStep { v })) }
}

/// Outcome of `end()`: a success in place where the text holds no byte at
/// the position, a failure in place otherwise.
pub open spec fn end_outcome(text: Seq<u8>, context: ContextView) -> (
    ContextView,
    ParseResult<()>,
) {
    if text.len() > context.location {
        mismatch(context, "end"@, "not end"@)
    } else {
        (context, ParseResult::Success { value: () })
    }
}

/// The step of `end`.
struct EndStep {}

impl ParseStep<()> for EndStep {
    closed spec fn wf(&self) -> bool {
        true
    }

    closed spec fn admits(
        &self,
        text: Seq<u8>,
        context: ContextView,
        next: ContextView,
        result: ParseResult<()>,
    ) -> bool {
        (next, result) == end_outcome(text, context)
    }

    fn run(&self, input: &mut ParserInput, context: &ParseContext) -> (out: (
        ParseContext,
        ParseResult<()>,
    )) {
        let mut failure: Option<MyError> = None;
        let out = self.scan(input, context, &mut failure);
        settle(context, failure, out)
    }
}

impl EndStep {
    fn scan(
        &self,
        input: &mut ParserInput,
        context: &ParseContext,
        failure: &mut Option<MyError>,
    ) -> (out: (ParseContext, ParseResult<()>))
        requires
            self.wf(),
            old(input).wf(),
        ensures
            final(input).wf(),
            final(input).same_stream(old(input)),
            old(input).content() matches Some(text) ==> *final(failure) == *old(failure)
                && self.admits(text, context@, out.0@, out.1),
    {
        match byte_at(input, context.location, failure) {
            Some(_) => fail(context, "end", "not end"),
            None => (context.clone(), ParseResult::successful(())),
        }
    }
}

/// The parser that succeeds, consuming nothing, only where the input has no
/// further byte.
pub fn end() -> (parser: Parser<()>)
    ensures
        parser.wf(),
        forall|text: Seq<u8>, context: ContextView, next: ContextView, result: ParseResult<()>|
            #[trigger] parser.admits(text, context, next, result) == ((next, result)
                == end_outcome(text, context)),
{
    Parser { parse: Rc::new(Box::new(EndStep {  })) }
}

/// Whether `at` is the start of the text or lies just behind a carriage
/// return or a line feed.
pub open spec fn at_line_start(text: Seq<u8>, at: int) -> bool {
    at == 0 || text_byte(text, at - 1) == Some(CR_CODE) || text_byte(text, at - 1) == Some(
        LF_CODE,
    )
}

/// Outcome of `head()`: a success in place at the start of a line, a
/// failure in place elsewhere.
pub open spec fn head_outcome(text: Seq<u8>, context: ContextView) -> (
    ContextView,
    ParseResult<()>,
) {
    if at_line_start(text, context.location as int) {
        (context, ParseResult::Success { value: () })
    } else {
        mismatch(context, "head"@, "not head"@)
    }
}

/// The step of `head`.
struct HeadStep {}

impl ParseStep<()> for HeadStep {
    closed spec fn wf(&self) -> bool {
        true
    }

    closed spec fn admits(
        &self,
        text: Seq<u8>,
        context: ContextView,
        next: ContextView,
        result: ParseResult<()>,
    ) -> bool {
        (next, result) == head_outcome(text, context)
    }

    fn run(&self, input: &mut ParserInput, context: &ParseContext) -> (out: (
        ParseContext,
        ParseResult<()>,
    )) {
        let mut failure: Option<MyError> = None;
        let out = self.scan(input, context, &mut failure);
        settle(context, failure, out)
    }
}

impl HeadStep {
    fn scan(
        &self,
        input: &mut ParserInput,
        context: &ParseContext,
        failure: &mut Option<MyError>,
    ) -> (out: (ParseContext, ParseResult<()>))
        requires
            self.wf(),
            old(input).wf(),
        ensures
            final(input).wf(),
            final(input).same_stream(old(input)),
            old(input).content() matches Some(text) ==> *final(failure) == *old(failure)
                && self.admits(text, context@, out.0@, out.1),
    {
        if context.location == 0 {
            (context.clone(), ParseResult::successful(()))
        } else {
            match byte_at(input, context.location - 1, failure) {
                Some(byte) => {
                    if byte == CR_CODE || byte == LF_CODE {
                        (context.clone(), ParseResult::successful(()))
                    } else {
                        fail(context, "head", "not head")
                    }
                },
                None => fail(context, "head", "not head"),
            }
        }
    }
}

/// The parser that succeeds, consuming nothing, only at the start of the
/// input or just behind a line terminator.
pub fn head() -> (parser: Parser<()>)
    ensures
        parser.wf(),
        forall|text: Seq<u8>, context: ContextView, next: ContextView, result: ParseResult<()>|
            #[trigger] parser.admits(text, context, next, result) == ((next, result)
                == head_outcome(text, context)),
{
    Parser { parse: Rc::new(Box::new(HeadStep {  })) }
}

/// Length of the line terminator at `at`: two for a carriage return with a
/// line feed behind it, one for either of them alone, zero where there is
/// none.
pub open spec fn terminator_len(text: Seq<u8>, at: int) -> usize {
    if text_byte(text, at) == Some(CR_CODE) {
        if text_byte(text, at + 1) == Some(LF_CODE) {
            2
        } else {
            1
        }
    } else if text_byte(text, at) == Some(LF_CODE) {
        1
    } else {
        0
    }
}

/// Outcome of `break_line()`: a success behind the line terminator at the
/// position, a failure in place where there is none.
pub open spec fn break_line_outcome(text: Seq<u8>, context: ContextView) -> (
    ContextView,
    ParseResult<()>,
) {
    if terminator_len(text, context.location as int) > 0 {
        matched(context, terminator_len(text, context.location as int), ())
    } else {
        mismatch(context, "break_line"@, "not break line"@)
    }
}

/// The step of `break_line`.
struct BreakLineStep {}

impl ParseStep<()> for BreakLineStep {
    closed spec fn wf(&self) -> bool {
        true
    }

    closed spec fn admits(
        &self,
        text: Seq<u8>,
        context: ContextView,
        next: ContextView,
        result: ParseResult<()>,
    ) -> bool {
        (next, result) == break_line_outcome(text, context)
    }

    fn run(&self, input: &mut ParserInput, context: &ParseContext) -> (out: (
        ParseContext,
        ParseResult<()>,
    )) {
        let mut failure: Option<MyError> = None;
        let out = self.scan(input, context, &mut failure);
        settle(context, failure, out)
    }
}

impl BreakLineStep {
    fn scan(
        &self,
        input: &mut ParserInput,
        context: &ParseContext,
        failure: &mut Option<MyError>,
    ) -> (out: (ParseContext, ParseResult<()>))
        requires
            self.wf(),
            old(input).wf(),
        ensures
            final(input).wf(),
            final(input).same_stream(old(input)),
            old(input).content() matches Some(text) ==> *final(failure) == *old(failure)
                && self.admits(text, context@, out.0@, out.1),
    {
        proof {
            input.lemma_content_fits();
        }
        match byte_at(input, context.location, failure) {
            Some(first) => {
                if context.location == usize::MAX {
                    fail(context, "break_line", "not break line")
                } else if first == CR_CODE {
                    match byte_at(input, context.location + 1, failure) {
                        Some(second) => {
                            if second == LF_CODE && context.location + 1 < usize::MAX {
                                (context.move_location(2), ParseResult::successful(()))
                            } else {
                                (context.move_location(1), ParseResult::successful(()))
                            }
                        },
                        None => (context.move_location(1), ParseResult::successful(())),
                    }
                } else if first == LF_CODE {
                    (context.move_location(1), ParseResult::successful(()))
                } else {
                    fail(context, "break_line", "not break line")
                }
            },
            None => fail(context, "break_line", "not break line"),
        }
    }
}

/// The parser that matches one line terminator: a carriage return with a
/// line feed as one, or either of them alone.
pub fn break_line() -> (parser: Parser<()>)
    ensures
        parser.wf(),
        forall|text: Seq<u8>, context: ContextView, next: ContextView, result: ParseResult<()>|
            #[trigger] parser.admits(text, context, next, result) == ((next, result)
                == break_line_outcome(text, context)),
{
    Parser { parse: Rc::new(Box::new(BreakLineStep {  })) }
}

/// Whether the text holds a space or a tab at `at`.
pub open spec fn blank_at(text: Seq<u8>, at: int) -> bool {
    text_byte(text, at) == Some(SPACE_CODE) || text_byte(text, at) == Some(TAB_CODE)
}

/// Outcome of `space()`: a success behind the one space or tab at the
/// position, a failure in place where there is none.
pub open spec fn space_outcome(text: Seq<u8>, context: ContextView) -> (
    ContextView,
    ParseResult<()>,
) {
    if blank_at(text, context.location as int) {
        matched(context, 1, ())
    } else {
        mismatch(context, "space"@, "not space"@)
    }
}

/// The step of `space`.
struct SpaceStep {}

impl ParseStep<()> for SpaceStep {
    closed spec fn wf(&self) -> bool {
        true
    }

    closed spec fn admits(
        &self,
        text: Seq<u8>,
        context: ContextView,
        next: ContextView,
        result: ParseResult<()>,
    ) -> bool {
        (next, result) == space_outcome(text, context)
    }

    fn run(&self, input: &mut ParserInput, context: &ParseContext) -> (out: (
        ParseContext,
        ParseResult<()>,
    )) {
        let mut failure: Option<MyError> = None;
        let out = self.scan(input, context, &mut failure);
        settle(context, failure, out)
    }
}

impl SpaceStep {
    fn scan(
        &self,
        input: &mut ParserInput,
        context: &ParseContext,
        failure: &mut Option<MyError>,
    ) -> (out: (ParseContext, ParseResult<()>))
        requires
            self.wf(),
            old(input).wf(),
        ensures
            final(input).wf(),
            final(input).same_stream(old(input)),
            old(input).content() matches Some(text) ==> *final(failure) == *old(failure)
                && self.admits(text, context@, out.0@, out.1),
    {
        proof {
            input.lemma_content_fits();
        }
        match byte_at(input, context.location, failure) {
            Some(byte) => {
                if (byte == SPACE_CODE || byte == TAB_CODE) && context.location < usize::MAX {
                    (context.move_location(1), ParseResult::successful(()))
                } else {
                    fail(context, "space", "not space")
                }
            },
            None => fail(context, "space", "not space"),
        }
    }
}

/// The parser that matches exactly one space or tab.
pub fn space() -> (parser: Parser<()>)
    ensures
        parser.wf(),
        forall|text: Seq<u8>, context: ContextView, next: ContextView, result: ParseResult<()>|
            #[trigger] parser.admits(text, context, next, result) == ((next, result)
                == space_outcome(text, context)),
{
    Parser { parse: Rc::new(Box::new(SpaceStep {  })) }
}

/// The step of `unit`.
struct UnitStep {}

impl ParseStep<()> for UnitStep {
    closed spec fn wf(&self) -> bool {
        true
    }

    closed spec fn admits(
        &self,
        text: Seq<u8>,
        context: ContextView,
        next: ContextView,
        result: ParseResult<()>,
    ) -> bool {
        next == context && result == (ParseResult::Success { value: () })
    }

    fn run(&self, input: &mut ParserInput, context: &ParseContext) -> (out: (
        ParseContext,
        ParseResult<()>,
    )) {
        (context.clone(), ParseResult::successful(()))
    }
}

/// The parser that always succeeds with `()` and leaves the context as it
/// was.
pub fn unit() -> (parser: Parser<()>)
    ensures
        parser.wf(),
        forall|text: Seq<u8>, context: ContextView, next: ContextView, result: ParseResult<()>|
            #[trigger] parser.admits(text, context, next, result) == (next == context && result == (
                ParseResult::Success { value: () }
            )),
{
    Parser { parse: Rc::new(Box::new(UnitStep {  })) }
}

/// Whether the thunk may be called and gives only parsers that may be run.
pub open spec fn defers<A, F>(f: F) -> bool where F: Fn() -> Parser<A> {
    &&& call_requires(f, ())
    &&& forall|parser: Parser<A>| call_ensures(f, (), parser) ==> parser.wf()
}

/// Meaning of `lazy(f)`: whatever a parser that `f` gives admits.
pub open spec fn lazy_admits<A, F>(
    f: F,
    text: Seq<u8>,
    context: ContextView,
    next: ContextView,
    result: ParseResult<A>,
) -> bool where F: Fn() -> Parser<A> {
    exists|parser: Parser<A>| #[trigger]
        call_ensures(f, (), parser) && parser.admits(text, context, next, result)
}

/// The step of `lazy`.
struct LazyStep<F> {
    f: F,
}

impl<A, F> ParseStep<A> for LazyStep<F> where F: Fn() -> Parser<A> {
    closed spec fn wf(&self) -> bool {
        defers(self.f)
    }

    closed spec fn admits(
        &self,
        text: Seq<u8>,
        context: ContextView,
        next: ContextView,
        result: ParseResult<A>,
    ) -> bool {
        lazy_admits(self.f, text, context, next, result)
    }

    fn run(&self, input: &mut ParserInput, context: &ParseContext) -> (out: (
        ParseContext,
        ParseResult<A>,
    )) {
        let parser = (self.f)();
        parser.parse(input, context)
    }
}

/// The parser that asks `f` for a parser each time it is run, and runs that.
/// A grammar that refers to itself names itself through such a thunk, so that
/// the reference is resolved when the input is read and not when the grammar
/// is built. Each nesting of the input is one nested call: the depth of the
/// call stack is the depth of the document.
pub fn lazy<A, F>(f: F) -> (parser: Parser<A>) where F: Fn() -> Parser<A> + 'static, A: 'static
    requires
        defers(f),
    ensures
        parser.wf(),
        forall|text: Seq<u8>, context: ContextView, next: ContextView, result: ParseResult<A>|
            #[trigger] parser.admits(text, context, next, result) == lazy_admits(
                f,
                text,
                context,
                next,
                result,
            ),
{
    Parser { parse: Rc::new(Box::new(LazyStep { f })) }
}

/// Whether `byte` is a decimal digit.
pub open spec fn is_digit(byte: u8) -> bool {
    ZERO_CODE <= byte <= NINE_CODE
}

/// The position behind the run of digits that starts at `at`.
pub open spec fn digits_end(text: Seq<u8>, at: int) -> int
    decreases text.len() - at,
{
    if 0 <= at < text.len() && is_digit(text[at]) {
        digits_end(text, at + 1)
    } else {
        at
    }
}

/// Length of the sign at `at`: one for `+` or `-`, zero where there is none.
pub open spec fn sign_len(text: Seq<u8>, at: int) -> int {
    if text_byte(text, at) == Some(MINUS_CODE) || text_byte(text, at) == Some(PLUS_CODE) {
        1
    } else {
        0
    }
}

/// The digits of `text` from `from` up to `to` read as a decimal number in
/// the arithmetic of `i32`, which wraps.
pub open spec fn digits_i32(text: Seq<u8>, from: int, to: int) -> i32
    decreases to - from,
{
    if to <= from || to > text.len() || from < 0 {
        0
    } else {
        vstd::wrapping::i32_specs::wrapping_add(
            vstd::wrapping::i32_specs::wrapping_mul(digits_i32(text, from, to - 1), 10),
            (text[to - 1] - ZERO_CODE) as i32,
        )
    }
}

/// Outcome of `number_i32()`: an optional sign and then a run of at least one
/// digit give a success behind the run, with the signed value in wrapping
/// arithmetic; anything else is a failure in place.
pub open spec fn number_i32_outcome(text: Seq<u8>, context: ContextView) -> (
    ContextView,
    ParseResult<i32>,
) {
    let start = context.location + sign_len(text, context.location as int);
    let end = digits_end(text, start);
    let sign = if text_byte(text, context.location as int) == Some(MINUS_CODE) {
        -1i32
    } else {
        1i32
    };
    if end > start {
        (
            context.new_location(end as usize),
            ParseResult::Success {
                value: vstd::wrapping::i32_specs::wrapping_mul(sign, digits_i32(text, start, end)),
            },
        )
    } else {
        mismatch(context, "number"@, "not number"@)
    }
}

/// The step of `number_i32`.
struct NumberI32Step {}

impl ParseStep<i32> for NumberI32Step {
    closed spec fn wf(&self) -> bool {
        true
    }

    closed spec fn admits(
        &self,
        text: Seq<u8>,
        context: ContextView,
        next: ContextView,
        result: ParseResult<i32>,
    ) -> bool {
        (next, result) == number_i32_outcome(text, context)
    }

    fn run(&self, input: &mut ParserInput, context: &ParseContext) -> (out: (
        ParseContext,
        ParseResult<i32>,
    )) {
        let mut failure: Option<MyError> = None;
        let out = self.scan(input, context, &mut failure);
        settle(context, failure, out)
    }
}

impl NumberI32Step {
    fn scan(
        &self,
        input: &mut ParserInput,
        context: &ParseContext,
        failure: &mut Option<MyError>,
    ) -> (out: (ParseContext, ParseResult<i32>))
        requires
            self.wf(),
            old(input).wf(),
        ensures
            final(input).wf(),
            final(input).same_stream(old(input)),
            old(input).content() matches Some(text) ==> *final(failure) == *old(failure)
                && self.admits(text, context@, out.0@, out.1),
    {
        let ghost origin = *input;
        proof {
            input.lemma_content_fits();
        }
        let mut sign: i32 = 1;
        let mut cursor: usize = context.location;
        match byte_at(input, cursor, failure) {
            Some(byte) => {
                if cursor < usize::MAX {
                    if byte == MINUS_CODE {
                        sign = -1;
                        cursor += 1;
                    } else if byte == PLUS_CODE {
                        cursor += 1;
                    }
                }
            },
            None => {},
        }
        let start: usize = cursor;
        let mut number: i32 = 0;
        let mut stopped = false;
        while !stopped
            invariant
                origin == *old(input),
                input.wf(),
                input.same_stream(&origin),
                start <= cursor,
                origin.content() is Some ==> *failure == *old(failure),
                origin.content() matches Some(text) ==> {
                    &&& text.len() <= usize::MAX
                    &&& start == context.location + sign_len(text, context.location as int)
                    &&& cursor <= text.len() || cursor == start
                    &&& digits_end(text, start as int) == digits_end(text, cursor as int)
                    &&& number == digits_i32(text, start as int, cursor as int)
                    &&& stopped ==> digits_end(text, cursor as int) == cursor
                },
            decreases
                    usize::MAX - cursor + if stopped {
                        0int
                    } else {
                        1int
                    },
        {
            match byte_at(input, cursor, failure) {
                Some(byte) => {
                    if ZERO_CODE <= byte && byte <= NINE_CODE && cursor < usize::MAX {
                        number = number.wrapping_mul(10).wrapping_add((byte - ZERO_CODE) as i32);
                        cursor += 1;
                    } else {
                        stopped = true;
                    }
                },
                None => {
                    stopped = true;
                },
            }
        }
        if cursor > start {
            (context.new_location(cursor), ParseResult::successful(sign.wrapping_mul(number)))
        } else {
            fail(context, "number", "not number")
        }
    }
}

/// The parser that reads a signed decimal integer into an `i32`.
pub fn number_i32() -> (parser: Parser<i32>)
    ensures
        parser.wf(),
        forall|text: Seq<u8>, context: ContextView, next: ContextView, result: ParseResult<i32>|
            #[trigger] parser.admits(text, context, next, result) == ((next, result)
                == number_i32_outcome(text, context)),
{
    Parser { parse: Rc::new(Box::new(NumberI32Step {  })) }
}

/// Whether, behind an element that ended in `from`, the list goes on with
/// exactly `values` and ends in `end`. The list ends where the separator
/// fails, or where it succeeds and no element follows: the separator is then
/// given back, and in both cases the position is `from` again, with the error
/// of the failed attempt attached. An element that, with its separator, moved
/// nothing on ends the list too.
pub open spec fn array_rest<P, Q>(
    parser: P,
    separator: Q,
    text: Seq<u8>,
    from: ContextView,
    values: Seq<P::Output>,
    end: ContextView,
) -> bool where P: ParserTrait, Q: ParserTrait
    decreases values.len(),
{
    if values.len() == 0 {
        ||| exists|failed: ContextView| #[trigger]
            separator.admits(text, from, failed, ParseResult::Failure {  }) && end
                == failed.new_location(from.location)
        ||| exists|behind: ContextView, mark: Q::Output, failed: ContextView|
            {
                &&& #[trigger] separator.admits(
                    text,
                    from,
                    behind,
                    ParseResult::Success { value: mark },
                )
                &&& #[trigger] parser.admits(text, behind, failed, ParseResult::Failure {  })
                &&& end == failed.new_location(from.location)
            }
    } else {
        exists|behind: ContextView, mark: Q::Output, next: ContextView|
            {
                &&& #[trigger] separator.admits(
                    text,
                    from,
                    behind,
                    ParseResult::Success { value: mark },
                )
                &&& #[trigger] parser.admits(
                    text,
                    behind,
                    next,
                    ParseResult::Success { value: values[0] },
                )
                &&& if next.location > from.location {
                    array_rest(parser, separator, text, next, values.skip(1), end)
                } else {
                    values.len() == 1 && end == next
                }
            }
    }
}

/// Whether the elements of a list that starts in `from` are exactly `values`
/// and end in `end`. Where no element stands at the start the list is empty
/// and the position stays.
pub open spec fn array_items<P, Q>(
    parser: P,
    separator: Q,
    text: Seq<u8>,
    from: ContextView,
    values: Seq<P::Output>,
    end: ContextView,
) -> bool where P: ParserTrait, Q: ParserTrait {
    if values.len() == 0 {
        exists|failed: ContextView| #[trigger]
            parser.admits(text, from, failed, ParseResult::Failure {  }) && end
                == failed.new_location(from.location)
    } else {
        exists|next: ContextView| #[trigger]
            parser.admits(text, from, next, ParseResult::Success { value: values[0] })
                && array_rest(parser, separator, text, next, values.skip(1), end)
    }
}

/// Meaning of `array`: the left bracket, the elements, the right bracket.
/// The failure of a bracket is the failure of the list.
pub open spec fn array_admits<A, B, C, D>(
    parser: Parser<A>,
    left_bracket: Parser<B>,
    right_bracket: Parser<C>,
    separator: Parser<D>,
    text: Seq<u8>,
    context: ContextView,
    next: ContextView,
    result: ParseResult<Vec<A>>,
) -> bool {
    ||| result is Failure && left_bracket.admits(text, context, next, ParseResult::Failure {  })
    ||| exists|opened: ContextView, open: B, values: Seq<A>, listed: ContextView|
        {
            &&& #[trigger] left_bracket.admits(
                text,
                context,
                opened,
                ParseResult::Success { value: open },
            )
            &&& #[trigger] array_items(parser, separator, text, opened, values, listed)
            &&& result is Failure
            &&& right_bracket.admits(text, listed, next, ParseResult::Failure {  })
        }
    ||| exists|opened: ContextView, open: B, values: Seq<A>, listed: ContextView, close: C|
        {
            &&& #[trigger] left_bracket.admits(
                text,
                context,
                opened,
                ParseResult::Success { value: open },
            )
            &&& #[trigger] array_items(parser, separator, text, opened, values, listed)
            &&& #[trigger] right_bracket.admits(
                text,
                listed,
                next,
                ParseResult::Success { value: close },
            )
            &&& result is Success
            &&& result->value@ == values
        }
}

/// A list ends where the separator fails.
proof fn lemma_rest_without_separator<A, D>(
    parser: Parser<A>,
    separator: Parser<D>,
    text: Seq<u8>,
    from: ContextView,
    failed: ContextView,
)
    requires
        separator.admits(text, from, failed, ParseResult::Failure {  }),
    ensures
        array_rest(
            parser,
            separator,
            text,
            from,
            Seq::<A>::empty(),
            failed.new_location(from.location),
        ),
{
}

/// A list ends before a separator that no element follows.
proof fn lemma_rest_without_element<A, D>(
    parser: Parser<A>,
    separator: Parser<D>,
    text: Seq<u8>,
    from: ContextView,
    behind: ContextView,
    mark: D,
    failed: ContextView,
)
    requires
        separator.admits(text, from, behind, ParseResult::Success { value: mark }),
        parser.admits(text, behind, failed, ParseResult::Failure {  }),
    ensures
        array_rest(
            parser,
            separator,
            text,
            from,
            Seq::<A>::empty(),
            failed.new_location(from.location),
        ),
{
}

/// A separator and an element in front of the rest of a list make a longer
/// rest, if they moved the position on; if not, the list ends with them.
proof fn lemma_rest_with_element<A, D>(
    parser: Parser<A>,
    separator: Parser<D>,
    text: Seq<u8>,
    from: ContextView,
    behind: ContextView,
    mark: D,
    next: ContextView,
    value: A,
    tail: Seq<A>,
    end: ContextView,
)
    requires
        separator.admits(text, from, behind, ParseResult::Success { value: mark }),
        parser.admits(text, behind, next, ParseResult::Success { value }),
        if next.location > from.location {
            array_rest(parser, separator, text, next, tail, end)
        } else {
            tail.len() == 0 && end == next
        },
    ensures
        array_rest(parser, separator, text, from, seq![value] + tail, end),
{
    let longer = seq![value] + tail;
    assert(longer.skip(1) =~= tail);
    assert(parser.admits(text, behind, next, ParseResult::Success { value: longer[0] }));
}

/// Reads the elements of a list from `context` on.
fn run_items<A, D>(
    parser: &Parser<A>,
    separator: &Parser<D>,
    input: &mut ParserInput,
    context: &ParseContext,
) -> (out: (ParseContext, Vec<A>))
    requires
        parser.wf(),
        separator.wf(),
        old(input).wf(),
    ensures
        final(input).wf(),
        final(input).same_stream(old(input)),
        old(input).content() matches Some(text) ==> array_items(
            *parser,
            *separator,
            text,
            context@,
            out.1@,
            out.0@,
        ),
{
    let ghost origin = *input;
    let mut vec: Vec<A> = Vec::new();
    let mut current: ParseContext;
    match parser.parse(input, context) {
        (failed, ParseResult::Failure {  }) => {
            return (failed.new_location(context.location), vec);
        },
        (next_context, ParseResult::Success { value }) => {
            proof {
                if origin.content() is Some {
                    let text = origin.content()->Some_0;
                    assert forall|tail: Seq<A>, end: ContextView| #[trigger]
                        array_rest(
                            *parser,
                            *separator,
                            text,
                            next_context@,
                            tail,
                            end,
                        ) implies array_items(
                        *parser,
                        *separator,
                        text,
                        context@,
                        vec@.push(value) + tail,
                        end,
                    ) by {
                        let all = vec@.push(value) + tail;
                        assert(all.skip(1) =~= tail);
                        assert(parser.admits(
                            text,
                            context@,
                            next_context@,
                            ParseResult::Success { value: all[0] },
                        ));
                    }
                }
            }
            vec.push(value);
            current = next_context;
        },
    }
    loop
        invariant
            origin == *old(input),
            parser.wf(),
            separator.wf(),
            input.wf(),
            input.same_stream(&origin),
            origin.content() matches Some(text) ==> forall|tail: Seq<A>, end: ContextView| #[trigger]
                array_rest(*parser, *separator, text, current@, tail, end) ==> array_items(
                    *parser,
                    *separator,
                    text,
                    context@,
                    vec@ + tail,
                    end,
                ),
        decreases usize::MAX - current.location,
    {
        match separator.parse(input, &current) {
            (failed, ParseResult::Failure {  }) => {
                let end = failed.new_location(current.location);
                proof {
                    if origin.content() is Some {
                        let text = origin.content()->Some_0;
                        lemma_rest_without_separator(*parser, *separator, text, current@, failed@);
                        assert(vec@ + Seq::<A>::empty() =~= vec@);
                    }
                }
                return (end, vec);
            },
            (behind, ParseResult::Success { value: mark }) => {
                match parser.parse(input, &behind) {
                    (failed, ParseResult::Failure {  }) => {
                        let end = failed.new_location(current.location);
                        proof {
                            if origin.content() is Some {
                                let text = origin.content()->Some_0;
                                lemma_rest_without_element(
                                    *parser,
                                    *separator,
                                    text,
                                    current@,
                                    behind@,
                                    mark,
                                    failed@,
                                );
                                assert(vec@ + Seq::<A>::empty() =~= vec@);
                            }
                        }
                        return (end, vec);
                    },
                    (next_context, ParseResult::Success { value }) => {
                        proof {
                            if origin.content() is Some {
                                let text = origin.content()->Some_0;
                                if next_context.location > current.location {
                                    assert forall|tail: Seq<A>, end: ContextView| #[trigger]
                                        array_rest(
                                            *parser,
                                            *separator,
                                            text,
                                            next_context@,
                                            tail,
                                            end,
                                        ) implies array_items(
                                        *parser,
                                        *separator,
                                        text,
                                        context@,
                                        vec@.push(value) + tail,
                                        end,
                                    ) by {
                                        lemma_rest_with_element(
                                            *parser,
                                            *separator,
                                            text,
                                            current@,
                                            behind@,
                                            mark,
                                            next_context@,
                                            value,
                                            tail,
                                            end,
                                        );
                                        assert(vec@ + (seq![value] + tail) =~= vec@.push(value)
                                            + tail);
                                    }
                                } else {
                                    lemma_rest_with_element(
                                        *parser,
                                        *separator,
                                        text,
                                        current@,
                                        behind@,
                                        mark,
                                        next_context@,
                                        value,
                                        Seq::<A>::empty(),
                                        next_context@,
                                    );
                                    assert(vec@ + (seq![value] + Seq::<A>::empty())
                                        =~= vec@.push(value));
                                }
                            }
                        }
                        vec.push(value);
                        if next_context.location > current.location {
                            current = next_context;
                        } else {
                            return (next_context, vec);
                        }
                    },
                }
            },
        }
    }
}

/// The step of `array`.
#[verifier::reject_recursive_types(A)]
#[verifier::reject_recursive_types(B)]
#[verifier::reject_recursive_types(C)]
#[verifier::reject_recursive_types(D)]
struct ArrayStep<A, B, C, D> {
    parser: Parser<A>,
    left_bracket: Parser<B>,
    right_bracket: Parser<C>,
    separator: Parser<D>,
}

impl<A, B, C, D> ParseStep<Vec<A>> for ArrayStep<A, B, C, D> {
    closed spec fn wf(&self) -> bool {
        &&& self.parser.wf()
        &&& self.left_bracket.wf()
        &&& self.right_bracket.wf()
        &&& self.separator.wf()
    }

    closed spec fn admits(
        &self,
        text: Seq<u8>,
        context: ContextView,
        next: ContextView,
        result: ParseResult<Vec<A>>,
    ) -> bool {
        array_admits(
            self.parser,
            self.left_bracket,
            self.right_bracket,
            self.separator,
            text,
            context,
            next,
            result,
        )
    }

    fn run(&self, input: &mut ParserInput, context: &ParseContext) -> (out: (
        ParseContext,
        ParseResult<Vec<A>>,
    )) {
        match self.left_bracket.parse(input, context) {
            (failed, ParseResult::Failure {  }) => (failed, ParseResult::failure()),
            (opened, ParseResult::Success { value: open }) => {
                let (listed, values) = run_items(&self.parser, &self.separator, input, &opened);
                match self.right_bracket.parse(input, &listed) {
                    (failed, ParseResult::Failure {  }) => (failed, ParseResult::failure()),
                    (closed, ParseResult::Success { value: close }) => (
                        closed,
                        ParseResult::successful(values),
                    ),
                }
            },
        }
    }
}

/// The parser of a list: `left_bracket`, then elements read by `parser` with
/// `separator` between them, then `right_bracket`. The list may be empty, and
/// a separator behind the last element is left unread for the right bracket
/// to refuse or accept.
pub fn array<A, B, C, D>(
    parser: Parser<A>,
    left_bracket: Parser<B>,
    right_bracket: Parser<C>,
    separator: Parser<D>,
) -> (list: Parser<Vec<A>>) where A: 'static, B: 'static, C: 'static, D: 'static
    requires
        parser.wf(),
        left_bracket.wf(),
        right_bracket.wf(),
        separator.wf(),
    ensures
        list.wf(),
        forall|text: Seq<u8>, context: ContextView, next: ContextView, result: ParseResult<Vec<A>>|
            #[trigger] list.admits(text, context, next, result) == array_admits(
                parser,
                left_bracket,
                right_bracket,
                separator,
                text,
                context,
                next,
                result,
            ),
{
    Parser {
        parse: Rc::new(Box::new(ArrayStep { parser, left_bracket, right_bracket, separator })),
    }
}


/// The context in which both a space and a line terminator were looked for
/// in vain in `context`.
pub open spec fn no_blank(context: ContextView) -> ContextView {
    choice_failure(
        context,
        context.new_error("space"@, "not space"@),
        context.new_error("break_line"@, "not break line"@),
        "or"@,
    )
}

/// Outcome of `space_or_line()`: a success behind the one space or tab at the
/// position, or else behind the line terminator there; a failure in place
/// where there is neither.
pub open spec fn space_or_line_outcome(text: Seq<u8>, context: ContextView) -> (
    ContextView,
    ParseResult<()>,
) {
    if blank_at(text, context.location as int) {
        matched(context, 1, ())
    } else if terminator_len(text, context.location as int) > 0 {
        matched(context, terminator_len(text, context.location as int), ())
    } else {
        (no_blank(context), ParseResult::Failure {  })
    }
}

/// The parser that matches one space or tab, or else one line terminator.
pub fn space_or_line() -> (parser: Parser<()>)
    ensures
        parser.wf(),
        forall|text: Seq<u8>, context: ContextView, next: ContextView, result: ParseResult<()>|
            #[trigger] parser.admits(text, context, next, result) == ((next, result)
                == space_or_line_outcome(text, context)),
{
    let blank = space();
    let line = break_line();
    let parser = blank.or(line);
    proof {
        assert forall|
            text: Seq<u8>,
            context: ContextView,
            next: ContextView,
            result: ParseResult<()>,
        | #[trigger] parser.admits(text, context, next, result) == ((next, result)
            == space_or_line_outcome(text, context)) by {
            let no_space = context.new_error("space"@, "not space"@);
            let no_line = context.new_error("break_line"@, "not break line"@);
            assert(parser.admits(text, context, next, result) == or_admits(
                blank,
                line,
                text,
                context,
                next,
                result,
            ));
            if (next, result) == space_or_line_outcome(text, context) {
                if blank_at(text, context.location as int) {
                    assert(blank.admits(text, context, next, result));
                } else {
                    assert(blank.admits(text, context, no_space, ParseResult::Failure {  }));
                    if terminator_len(text, context.location as int) > 0 {
                        assert(line.admits(text, context, next, result));
                    } else {
                        assert(line.admits(text, context, no_line, ParseResult::Failure {  }));
                    }
                }
            }
        }
    }
    parser
}

/// The position behind the run of spaces, tabs and line terminators that
/// starts at `at`.
pub open spec fn blanks_end(text: Seq<u8>, at: int) -> int
    decreases text.len() - at,
{
    if blank_at(text, at) {
        blanks_end(text, at + 1)
    } else if terminator_len(text, at) > 0 {
        blanks_end(text, at + terminator_len(text, at))
    } else {
        at
    }
}

/// The context behind the blanks that start in `context`: the position is
/// the first that holds no blank, and the error says that none was found
/// there.
pub open spec fn blanks_skipped(text: Seq<u8>, context: ContextView) -> ContextView {
    no_blank(context.new_location(blanks_end(text, context.location as int) as usize))
}

/// Repeating `space_or_line` ends behind the blanks.
pub proof fn lemma_blanks_repeat(
    parser: Parser<()>,
    text: Seq<u8>,
    from: ContextView,
    values: Seq<()>,
    end: ContextView,
)
    requires
        text.len() <= usize::MAX,
        forall|t: Seq<u8>, c: ContextView, n: ContextView, r: ParseResult<()>|
            #[trigger] parser.admits(t, c, n, r) == ((n, r) == space_or_line_outcome(t, c)),
        repeats(parser, text, from, values, end),
    ensures
        end == blanks_skipped(text, from),
    decreases values.len(),
{
    if values.len() == 0 {
        let failed = choose|failed: ContextView| #[trigger]
            parser.admits(text, from, failed, ParseResult::Failure {  }) && end
                == failed.new_location(from.location);
        assert(from.new_location(from.location) == from);
    } else {
        let next = choose|next: ContextView| #[trigger]
            parser.admits(text, from, next, ParseResult::Success { value: values[0] }) && if next.location
                > from.location {
                repeats(parser, text, next, values.skip(1), end)
            } else {
                values.len() == 1 && end == next
            };
        assert(next.location > from.location);
        lemma_blanks_repeat(parser, text, next, values.skip(1), end);
        assert(next.new_location(blanks_end(text, next.location as int) as usize)
            == from.new_location(blanks_end(text, from.location as int) as usize));
    }
}

/// The parser that skips every space, tab and line terminator from the
/// position on. It never fails.
pub fn space_or_line_seq() -> (parser: Parser<()>)
    ensures
        parser.wf(),
        forall|text: Seq<u8>, context: ContextView, next: ContextView, result: ParseResult<()>|
            text.len() <= usize::MAX && #[trigger] parser.admits(text, context, next, result) ==> (
            next,
            result,
        ) == (blanks_skipped(text, context), ParseResult::Success { value: () }),
{
    let one = space_or_line();
    let many = one.seq0();
    let forget = |_blanks: Vec<()>| -> (nothing: ()) { () };
    let parser = many.map(forget);
    proof {
        assert forall|
            text: Seq<u8>,
            context: ContextView,
            next: ContextView,
            result: ParseResult<()>,
        | text.len() <= usize::MAX && #[trigger] parser.admits(
            text,
            context,
            next,
            result,
        ) implies (next, result) == (
            blanks_skipped(text, context),
            ParseResult::Success { value: () },
        ) by {
            assert(map_admits(many, forget, text, context, next, result));
            if result is Failure {
                assert(seq0_admits(one, text, context, next, ParseResult::Failure {  }));
            } else {
                let blanks = choose|blanks: Vec<()>|
                    many.admits(text, context, next, ParseResult::Success { value: blanks });
                lemma_blanks_repeat(one, text, context, blanks@, next);
            }
        }
    }
    parser
}

/// The character that the two bytes of an escape sequence stand for.
pub open spec fn escaped(first: u8, second: u8) -> Option<char> {
    if first != BACKSLASH_CODE {
        None
    } else if second == 116 {
        Some('\t')
    } else if second == 114 {
        Some('\r')
    } else if second == 110 {
        Some('\n')
    } else if second == BACKSLASH_CODE {
        Some('\\')
    } else if second == DQUOTE_CODE {
        Some('"')
    } else if second == 39 {
        Some('\'')
    } else {
        None
    }
}

/// Outcome of `escape()`: where the two bytes at the position are an escape
/// sequence, a success behind them with the character they stand for; a
/// failure in place otherwise, which says whether two bytes were there.
pub open spec fn escape_outcome(text: Seq<u8>, context: ContextView) -> (
    ContextView,
    ParseResult<char>,
) {
    let at = context.location as int;
    if at + 2 <= text.len() {
        match escaped(text[at], text[at + 1]) {
            Some(c) => matched(context, 2, c),
            None => mismatch(context, "escape"@, "not escape"@),
        }
    } else {
        mismatch(context, "escape"@, "read error"@)
    }
}

/// The character that an escape sequence of these two bytes stands for.
fn unescape(first: u8, second: u8) -> (c: Option<char>)
    ensures
        c == escaped(first, second),
{
    if first != BACKSLASH_CODE {
        None
    } else if second == 116 {
        Some('\t')
    } else if second == 114 {
        Some('\r')
    } else if second == 110 {
        Some('\n')
    } else if second == BACKSLASH_CODE {
        Some('\\')
    } else if second == DQUOTE_CODE {
        Some('"')
    } else if second == 39 {
        Some('\'')
    } else {
        None
    }
}

/// The step of `escape`.
struct EscapeStep {}

impl ParseStep<char> for EscapeStep {
    closed spec fn wf(&self) -> bool {
        true
    }

    closed spec fn admits(
        &self,
        text: Seq<u8>,
        context: ContextView,
        next: ContextView,
        result: ParseResult<char>,
    ) -> bool {
        (next, result) == escape_outcome(text, context)
    }

    fn run(&self, input: &mut ParserInput, context: &ParseContext) -> (out: (
        ParseContext,
        ParseResult<char>,
    )) {
        let mut failure: Option<MyError> = None;
        let out = self.scan(input, context, &mut failure);
        settle(context, failure, out)
    }
}

impl EscapeStep {
    fn scan(
        &self,
        input: &mut ParserInput,
        context: &ParseContext,
        failure: &mut Option<MyError>,
    ) -> (out: (ParseContext, ParseResult<char>))
        requires
            self.wf(),
            old(input).wf(),
        ensures
            final(input).wf(),
            final(input).same_stream(old(input)),
            old(input).content() matches Some(text) ==> *final(failure) == *old(failure)
                && self.admits(text, context@, out.0@, out.1),
    {
        proof {
            input.lemma_content_fits();
        }
        let found = match input.read_by_size(context.location, 2) {
            Ok(read) => Some(unescape(read[0], read[1])),
            Err(error) => {
                note(failure, error);
                None
            },
        };
        match found {
            Some(Some(c)) => {
                if context.location <= usize::MAX - 2 {
                    (context.move_location(2), ParseResult::successful(c))
                } else {
                    fail(context, "escape", "not escape")
                }
            },
            Some(None) => fail(context, "escape", "not escape"),
            None => fail(context, "escape", "read error"),
        }
    }
}

/// The parser that matches one of the escape sequences `\t`, `\r`, `\n`,
/// `\\`, `\"` and `\'` and yields the character it stands for.
pub fn escape() -> (parser: Parser<char>)
    ensures
        parser.wf(),
        forall|text: Seq<u8>, context: ContextView, next: ContextView, result: ParseResult<char>|
            #[trigger] parser.admits(text, context, next, result) == ((next, result)
                == escape_outcome(text, context)),
{
    Parser { parse: Rc::new(Box::new(EscapeStep {  })) }
}

/// Outcome of `stop_char(c)`: where the text holds the encoding of `c` at
/// the position, a failure in place; where it holds as many other bytes, a
/// success behind the first of them, which is the value; where it holds
/// fewer, a failure in place.
pub open spec fn stop_char_outcome(c: char, text: Seq<u8>, context: ContextView) -> (
    ContextView,
    ParseResult<u8>,
) {
    let bytes = encode_scalar(c as u32);
    let at = context.location as int;
    if at + bytes.len() <= text.len() {
        if text.subrange(at, at + bytes.len()) == bytes {
            mismatch(context, "stop_char"@, "match input"@)
        } else {
            matched(context, 1, text[at])
        }
    } else {
        mismatch(context, "stop_char"@, "read error"@)
    }
}

/// The step of `stop_char`.
struct StopCharStep {
    c: char,
    bytes: Vec<u8>,
}

impl ParseStep<u8> for StopCharStep {
    closed spec fn wf(&self) -> bool {
        self.bytes@ == encode_scalar(self.c as u32)
    }

    closed spec fn admits(
        &self,
        text: Seq<u8>,
        context: ContextView,
        next: ContextView,
        result: ParseResult<u8>,
    ) -> bool {
        (next, result) == stop_char_outcome(self.c, text, context)
    }

    fn run(&self, input: &mut ParserInput, context: &ParseContext) -> (out: (
        ParseContext,
        ParseResult<u8>,
    )) {
        let mut failure: Option<MyError> = None;
        let out = self.scan(input, context, &mut failure);
        settle(context, failure, out)
    }
}

impl StopCharStep {
    fn scan(
        &self,
        input: &mut ParserInput,
        context: &ParseContext,
        failure: &mut Option<MyError>,
    ) -> (out: (ParseContext, ParseResult<u8>))
        requires
            self.wf(),
            old(input).wf(),
        ensures
            final(input).wf(),
            final(input).same_stream(old(input)),
            old(input).content() matches Some(text) ==> *final(failure) == *old(failure)
                && self.admits(text, context@, out.0@, out.1),
    {
        proof {
            input.lemma_content_fits();
            vstd::utf8::char_is_scalar(self.c);
        }
        let len = self.bytes.len();
        assert(len >= 1);
        let found = match input.read_by_size(context.location, len) {
            Ok(read) => {
                if same_bytes(read, self.bytes.as_slice()) {
                    Some(None)
                } else {
                    Some(Some(read[0]))
                }
            },
            Err(error) => {
                note(failure, error);
                None
            },
        };
        match found {
            Some(Some(byte)) => {
                if context.location < usize::MAX {
                    (context.move_location(1), ParseResult::successful(byte))
                } else {
                    fail(context, "stop_char", "read error")
                }
            },
            Some(None) => fail(context, "stop_char", "match input"),
            None => fail(context, "stop_char", "read error"),
        }
    }
}

/// The parser that yields the byte at the position and steps behind it,
/// unless the text holds `c` there.
pub fn stop_char(c: char) -> (parser: Parser<u8>)
    ensures
        parser.wf(),
        forall|text: Seq<u8>, context: ContextView, next: ContextView, result: ParseResult<u8>|
            #[trigger] parser.admits(text, context, next, result) == ((next, result)
                == stop_char_outcome(c, text, context)),
{
    Parser { parse: Rc::new(Box::new(StopCharStep { c, bytes: encode_char(c) })) }
}

/// The position behind the decimal number that starts at `at`: a sign, if
/// there is one, a run of at least one digit, and then, if a dot follows,
/// the dot and the digits behind it, of which there may be none. `None`
/// where no digit stands behind the sign.
pub open spec fn decimal_end(text: Seq<u8>, at: int) -> Option<int> {
    let start = at + sign_len(text, at);
    let whole = digits_end(text, start);
    if whole == start {
        None
    } else if text_byte(text, whole) == Some(DOT_CODE) {
        Some(digits_end(text, whole + 1))
    } else {
        Some(whole)
    }
}

/// Meaning of `number_decimal()`: where a decimal number starts at the
/// position, a success behind it whose value is the bytes of the number; a
/// failure in place otherwise.
pub open spec fn number_decimal_admits(
    text: Seq<u8>,
    context: ContextView,
    next: ContextView,
    result: ParseResult<Vec<u8>>,
) -> bool {
    match decimal_end(text, context.location as int) {
        Some(end) => {
            &&& next == context.new_location(end as usize)
            &&& result is Success
            &&& result->value@ == text.subrange(context.location as int, end)
        },
        None => (next, result) == mismatch::<Vec<u8>>(context, "number"@, "not number"@),
    }
}

/// The digits from `at` on lie within the text.
pub proof fn lemma_digits_end_bound(text: Seq<u8>, at: int)
    requires
        0 <= at,
    ensures
        at <= digits_end(text, at),
        digits_end(text, at) <= text.len() || digits_end(text, at) == at,
    decreases text.len() - at,
{
    if 0 <= at < text.len() && is_digit(text[at]) {
        lemma_digits_end_bound(text, at + 1);
    }
}

/// Steps over the digits from `from` on.
fn skip_digits(input: &mut ParserInput, from: usize, failure: &mut Option<MyError>) -> (to: usize)
    requires
        old(input).wf(),
    ensures
        final(input).wf(),
        final(input).same_stream(old(input)),
        from <= to,
        old(input).content() matches Some(text) ==> to == digits_end(text, from as int)
            && *final(failure) == *old(failure),
{
    let ghost origin = *input;
    proof {
        input.lemma_content_fits();
    }
    let mut cursor: usize = from;
    let mut stopped = false;
    while !stopped
        invariant
            origin == *old(input),
            input.wf(),
            input.same_stream(&origin),
            from <= cursor,
            origin.content() is Some ==> *failure == *old(failure),
            origin.content() matches Some(text) ==> {
                &&& text.len() <= usize::MAX
                &&& digits_end(text, from as int) == digits_end(text, cursor as int)
                &&& stopped ==> digits_end(text, cursor as int) == cursor
            },
        decreases
                usize::MAX - cursor + if stopped {
                    0int
                } else {
                    1int
                },
    {
        match byte_at(input, cursor, failure) {
            Some(byte) => {
                if ZERO_CODE <= byte && byte <= NINE_CODE && cursor < usize::MAX {
                    cursor += 1;
                } else {
                    stopped = true;
                }
            },
            None => {
                stopped = true;
            },
        }
    }
    cursor
}

/// The step of `number_decimal`.
struct NumberDecimalStep {}

impl ParseStep<Vec<u8>> for NumberDecimalStep {
    closed spec fn wf(&self) -> bool {
        true
    }

    closed spec fn admits(
        &self,
        text: Seq<u8>,
        context: ContextView,
        next: ContextView,
        result: ParseResult<Vec<u8>>,
    ) -> bool {
        number_decimal_admits(text, context, next, result)
    }

    fn run(&self, input: &mut ParserInput, context: &ParseContext) -> (out: (
        ParseContext,
        ParseResult<Vec<u8>>,
    )) {
        let mut failure: Option<MyError> = None;
        let out = self.scan(input, context, &mut failure);
        settle(context, failure, out)
    }
}

impl NumberDecimalStep {
    fn scan(
        &self,
        input: &mut ParserInput,
        context: &ParseContext,
        failure: &mut Option<MyError>,
    ) -> (out: (ParseContext, ParseResult<Vec<u8>>))
        requires
            self.wf(),
            old(input).wf(),
        ensures
            final(input).wf(),
            final(input).same_stream(old(input)),
            old(input).content() matches Some(text) ==> *final(failure) == *old(failure)
                && self.admits(text, context@, out.0@, out.1),
    {
        let ghost origin = *input;
        proof {
            input.lemma_content_fits();
        }
        let mut start: usize = context.location;
        match byte_at(input, start, failure) {
            Some(byte) => {
                if (byte == MINUS_CODE || byte == PLUS_CODE) && start < usize::MAX {
                    start += 1;
                }
            },
            None => {},
        }
        let whole = skip_digits(input, start, failure);
        if whole == start {
            return fail(context, "number", "not number");
        }
        let mut end: usize = whole;
        match byte_at(input, whole, failure) {
            Some(byte) => {
                if byte == DOT_CODE && whole < usize::MAX {
                    end = skip_digits(input, whole + 1, failure);
                }
            },
            None => {},
        }
        proof {
            if origin.content() is Some {
                let text = origin.content()->Some_0;
                lemma_digits_end_bound(text, start as int);
                lemma_digits_end_bound(text, whole + 1);
            }
        }
        let span = match input.read_by_size(context.location, end - context.location) {
            Ok(read) => Some(slice_to_vec(read)),
            Err(error) => {
                note(failure, error);
                None
            },
        };
        match span {
            Some(bytes) => (context.new_location(end), ParseResult::successful(bytes)),
            None => fail(context, "number", "not number"),
        }
    }
}

/// The parser that matches a signed decimal number and yields its bytes, for
/// the caller to read the value from.
pub fn number_decimal() -> (parser: Parser<Vec<u8>>)
    ensures
        parser.wf(),
        forall|
            text: Seq<u8>,
            context: ContextView,
            next: ContextView,
            result: ParseResult<Vec<u8>>,
        |
            #[trigger] parser.admits(text, context, next, result) == number_decimal_admits(
                text,
                context,
                next,
                result,
            ),
{
    Parser { parse: Rc::new(Box::new(NumberDecimalStep {  })) }
}

/// Outcome of one item between the quotes: an escape sequence gives the byte
/// of its character, any other byte but the quote gives itself; at the quote
/// or at the end of the text the item fails in place.
pub open spec fn quote_item_outcome(text: Seq<u8>, context: ContextView) -> (
    ContextView,
    ParseResult<u8>,
) {
    let at = context.location as int;
    if at + 2 <= text.len() && escaped(text[at], text[at + 1]) is Some {
        matched(context, 2, escaped(text[at], text[at + 1])->Some_0 as u8)
    } else if at < text.len() && text[at] != DQUOTE_CODE {
        matched(context, 1, text[at])
    } else {
        (
            choice_failure(
                context,
                escape_outcome(text, context).0,
                stop_char_outcome('"', text, context).0,
                "or"@,
            ),
            ParseResult::Failure {  },
        )
    }
}

/// The encoding of the quote is the one byte of the quote.
proof fn lemma_quote_encoding()
    ensures
        encode_scalar('"' as u32) == seq![DQUOTE_CODE],
{
    assert(('"' as u32) == 34u32);
    assert((34u32 & 0x7F) as u8 == 34u8) by (bit_vector);
    assert(encode_scalar(34u32) =~= seq![DQUOTE_CODE]);
}

/// The parser of one item between the quotes.
fn quote_item() -> (item: Parser<u8>)
    ensures
        item.wf(),
        forall|text: Seq<u8>, context: ContextView, next: ContextView, result: ParseResult<u8>|
            text.len() <= usize::MAX && #[trigger] item.admits(text, context, next, result) ==> (
            next,
            result,
        ) == quote_item_outcome(text, context),
{
    let sequence = escape();
    let byte_of = |c: char| -> (byte: u8)
        ensures
            byte == c as u8,
        { #[verifier::truncate] (c as u8) };
    let escaped_byte = sequence.map(byte_of);
    let other = stop_char('"');
    let item = escaped_byte.or(other);
    proof {
        lemma_quote_encoding();
        assert forall|
            text: Seq<u8>,
            context: ContextView,
            next: ContextView,
            result: ParseResult<u8>,
        | text.len() <= usize::MAX && #[trigger] item.admits(
            text,
            context,
            next,
            result,
        ) implies (next, result) == quote_item_outcome(text, context) by {
            let at = context.location as int;
            assert(or_admits(escaped_byte, other, text, context, next, result));
            assert forall|to: ContextView, byte: ParseResult<u8>| #[trigger]
                escaped_byte.admits(text, context, to, byte) implies {
                &&& byte is Success ==> (to, byte) == quote_item_outcome(text, context)
                    && escape_outcome(text, context).1 is Success
                &&& byte is Failure ==> to == escape_outcome(text, context).0 && escape_outcome(
                    text,
                    context,
                ).1 is Failure
            } by {
                assert(map_admits(sequence, byte_of, text, context, to, byte));
            }
            if at + 1 <= text.len() {
                assert(text.subrange(at, at + 1) =~= seq![text[at]]);
                assert(seq![text[at]] == seq![DQUOTE_CODE] <==> text[at] == DQUOTE_CODE) by {
                    if seq![text[at]] == seq![DQUOTE_CODE] {
                        assert(seq![text[at]][0] == seq![DQUOTE_CODE][0]);
                    }
                }
            }
        }
    }
    item
}

/// The position behind the items that start at `at`: the closing quote, or
/// the end of the text.
pub open spec fn quoted_end(text: Seq<u8>, at: int) -> int
    decreases text.len() - at,
{
    if 0 <= at && at + 2 <= text.len() && escaped(text[at], text[at + 1]) is Some {
        quoted_end(text, at + 2)
    } else if 0 <= at < text.len() && text[at] != DQUOTE_CODE {
        quoted_end(text, at + 1)
    } else {
        at
    }
}

/// The bytes that the items from `at` on stand for.
pub open spec fn quoted_bytes(text: Seq<u8>, at: int) -> Seq<u8>
    decreases text.len() - at,
{
    if 0 <= at && at + 2 <= text.len() && escaped(text[at], text[at + 1]) is Some {
        seq![escaped(text[at], text[at + 1])->Some_0 as u8] + quoted_bytes(text, at + 2)
    } else if 0 <= at < text.len() && text[at] != DQUOTE_CODE {
        seq![text[at]] + quoted_bytes(text, at + 1)
    } else {
        Seq::empty()
    }
}

/// The context behind the items that start in `context`: at the closing
/// quote or the end of the text, with the error of the item that failed
/// there.
pub open spec fn quoted_context(text: Seq<u8>, context: ContextView) -> ContextView {
    quote_item_outcome(
        text,
        context.new_location(quoted_end(text, context.location as int) as usize),
    ).0
}

/// The items end within the text.
pub proof fn lemma_quoted_end_bound(text: Seq<u8>, at: int)
    requires
        0 <= at,
    ensures
        at <= quoted_end(text, at),
        quoted_end(text, at) <= text.len() || quoted_end(text, at) == at,
    decreases text.len() - at,
{
    if 0 <= at && at + 2 <= text.len() && escaped(text[at], text[at + 1]) is Some {
        lemma_quoted_end_bound(text, at + 2);
    } else if 0 <= at < text.len() && text[at] != DQUOTE_CODE {
        lemma_quoted_end_bound(text, at + 1);
    }
}

/// Repeating the item collects the quoted bytes and ends behind them.
proof fn lemma_quoted_repeat(
    item: Parser<u8>,
    text: Seq<u8>,
    from: ContextView,
    values: Seq<u8>,
    end: ContextView,
)
    requires
        text.len() <= usize::MAX,
        forall|t: Seq<u8>, c: ContextView, n: ContextView, r: ParseResult<u8>|
            t.len() <= usize::MAX && #[trigger] item.admits(t, c, n, r) ==> (n, r)
                == quote_item_outcome(t, c),
        repeats(item, text, from, values, end),
    ensures
        values == quoted_bytes(text, from.location as int),
        end == quoted_context(text, from),
    decreases values.len(),
{
    if values.len() == 0 {
        let failed = choose|failed: ContextView| #[trigger]
            item.admits(text, from, failed, ParseResult::Failure {  }) && end
                == failed.new_location(from.location);
        assert(from.new_location(from.location) == from);
        assert(values =~= quoted_bytes(text, from.location as int));
    } else {
        let next = choose|next: ContextView| #[trigger]
            item.admits(text, from, next, ParseResult::Success { value: values[0] }) && if next.location
                > from.location {
                repeats(item, text, next, values.skip(1), end)
            } else {
                values.len() == 1 && end == next
            };
        assert(next.location > from.location);
        lemma_quoted_repeat(item, text, next, values.skip(1), end);
        assert(next.new_location(quoted_end(text, next.location as int) as usize)
            == from.new_location(quoted_end(text, from.location as int) as usize));
        assert(values =~= seq![values[0]] + values.skip(1));
    }
}

/// `String::from_utf8`: the string that the bytes encode, and nothing where
/// they are not UTF-8.
#[verifier::external_body]
fn string_from_utf8(bytes: Vec<u8>) -> (text: Option<String>)
    ensures
        text is Some == valid_utf8(bytes@),
        text matches Some(string) ==> string@ == decode_utf8(bytes@),
{
    String::from_utf8(bytes).ok()
}

/// Meaning of `dquote_string()`: a quote, the items up to the next quote,
/// and that quote give the string that the items' bytes encode, at the
/// position behind the closing quote. A missing quote is the failure of the
/// parser that looked for it; bytes that encode no string are a failure in
/// place.
pub open spec fn dquote_string_admits(
    text: Seq<u8>,
    context: ContextView,
    next: ContextView,
    result: ParseResult<String>,
) -> bool {
    let opened = char_outcome('"', text, context);
    let listed = quoted_context(text, opened.0);
    let closed = char_outcome('"', text, listed);
    let bytes = quoted_bytes(text, opened.0.location as int);
    if opened.1 is Failure {
        next == opened.0 && result is Failure
    } else if closed.1 is Failure {
        next == closed.0 && result is Failure
    } else if valid_utf8(bytes) {
        next == closed.0 && result is Success && result->value@ == decode_utf8(bytes)
    } else {
        (next, result) == mismatch::<String>(context, "dquote_string"@, "not utf8"@)
    }
}

/// The step of `dquote_string`.
struct DquoteStringStep {
    quote: Parser<char>,
    items: Parser<Vec<u8>>,
}

impl ParseStep<String> for DquoteStringStep {
    closed spec fn wf(&self) -> bool {
        &&& self.quote.wf()
        &&& self.items.wf()
        &&& forall|t: Seq<u8>, c: ContextView, n: ContextView, r: ParseResult<char>|
            #[trigger] self.quote.admits(t, c, n, r) == ((n, r) == char_outcome('"', t, c))
        &&& forall|t: Seq<u8>, c: ContextView, n: ContextView, r: ParseResult<Vec<u8>>|
            t.len() <= usize::MAX && #[trigger] self.items.admits(t, c, n, r) ==> r is Success
                && r->value@ == quoted_bytes(t, c.location as int) && n == quoted_context(t, c)
    }

    closed spec fn admits(
        &self,
        text: Seq<u8>,
        context: ContextView,
        next: ContextView,
        result: ParseResult<String>,
    ) -> bool {
        dquote_string_admits(text, context, next, result)
    }

    fn run(&self, input: &mut ParserInput, context: &ParseContext) -> (out: (
        ParseContext,
        ParseResult<String>,
    )) {
        proof {
            input.lemma_content_fits();
        }
        match self.quote.parse(input, context) {
            (failed, ParseResult::Failure {  }) => (failed, ParseResult::failure()),
            (opened, ParseResult::Success { value: _ }) => {
                match self.items.parse(input, &opened) {
                    (failed, ParseResult::Failure {  }) => (failed, ParseResult::failure()),
                    (listed, ParseResult::Success { value: bytes }) => {
                        match self.quote.parse(input, &listed) {
                            (failed, ParseResult::Failure {  }) => (failed, ParseResult::failure()),
                            (closed, ParseResult::Success { value: _ }) => {
                                match string_from_utf8(bytes) {
                                    Some(string) => (closed, ParseResult::successful(string)),
                                    None => fail(context, "dquote_string", "not utf8"),
                                }
                            },
                        }
                    },
                }
            },
        }
    }
}

/// The parser of a string between double quotes, in which `\t`, `\r`,
/// `\n`, `\\`, `\"` and `\'` stand for one character each.
pub fn dquote_string() -> (parser: Parser<String>)
    ensures
        parser.wf(),
        forall|text: Seq<u8>, context: ContextView, next: ContextView, result: ParseResult<String>|
            #[trigger] parser.admits(text, context, next, result) == dquote_string_admits(
                text,
                context,
                next,
                result,
            ),
{
    let item = quote_item();
    let items = item.seq0();
    proof {
        assert forall|t: Seq<u8>, c: ContextView, n: ContextView, r: ParseResult<Vec<u8>>|
            t.len() <= usize::MAX && #[trigger] items.admits(t, c, n, r) implies r is Success
            && r->value@ == quoted_bytes(t, c.location as int) && n == quoted_context(t, c) by {
            assert(seq0_admits(item, t, c, n, r));
            lemma_quoted_repeat(item, t, c, r->value@, n);
        }
    }
    Parser { parse: Rc::new(Box::new(DquoteStringStep { quote: char('"'), items })) }
}

} // verus!
