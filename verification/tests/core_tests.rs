use rcomb_parser::parse_context::ParseContext;
use rcomb_parser::parse_result::ParseResult;
use rcomb_parser::parser::{Parser, ParserFunctuor, ParserMonad, ParserTrait};
use rcomb_parser::parser_input::ParserInput;

#[test]
fn new_runs_the_step_function() {
    let parser: Parser<u8> = Parser::new(|input: &ParserInput, context: &ParseContext| {
        match input {
            ParserInput::Text(bytes) if bytes.len() > context.location => (
                context.move_location(1),
                ParseResult::successful(bytes[context.location]),
            ),
            _ => (context.new_error("byte", "no byte"), ParseResult::failure()),
        }
    });
    let doubled = parser.clone().map(|b: u8| (b as u32) * 2);
    let (next, result) = doubled.parse(&mut ParserInput::text("a"), &mut ParseContext::new_context(0));
    assert_eq!(next.location, 1);
    assert_eq!(result, ParseResult::Success { value: 194 });
    let twice = parser.clone().flat_map(move |first: u8| parser.clone().map(move |second: u8| (first, second)));
    let (next, result) = twice.parse(&mut ParserInput::text("ab"), &ParseContext::new_context(0));
    assert_eq!(next.location, 2);
    assert_eq!(result, ParseResult::Success { value: (b'a', b'b') });
    let (next, result) = twice.parse(&mut ParserInput::text("a"), &ParseContext::new_context(0));
    assert_eq!(next.location, 1);
    assert!(next.parse_error_opt.is_some());
    assert_eq!(result, ParseResult::Failure {});
}
