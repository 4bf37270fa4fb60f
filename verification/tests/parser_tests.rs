use rcomb_parser::common_parsers::{
    array, break_line, char, end, head, lazy, literal, number_i32, space, space_or_line_seq, unit,
};
use rcomb_parser::parse_context::ParseContext;
use rcomb_parser::parse_result::ParseResult;
use rcomb_parser::parser::{Parser, ParserFunctuor, ParserMonad, ParserTrait};
use rcomb_parser::parser_input::ParserInput;
use rcomb_parser::parser_methods::ParserMethods;

#[test]
fn common_parser_test_char() {
    let parser = char('a') + char('b');

    match parser.parse(&mut ParserInput::text("abcd"), &mut ParseContext::new_context(0)) {
        (next_context, ParseResult::Success { value }) => {
            assert!(true);
            assert_eq!(('a', 'b'), value);
            assert_eq!(2, next_context.location)
        }
        _ => assert!(false),
    }

    let parser = char('a').seq1() + end();
    match parser.parse(&mut ParserInput::text("aaaa"), &mut ParseContext::new_context(0)) {
        (next_context, ParseResult::Success { value }) => {
            assert!(true);
            assert_eq!((vec!['a', 'a', 'a', 'a'], ()), value);
            assert_eq!(4, next_context.location);
        }
        _ => assert!(false),
    }

    let parser = (char('🍣') | char('🍺')).seq0() + end();
    match parser.parse(&mut ParserInput::text("🍣🍣🍺🍺🍣🍺🍺"), &mut ParseContext::new_context(0)) {
        (next_context, ParseResult::Success { value }) => {
            assert!(true);
            assert_eq!((vec!['🍣', '🍣', '🍺', '🍺', '🍣', '🍺', '🍺'], ()), value);
            assert_eq!(28, next_context.location);
        }
        _ => assert!(false),
    }
}

#[test]
fn common_parser_test_literal() {
    let parser = head() + literal("stuvwxyz.");
    match parser.parse(&mut ParserInput::text("abc\ndef\nstuvwxyz."), &mut ParseContext::new_context(8)) {
        (next_context, ParseResult::Success { value }) => {
            assert!(true);
            assert_eq!(((), "stuvwxyz."), value);
            assert_eq!(17, next_context.location);
        }
        _ => assert!(false),
    }
}

#[test]
fn test_array() {
    let parser = array(
        number_i32().with_skip_space(),
        char('[').with_skip_space(),
        char(']').with_skip_space(),
        char(',').with_skip_space(),
    );
    let r = parser.parse(&mut ParserInput::text("[ 123 , 456 , 789 ]"), &mut ParseContext::new_context(0));
    println!("{:?}", r);
    assert_eq!(r.1, ParseResult::Success { value: vec![123, 456, 789] });
    assert_eq!(r.0.location, 19);

    let parser = array(number_i32(), char(','), char(','), char(','));
    let r = parser.parse(&mut ParserInput::text(",123,456,789,"), &mut ParseContext::new_context(0));
    println!("{:?}", r);
    assert_eq!(r.1, ParseResult::Success { value: vec![123, 456, 789] });
    assert_eq!(r.0.location, 13);
}

#[test]
fn test_break_line() {
    let break_line_parser = break_line();
    match break_line_parser.parse(&mut ParserInput::text("abc\ndef"), &mut ParseContext::new_context(3)) {
        (next_context, ParseResult::Success { value: _ }) => {
            assert!(true);
            assert_eq!(next_context.location, 4);
        }
        (_, ParseResult::Failure {}) => {
            assert!(false);
        }
    }
}

#[test]
fn common_parsers_test_char() {
    let parser = char('a') + char('b');
    match parser.parse(&mut ParserInput::text("abcd"), &mut ParseContext::new_context(0)) {
        (next_context, ParseResult::Success { value }) => {
            assert!(true);
            assert_eq!(('a', 'b'), value);
            assert_eq!(2, next_context.location)
        }
        _ => assert!(false),
    }

    let parser = char('a').seq1() + end();
    match parser.parse(&mut ParserInput::text("aaaa"), &mut ParseContext::new_context(0)) {
        (next_context, ParseResult::Success { value }) => {
            assert!(true);
            assert_eq!((vec!['a', 'a', 'a', 'a'], ()), value);
            assert_eq!(4, next_context.location);
        }
        _ => assert!(false),
    }

    // Positions count bytes, and each of these characters takes four.
    let parser = (char('🍣') | char('🍺')).seq0() + end();
    match parser.parse(&mut ParserInput::text("🍣🍣🍺🍺🍣🍺🍺"), &mut ParseContext::new_context(0)) {
        (next_context, ParseResult::Success { value }) => {
            assert!(true);
            assert_eq!((vec!['🍣', '🍣', '🍺', '🍺', '🍣', '🍺', '🍺'], ()), value);
            assert_eq!(7 * 4, next_context.location);
        }
        _ => assert!(false),
    }
}

#[test]
fn lazy_test() {
    let a_parser = char('a');
    let deferred = lazy(move || a_parser.clone());
    let (next_context, result) = deferred.parse(&mut ParserInput::text("ab"), &ParseContext::new_context(0));
    assert_eq!(result, ParseResult::Success { value: 'a' });
    assert_eq!(next_context.location, 1);
}

#[test]
fn common_parsers_test_literal() {
    let parser = head() + literal("stuvwxyz.");
    match parser.parse(&mut ParserInput::text("abc\ndef\nstuvwxyz."), &mut ParseContext::new_context(8)) {
        (next_context, ParseResult::Success { value }) => {
            assert!(true);
            assert_eq!(((), "stuvwxyz."), value);
            assert_eq!(17, next_context.location);
        }
        _ => assert!(false),
    }
}

#[test]
fn test_number_i32() {
    let parser = number_i32();
    if let (next_context, ParseResult::Success { value }) =
        parser.parse(&mut ParserInput::text("1234"), &mut ParseContext::new_context(0))
    {
        assert_eq!(value, 1234);
        assert_eq!(next_context.location, 4);
    } else {
        assert!(false)
    }
}

#[test]
fn test_space() {
    let break_line_parser = space();
    match break_line_parser.parse(&mut ParserInput::text("abc def"), &mut ParseContext::new_context(3)) {
        (next_context, ParseResult::Success { value: _ }) => {
            assert!(true);
            assert_eq!(next_context.location, 4);
        }
        (_, ParseResult::Failure {}) => {
            assert!(false);
        }
    }
    match break_line_parser.parse(&mut ParserInput::text("abc\tdef"), &mut ParseContext::new_context(3)) {
        (next_context, ParseResult::Success { value: _ }) => {
            assert!(true);
            assert_eq!(next_context.location, 4);
        }
        (_, ParseResult::Failure {}) => {
            assert!(false);
        }
    }
}

#[test]
fn test_space_or_line_seq() {
    let parser = literal("abc") + space_or_line_seq() + literal("def");
    match parser.parse(&mut ParserInput::text("abc  \t \r\n\ndef"), &mut ParseContext::new_context(0)) {
        (next_context, ParseResult::Success { value }) => {
            assert!(true);
            assert_eq!(next_context.location, 13);
            assert_eq!(value.0 .0, "abc");
            assert_eq!(value.0 .1, ());
            assert_eq!(value.1, "def");
        }
        (_, ParseResult::Failure {}) => {
            assert!(false);
        }
    }
}

#[test]
fn test_unit() {
    let parser = unit().flat_map(move |_v| {
        Parser::new(|_input: &ParserInput, context: &ParseContext| {
            (context.clone(), ParseResult::successful("aaa"))
        })
    });
    match parser.parse(&mut ParserInput::text("abc  \t \r\n\ndef"), &mut ParseContext::new_context(0)) {
        (next_context, ParseResult::Success { value }) => {
            assert!(true);
            assert_eq!(next_context.location, 0);
            assert_eq!(value, "aaa");
        }
        (_, ParseResult::Failure {}) => {
            assert!(false);
        }
    }
}

#[test]
fn parse_error_test() {
    let p1 = char('a');
    let parser = p1.seq0();

    match parser.parse(&mut ParserInput::text("aaab"), &mut ParseContext::new_context(0)) {
        (next_context, ParseResult::Success { value }) => {
            assert!(true);
            assert_eq!(next_context.location, 3);
            assert_eq!(value, vec!['a', 'a', 'a']);
            assert!(next_context.parse_error_opt.is_some());
        }
        (_, ParseResult::Failure {}) => {
            assert!(false);
        }
    }
}

#[test]
fn test_skip_space() {
    let parser = char('a').seq0().with_skip_space().skip_right(end());
    match parser.parse(&mut ParserInput::text(" \t\n \r\naaa"), &mut ParseContext::new_context(0)) {
        (next_context, ParseResult::Success { value }) => {
            assert!(true);
            assert_eq!(next_context.location, 9);
            assert_eq!(value, vec!['a', 'a', 'a']);
        }
        (_, ParseResult::Failure {}) => {
            assert!(false);
        }
    }
}

#[test]
fn char_test() {
    let parser = char('a') + char('b');

    match parser.parse(&mut ParserInput::text("abcd"), &ParseContext::new_context(0)) {
        (next_context, ParseResult::Success { value }) => {
            assert!(true);
            assert_eq!(('a', 'b'), value);
            assert_eq!(2, next_context.location);
        }
        (error_context, _) => {
            println!("{:?}", error_context);
            assert!(false);
        }
    }
}

#[test]
fn mapped_number_keeps_position() {
    let parser = number_i32().map(|n: i32| n + 1);
    let (next_context, result) = parser.parse(&mut ParserInput::text("-41x"), &ParseContext::new_context(0));
    assert_eq!(result, ParseResult::Success { value: -40 });
    assert_eq!(next_context.location, 3);
}
