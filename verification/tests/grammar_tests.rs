use rcomb_parser::common_parsers::{
    array, break_line, char, dquote_string, end, escape, head, lazy, literal, number_decimal,
    number_i32, space, space_or_line, stop_char, unit,
};
use rcomb_parser::either::Either;
use rcomb_parser::parse_context::ParseContext;
use rcomb_parser::parse_result::ParseResult;
use rcomb_parser::parser::{Parser, ParserFunctuor, ParserMonad, ParserTrait};
use rcomb_parser::parser_input::ParserInput;
use rcomb_parser::parser_methods::ParserMethods;

fn run<A>(parser: &Parser<A>, text: &str, at: usize) -> (ParseContext, ParseResult<A>) {
    parser.parse(&mut ParserInput::text(text), &ParseContext::new_context(at))
}

fn int_list() -> Parser<Vec<i32>> {
    array(
        number_i32().with_skip_space(),
        char('[').with_skip_space(),
        char(']').with_skip_space(),
        char(',').with_skip_space(),
    )
}

#[test]
fn same_parser_same_input_same_outcome() {
    let parser = int_list();
    let mut input = ParserInput::text("[ 1, 22 ,333]x");
    let start = ParseContext::new_context(0);
    let (first_context, first) = parser.parse(&mut input, &start);
    let (second_context, second) = parser.parse(&mut input, &start);
    assert_eq!(first, ParseResult::Success { value: vec![1, 22, 333] });
    assert_eq!(first, second);
    assert_eq!(first_context.location, 13);
    assert_eq!(first_context.to_string(), second_context.to_string());
    let copy = parser.clone();
    let (third_context, third) = copy.parse(&mut input, &start);
    assert_eq!(third, first);
    assert_eq!(third_context.to_string(), first_context.to_string());
}

#[test]
fn choice_retries_from_the_position_before_the_first_branch() {
    let consumes_then_fails = literal("ab").and_left(char('x'));
    let (failed, result) = run(&consumes_then_fails, "..abc", 2);
    assert_eq!(result, ParseResult::Failure {});
    assert_eq!(failed.location, 4);
    let seen = literal("ab").and_left(char('x')).map(|_| 0usize).or(Parser::new(
        |_input: &ParserInput, context: &ParseContext| {
            (context.move_location(0), ParseResult::successful(context.location))
        },
    ));
    let (next, result) = run(&seen, "..abc", 2);
    assert_eq!(result, ParseResult::Success { value: 2 });
    assert_eq!(next.location, 2);
}

#[test]
fn choice_of_one_success_does_not_depend_on_the_order() {
    let (left_context, left) = run(&literal("abc").or(literal("xyz")), "xyz!", 0);
    let (right_context, right) = run(&literal("xyz").or(literal("abc")), "xyz!", 0);
    assert_eq!(left, ParseResult::Success { value: "xyz" });
    assert_eq!(left, right);
    assert_eq!(left_context.location, 3);
    assert_eq!(right_context.location, 3);
}

#[test]
fn choice_of_two_failures_stays_and_reports_the_furthest() {
    let parser = literal("abc").or(literal("abd"));
    let (next, result) = run(&parser, "abx", 0);
    assert_eq!(result, ParseResult::Failure {});
    assert_eq!(next.location, 0);
    let error = next.parse_error_opt.unwrap();
    assert_eq!(error.location, 2);
    assert_eq!(error.label, "or");
    assert_eq!(error.message, "not valid parser");
    assert_eq!(error.child.len(), 2);
    assert_eq!(error.child[0].label, "literal");
    assert_eq!(error.child[0].location, 2);
    assert_eq!(error.child[1].location, 2);
}

#[test]
fn literal_reports_the_first_byte_that_differs() {
    let (next, result) = run(&literal("hello"), "..help", 2);
    assert_eq!(result, ParseResult::Failure {});
    assert_eq!(next.location, 2);
    assert_eq!(next.parse_error_opt.unwrap().location, 5);
    let (next, _) = run(&literal("hello"), "he", 0);
    assert_eq!(next.parse_error_opt.unwrap().location, 2);
    let (next, _) = run(&literal("hello"), "world", 0);
    assert_eq!(next.parse_error_opt.unwrap().location, 0);
}

#[test]
fn either_tags_the_branch() {
    let parser = number_i32().either(literal("none"));
    assert_eq!(run(&parser, "42", 0).1, ParseResult::Success { value: Either::Left(42) });
    let (next, result) = run(&parser, "none", 0);
    assert_eq!(result, ParseResult::Success { value: Either::Right("none") });
    assert_eq!(next.location, 4);
    let (next, result) = run(&parser, "nope", 0);
    assert_eq!(result, ParseResult::Failure {});
    assert_eq!(next.location, 0);
    let error = next.parse_error_opt.unwrap();
    assert_eq!(error.label, "either");
    assert_eq!(error.location, 2);
}

#[test]
fn repetition_never_fails_and_gives_up_the_last_attempt() {
    let parser = literal("ab").seq0();
    let (next, result) = run(&parser, "ababax", 0);
    assert_eq!(result, ParseResult::Success { value: vec!["ab", "ab"] });
    assert_eq!(next.location, 4);
    assert_eq!(next.parse_error_opt.unwrap().location, 5);
    let (next, result) = run(&parser, "xyz", 1);
    assert_eq!(result, ParseResult::Success { value: vec![] });
    assert_eq!(next.location, 1);
    let (next, result) = run(&parser, "", 0);
    assert_eq!(result, ParseResult::Success { value: vec![] });
    assert_eq!(next.location, 0);
}

#[test]
fn repetition_of_a_parser_that_stands_still_ends() {
    let (next, result) = run(&unit().seq0(), "abc", 1);
    assert_eq!(result, ParseResult::Success { value: vec![()] });
    assert_eq!(next.location, 1);
    let (next, result) = run(&unit().seq1(), "abc", 1);
    assert_eq!(result, ParseResult::Success { value: vec![()] });
    assert_eq!(next.location, 1);
}

#[test]
fn seq1_fails_exactly_where_its_parser_fails_at_the_start() {
    let one = char('a');
    let many = char('a').seq1();
    for (text, at) in [("aab", 0), ("aab", 1), ("aab", 2), ("aab", 3), ("", 0), ("baa", 0)] {
        let single = run(&one, text, at).1;
        let (next, repeated) = run(&many, text, at);
        assert_eq!(single == ParseResult::Failure {}, repeated == ParseResult::Failure {});
        if repeated == (ParseResult::Failure {}) {
            assert_eq!(next.location, at);
            let error = next.parse_error_opt.unwrap();
            assert_eq!(error.label, "seq1");
            assert_eq!(error.child.len(), 1);
            assert_eq!(error.child[0].label, "char");
        }
    }
    assert_eq!(run(&many, "aab", 0).1, ParseResult::Success { value: vec!['a', 'a'] });
}

#[test]
fn optional_succeeds_either_way() {
    let parser = literal("ab").optional();
    let (next, result) = run(&parser, "abc", 0);
    assert_eq!(result, ParseResult::Success { value: Some("ab") });
    assert_eq!(next.location, 2);
    let (next, result) = run(&parser, "axc", 0);
    assert_eq!(result, ParseResult::Success { value: None });
    assert_eq!(next.location, 0);
    assert_eq!(next.parse_error_opt.unwrap().location, 1);
}

#[test]
fn sequences_keep_one_side_or_both() {
    let (next, result) = run(&number_i32().and(literal("px")), "12px", 0);
    assert_eq!(result, ParseResult::Success { value: (12, "px") });
    assert_eq!(next.location, 4);
    assert_eq!(run(&number_i32().and_left(literal("px")), "12px", 0).1, ParseResult::Success { value: 12 });
    assert_eq!(run(&number_i32().and_right(literal("px")), "12px", 0).1, ParseResult::Success { value: "px" });
    assert_eq!(run(&number_i32().skip_right(literal("px")), "12px", 0).1, ParseResult::Success { value: 12 });
    assert_eq!(run(&number_i32().skip_left(literal("px")), "12px", 0).1, ParseResult::Success { value: "px" });
    let (next, result) = run(&number_i32().and(literal("px")), "12pt", 0);
    assert_eq!(result, ParseResult::Failure {});
    assert_eq!(next.location, 2);
    let (next, result) = run(&number_i32().and(literal("px")), "px", 0);
    assert_eq!(result, ParseResult::Failure {});
    assert_eq!(next.location, 0);
}

#[test]
fn pure_reads_nothing() {
    let parser = literal("never").pure(7u8);
    let (next, result) = run(&parser, "abc", 2);
    assert_eq!(result, ParseResult::Success { value: 7 });
    assert_eq!(next.location, 2);
    assert!(next.parse_error_opt.is_none());
}

#[test]
fn flat_map_chooses_the_next_parser_by_the_value() {
    let counted = number_i32().flat_map(|n: i32| if n == 1 { literal("st") } else { literal("th") });
    assert_eq!(run(&counted, "1st", 0).1, ParseResult::Success { value: "st" });
    assert_eq!(run(&counted, "4th", 0).0.location, 3);
    let (next, result) = run(&counted, "1th", 0);
    assert_eq!(result, ParseResult::Failure {});
    assert_eq!(next.location, 1);
    let (next, result) = run(&counted, "xth", 0);
    assert_eq!(result, ParseResult::Failure {});
    assert_eq!(next.location, 0);
}

#[test]
fn list_round_trip() {
    let parser = int_list();
    let (next, result) = run(&parser, "[ 123 , 456 , 789 ]", 0);
    assert_eq!(result, ParseResult::Success { value: vec![123, 456, 789] });
    assert_eq!(next.location, 19);
    let plain = array(number_i32(), char('['), char(']'), char(','));
    let (next, result) = run(&plain, "[]", 0);
    assert_eq!(result, ParseResult::Success { value: vec![] });
    assert_eq!(next.location, 2);
    let (next, result) = run(&plain, "[1,2]rest", 0);
    assert_eq!(result, ParseResult::Success { value: vec![1, 2] });
    assert_eq!(next.location, 5);
}

#[test]
fn list_gives_a_trailing_separator_back_to_the_right_bracket() {
    let commas = array(number_i32(), char(','), char(','), char(','));
    let (next, result) = run(&commas, ",123,456,789,", 0);
    assert_eq!(result, ParseResult::Success { value: vec![123, 456, 789] });
    assert_eq!(next.location, 13);
    let semicolon = array(number_i32(), char('['), literal(",]"), char(','));
    let (next, result) = run(&semicolon, "[1,2,]", 0);
    assert_eq!(result, ParseResult::Success { value: vec![1, 2] });
    assert_eq!(next.location, 6);
    let plain = array(number_i32(), char('['), char(']'), char(','));
    let (next, result) = run(&plain, "[1,2,]", 0);
    assert_eq!(result, ParseResult::Failure {});
    assert_eq!(next.location, 4);
}

#[test]
fn list_fails_without_its_brackets() {
    let plain = array(number_i32(), char('['), char(']'), char(','));
    assert_eq!(run(&plain, "1,2]", 0).1, ParseResult::Failure {});
    let (next, result) = run(&plain, "[1,2", 0);
    assert_eq!(result, ParseResult::Failure {});
    assert_eq!(next.location, 4);
    assert_eq!(run(&plain, "[1 2]", 0).1, ParseResult::Failure {});
}

#[test]
fn quoted_string_escapes() {
    let parser = dquote_string();
    let (next, result) = run(&parser, "\"gh\\\"i\"", 0);
    assert_eq!(result, ParseResult::Success { value: "gh\"i".to_owned() });
    assert_eq!(next.location, 7);
    let (next, result) = run(&parser, "\"abddef\"", 0);
    assert_eq!(result, ParseResult::Success { value: "abddef".to_owned() });
    assert_eq!(next.location, 8);
    let (next, result) = run(&parser, "\"ghi\\\"jkl\"", 0);
    assert_eq!(result, ParseResult::Success { value: "ghi\"jkl".to_owned() });
    assert_eq!(next.location, 10);
    let (_, result) = run(&parser, "\"a\\tb\\r\\n\\\\c\\'d\\x\"", 0);
    assert_eq!(result, ParseResult::Success { value: "a\tb\r\n\\c'd\\x".to_owned() });
    let (next, result) = run(&parser, "\"日本 🍣\" tail", 0);
    assert_eq!(result, ParseResult::Success { value: "日本 🍣".to_owned() });
    assert_eq!(next.location, 13);
    assert_eq!(run(&parser, "\"\"", 0).1, ParseResult::Success { value: String::new() });
}

#[test]
fn quoted_string_needs_both_quotes() {
    let parser = dquote_string();
    let (next, result) = run(&parser, "\"never closed", 0);
    assert_eq!(result, ParseResult::Failure {});
    assert_eq!(next.location, 13);
    let (next, result) = run(&parser, "no quote\"", 0);
    assert_eq!(result, ParseResult::Failure {});
    assert_eq!(next.location, 0);
    let (_, result) = run(&parser, "\"ends in escape\\\"", 0);
    assert_eq!(result, ParseResult::Failure {});
}

#[test]
fn quoted_string_of_bytes_that_are_no_text_fails_in_place() {
    let parser = dquote_string();
    let mut input = ParserInput::Text(vec![b'"', 0xff, 0xfe, b'"']);
    let (next, result) = parser.parse(&mut input, &ParseContext::new_context(0));
    assert_eq!(result, ParseResult::Failure {});
    assert_eq!(next.location, 0);
    let error = next.parse_error_opt.unwrap();
    assert_eq!(error.label, "dquote_string");
    assert_eq!(error.message, "not utf8");
}

#[test]
fn escapes_and_stops() {
    assert_eq!(run(&escape(), "\\n", 0).1, ParseResult::Success { value: '\n' });
    assert_eq!(run(&escape(), "\\q", 0).0.parse_error_opt.unwrap().message, "not escape");
    assert_eq!(run(&escape(), "\\", 0).0.parse_error_opt.unwrap().message, "read error");
    let (next, result) = run(&char('a').seq0().and(escape()), "aaa\\n", 0);
    assert_eq!(result, ParseResult::Success { value: (vec!['a', 'a', 'a'], '\n') });
    assert_eq!(next.location, 5);
    let (next, result) = run(&stop_char('"').seq0(), "\"abc def\"", 1);
    assert_eq!(result, ParseResult::Success { value: b"abc def".to_vec() });
    assert_eq!(next.location, 8);
    assert_eq!(run(&stop_char('"'), "\"", 0).0.parse_error_opt.unwrap().message, "match input");
    assert_eq!(run(&stop_char('"'), "", 0).0.parse_error_opt.unwrap().message, "read error");
}

fn decimal() -> Parser<f64> {
    number_decimal().map(|span: Vec<u8>| String::from_utf8(span).unwrap().parse::<f64>().unwrap())
}

#[test]
fn decimal_scanner() {
    let parser = decimal();
    let (next, result) = run(&parser, "-1234.56", 0);
    assert_eq!(result, ParseResult::Success { value: -1234.56 });
    assert_eq!(next.location, 8);
    let (next, result) = run(&parser, "-", 0);
    assert_eq!(result, ParseResult::Failure {});
    assert_eq!(next.location, 0);
    let (next, result) = run(&parser, "12.", 0);
    assert_eq!(result, ParseResult::Success { value: 12.0 });
    assert_eq!(next.location, 3);
    let (next, result) = run(&parser, "-1234.567890000001", 0);
    assert_eq!(result, ParseResult::Success { value: -1234.567890000001 });
    assert_eq!(next.location, 18);
    let (next, result) = run(&parser, "+7.25e3", 0);
    assert_eq!(result, ParseResult::Success { value: 7.25 });
    assert_eq!(next.location, 5);
    assert_eq!(run(&parser, ".5", 0).1, ParseResult::Failure {});
    assert_eq!(run(&parser, "", 0).1, ParseResult::Failure {});
    assert_eq!(run(&number_decimal(), "x 3.14.15", 2).1, ParseResult::Success { value: b"3.14".to_vec() });
}

#[test]
fn integers_are_signed_and_wrap() {
    let parser = number_i32();
    assert_eq!(run(&parser, "-17;", 0).1, ParseResult::Success { value: -17 });
    assert_eq!(run(&parser, "+17", 0).0.location, 3);
    assert_eq!(run(&parser, "0042", 0).1, ParseResult::Success { value: 42 });
    assert_eq!(run(&parser, "2147483647", 0).1, ParseResult::Success { value: i32::MAX });
    assert_eq!(run(&parser, "-2147483648", 0).1, ParseResult::Success { value: i32::MIN });
    assert_eq!(run(&parser, "2147483648", 0).1, ParseResult::Success { value: i32::MIN });
    assert_eq!(run(&parser, "4294967297", 0).1, ParseResult::Success { value: 1 });
    for text in ["", "-", "+", "-x", "x1"] {
        let (next, result) = run(&parser, text, 0);
        assert_eq!(result, ParseResult::Failure {});
        assert_eq!(next.location, 0);
        assert_eq!(next.parse_error_opt.unwrap().label, "number");
    }
}

#[test]
fn characters_take_their_width_in_bytes() {
    for (c, width) in [('a', 1), ('é', 2), ('日', 3), ('🍣', 4)] {
        let text = format!("{}{}", c, c);
        let (next, result) = run(&char(c), &text, width);
        assert_eq!(result, ParseResult::Success { value: c });
        assert_eq!(next.location, 2 * width);
        let mut cut = ParserInput::Text(text.as_bytes()[..2 * width - 1].to_vec());
        let (next, result) = char(c).parse(&mut cut, &ParseContext::new_context(width));
        assert_eq!(result, ParseResult::Failure {});
        assert_eq!(next.location, width);
    }
    let (next, result) = run(&char('🍣'), "🍺", 0);
    assert_eq!(result, ParseResult::Failure {});
    assert_eq!(next.parse_error_opt.unwrap().location, 0);
}

#[test]
fn line_terminators() {
    assert_eq!(run(&break_line(), "a\r\nb", 1).0.location, 3);
    assert_eq!(run(&break_line(), "a\rb", 1).0.location, 2);
    assert_eq!(run(&break_line(), "a\r", 1).0.location, 2);
    assert_eq!(run(&break_line(), "a\n\rb", 1).0.location, 2);
    assert_eq!(run(&break_line(), "ab", 1).1, ParseResult::Failure {});
    assert_eq!(run(&break_line(), "a", 1).1, ParseResult::Failure {});
    assert_eq!(run(&space(), " ", 0).0.location, 1);
    assert_eq!(run(&space(), "\n", 0).1, ParseResult::Failure {});
    assert_eq!(run(&space_or_line(), "\r\n", 0).0.location, 2);
    assert_eq!(run(&space_or_line(), "\t", 0).0.location, 1);
    assert_eq!(run(&space_or_line(), "x", 0).0.parse_error_opt.unwrap().child.len(), 2);
}

#[test]
fn anchors_consume_nothing() {
    assert_eq!(run(&head(), "abc", 0).1, ParseResult::Success { value: () });
    assert_eq!(run(&head(), "abc", 0).0.location, 0);
    assert_eq!(run(&head(), "a\nb", 2).1, ParseResult::Success { value: () });
    assert_eq!(run(&head(), "a\rb", 2).0.location, 2);
    assert_eq!(run(&head(), "\nb", 1).1, ParseResult::Success { value: () });
    assert_eq!(run(&head(), "a\n", 2).1, ParseResult::Success { value: () });
    assert_eq!(run(&head(), "ab", 1).1, ParseResult::Failure {});
    assert_eq!(run(&end(), "ab", 2).1, ParseResult::Success { value: () });
    assert_eq!(run(&end(), "ab", 2).0.location, 2);
    assert_eq!(run(&end(), "ab", 1).1, ParseResult::Failure {});
    assert_eq!(run(&end(), "", 0).1, ParseResult::Success { value: () });
}

#[test]
fn skipped_space_leaves_the_error_to_the_parser() {
    let parser = literal("let").with_skip_space();
    let (next, result) = run(&parser, " \t\r\n  let x", 0);
    assert_eq!(result, ParseResult::Success { value: "let" });
    assert_eq!(next.location, 9);
    let (next, result) = run(&parser, "   lot", 0);
    assert_eq!(result, ParseResult::Failure {});
    assert_eq!(next.location, 3);
    let error = next.parse_error_opt.unwrap();
    assert_eq!(error.label, "literal");
    assert_eq!(error.location, 4);
}

#[derive(Debug, Clone, PartialEq)]
enum Value {
    Object(Vec<(String, Value)>),
    Array(Vec<Value>),
    Text(String),
    Number(f64),
    Bool(bool),
    Null,
}

fn value() -> Parser<Value> {
    let text = dquote_string().map(Value::Text).with_skip_space();
    let number = decimal().map(Value::Number).with_skip_space();
    let null = literal("null").map(|_| Value::Null).with_skip_space();
    let boolean = literal("true")
        .map(|_| Value::Bool(true))
        .or(literal("false").map(|_| Value::Bool(false)))
        .with_skip_space();
    let list = array(
        lazy(value),
        char('[').with_skip_space(),
        char(']').with_skip_space(),
        char(',').with_skip_space(),
    )
    .map(Value::Array);
    let object = array(
        dquote_string().with_skip_space().and_left(char(':').with_skip_space()).and(lazy(value)),
        char('{').with_skip_space(),
        char('}').with_skip_space(),
        char(',').with_skip_space(),
    )
    .map(Value::Object);
    text.or(number).or(null).or(boolean).or(list).or(object)
}

#[test]
fn grammar_that_refers_to_itself() {
    let parser = value().with_skip_space().and_left(end().with_skip_space());
    let (next, result) = run(&parser, "[123, true, [456, {\"k\": null}]]", 0);
    assert_eq!(
        result,
        ParseResult::Success {
            value: Value::Array(vec![
                Value::Number(123.0),
                Value::Bool(true),
                Value::Array(vec![
                    Value::Number(456.0),
                    Value::Object(vec![("k".to_owned(), Value::Null)]),
                ]),
            ])
        }
    );
    assert_eq!(next.location, 31);
    let text = "  [ 123, true, [456,  { \"string\": \"aaaaa\", \"numberInt\": 123, \"numberDouble\": -123.456, \"bool\": true, \"null\": null,\"array\":[ [1]] } ] ]";
    let (_, result) = run(&parser, text, 0);
    assert_eq!(
        result,
        ParseResult::Success {
            value: Value::Array(vec![
                Value::Number(123.0),
                Value::Bool(true),
                Value::Array(vec![
                    Value::Number(456.0),
                    Value::Object(vec![
                        ("string".to_owned(), Value::Text("aaaaa".to_owned())),
                        ("numberInt".to_owned(), Value::Number(123.0)),
                        ("numberDouble".to_owned(), Value::Number(-123.456)),
                        ("bool".to_owned(), Value::Bool(true)),
                        ("null".to_owned(), Value::Null),
                        ("array".to_owned(), Value::Array(vec![Value::Array(vec![Value::Number(1.0)])])),
                    ]),
                ]),
            ])
        }
    );
    assert_eq!(run(&parser, "{ }", 0).1, ParseResult::Success { value: Value::Object(vec![]) });
    assert_eq!(run(&parser, "[1, [2, [3, ]", 0).1, ParseResult::Failure {});
}

#[test]
fn parsers_read_a_stream_across_its_windows() {
    let mut data = Vec::new();
    data.push(b'[');
    for i in 0..3000 {
        if i > 0 {
            data.extend_from_slice(b", ");
        }
        data.extend_from_slice(i.to_string().as_bytes());
    }
    data.push(b']');
    assert!(data.len() > 3 * 4096);
    let shared = data.clone();
    let mut input = ParserInput::file(move |offset: u64, capacity: usize| {
        let start = std::cmp::min(offset as usize, shared.len());
        let end = std::cmp::min(start + capacity, shared.len());
        Ok(shared[start..end].to_vec())
    });
    let (next, result) = int_list().parse(&mut input, &ParseContext::new_context(0));
    assert_eq!(result, ParseResult::Success { value: (0..3000).collect::<Vec<i32>>() });
    assert_eq!(next.location, data.len());
}

#[test]
fn stream_failure_is_reported_apart_from_a_mismatch() {
    let mut input = ParserInput::file(|offset: u64, _capacity: usize| {
        if offset == 0 {
            Ok(b"12".to_vec())
        } else {
            Err("disk gone".to_owned())
        }
    });
    let (next, result) = literal("12").parse(&mut input, &ParseContext::new_context(0));
    assert_eq!(result, ParseResult::Success { value: "12" });
    assert_eq!(next.location, 2);
    for parser in [number_i32().map(|_| ()), end(), char('x').map(|_| ()), space(), break_line()] {
        let (next, result) = parser.parse(&mut input, &ParseContext::new_context(5000));
        assert_eq!(result, ParseResult::Failure {});
        assert_eq!(next.location, 5000);
        let error = next.parse_error_opt.unwrap();
        assert_eq!(error.label, "io");
        assert_eq!(error.message, "disk gone");
        assert_eq!(error.location, 5000);
    }
    let (next, result) = char('x').parse(&mut ParserInput::text("12"), &ParseContext::new_context(5000));
    assert_eq!(result, ParseResult::Failure {});
    assert_eq!(next.parse_error_opt.unwrap().label, "char");
}
