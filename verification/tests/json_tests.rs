use std::collections::HashMap;

use rcomb_parser::common_parsers::{array, char, dquote_string, lazy, literal, number_decimal};
use rcomb_parser::parse_context::ParseContext;
use rcomb_parser::parse_result::ParseResult;
use rcomb_parser::parser::{Parser, ParserFunctuor, ParserTrait};
use rcomb_parser::parser_input::ParserInput;
use rcomb_parser::parser_methods::ParserMethods;

#[derive(Debug, Clone)]
pub struct MyNumber(f64);

impl PartialEq for MyNumber {
    fn eq(&self, other: &Self) -> bool {
        self.0 == other.0
    }
}

impl Eq for MyNumber {}

#[test]
fn test11() {
    println!("{}", MyNumber(0.1) == MyNumber(0.2));
    assert!(MyNumber(0.1) != MyNumber(0.2));
}

#[derive(Debug, Clone, PartialEq, Eq)]
pub enum JValue {
    JObject(HashMap<String, JValue>),
    JArray(Vec<JValue>),
    JString(String),
    JNumber(MyNumber),
    JBool(bool),
    JNull,
}

fn number_f64() -> Parser<f64> {
    number_decimal().map(|span: Vec<u8>| String::from_utf8(span).unwrap().parse::<f64>().unwrap())
}

fn jvalue() -> Parser<JValue> {
    let jstr = dquote_string().map(|v| JValue::JString(v)).with_skip_space();
    let jnumber = number_f64().map(|v| JValue::JNumber(MyNumber(v))).with_skip_space();
    let jnull = literal("null").map(|_v| JValue::JNull).with_skip_space();
    let jbool = literal("true")
        .map(|_| JValue::JBool(true))
        .or(literal("false").map(|_| JValue::JBool(false)))
        .with_skip_space();
    jstr.or(jnumber).or(jnull).or(jbool).or(jarray()).or(jobject())
}

fn jarray() -> Parser<JValue> {
    array(
        lazy(jvalue),
        char('[').with_skip_space(),
        char(']').with_skip_space(),
        char(',').with_skip_space(),
    )
    .map(|v| JValue::JArray(v))
}

fn jobject() -> Parser<JValue> {
    array(
        dquote_string().with_skip_space().and_left(char(':').with_skip_space()).and(lazy(jvalue)),
        char('{').with_skip_space(),
        char('}').with_skip_space(),
        char(',').with_skip_space(),
    )
    .map(|v| JValue::JObject(v.into_iter().collect::<HashMap<String, JValue>>()))
}

fn json_parser() -> Parser<JValue> {
    jarray().or(jobject())
}

fn hashmap(entries: Vec<(&str, JValue)>) -> HashMap<String, JValue> {
    let mut map = HashMap::new();
    for (key, val) in entries {
        map.insert(key.to_owned(), val);
    }
    map
}

#[test]
fn json_parser_test1() {
    let parser = json_parser().with_skip_space();
    match parser.parse(&mut ParserInput::text("[ \"abcd\" ]"), &mut ParseContext::new_context(0)) {
        (next_context, ParseResult::Success { value }) => {
            println!("{}", next_context.to_string());
            assert!(true);
            assert_eq!(value, JValue::JArray(vec![JValue::JString("abcd".to_owned())]));
        }
        _ => assert!(false),
    }

    match parser.parse(&mut ParserInput::text("{ }"), &mut ParseContext::new_context(0)) {
        (next_context, ParseResult::Success { value }) => {
            println!("{}", next_context.to_string());
            assert!(true);
            assert_eq!(value, JValue::JObject(HashMap::new()));
        }
        (next_context, ParseResult::Failure {}) => {
            println!("{}", next_context.to_string());
            assert!(false)
        }
    }

    match parser.parse(&mut ParserInput::text("{ \"array\": [1,2,3]}"), &mut ParseContext::new_context(0)) {
        (next_context, ParseResult::Success { value }) => {
            println!("{}", next_context.to_string());
            assert!(true);
            println!("{:?}", value);
            assert_eq!(
                value,
                JValue::JObject(hashmap(vec![(
                    "array",
                    JValue::JArray(vec![
                        JValue::JNumber(MyNumber(1.0)),
                        JValue::JNumber(MyNumber(2.0)),
                        JValue::JNumber(MyNumber(3.0))
                    ])
                )]))
            );
        }
        (next_context, ParseResult::Failure {}) => {
            println!("{}", next_context.to_string());
            assert!(false)
        }
    }

    match parser.parse(&mut ParserInput::text("  [ 123]"), &mut ParseContext::new_context(0)) {
        (next_context, ParseResult::Success { value }) => {
            println!("{}", next_context.to_string());
            assert!(true);
            println!("{:?}", value);
        }
        (next_context, ParseResult::Failure {}) => {
            println!("{}", next_context.to_string());
            assert!(false)
        }
    }
}

#[test]
fn test2() {
    let parser = json_parser().with_skip_space();
    match parser.parse(&mut ParserInput::text("  [ 123, true, [456,  { \"string\": \"aaaaa\", \"numberInt\": 123, \"numberDouble\": -123.456, \"bool\": true, \"null\": null,\"array\":[ [1]] } ] ]"), &mut ParseContext::new_context(0)) {
        (next_context, ParseResult::Success { value }) => {
            println!("{}", next_context.to_string());
            assert!(true);
            println!("{:?}", value);
            assert_eq!(
                value,
                JValue::JArray(vec![
                    JValue::JNumber(MyNumber(123.0)),
                    JValue::JBool(true),
                    JValue::JArray(vec![
                        JValue::JNumber(MyNumber(456.0)),
                        JValue::JObject(hashmap(vec![
                            ("string", JValue::JString("aaaaa".to_owned())),
                            ("numberInt", JValue::JNumber(MyNumber(123.0))),
                            ("numberDouble", JValue::JNumber(MyNumber(-123.456))),
                            ("bool", JValue::JBool(true)),
                            ("null", JValue::JNull),
                            (
                                "array",
                                JValue::JArray(vec![JValue::JArray(vec![JValue::JNumber(MyNumber(1.0))])])
                            )
                        ]))
                    ])
                ])
            );
        }
        (next_context, ParseResult::Failure {}) => {
            println!("{}", next_context.to_string());
            assert!(false)
        }
    }
}
