use rcomb_parser::parse_context::ParseContext;
use rcomb_parser::parse_error::ParseError;

#[test]
fn parse_context_test() {}

#[test]
fn parse_errors_test() {
    let mut a = ParseError::new_error(0, "A", "message A");
    let b = ParseError::new_error(1, "B", "message B");
    a = a.add_error(b);
    println!("{}", a.to_string());
    assert_eq!(a.location, 1);
    assert_eq!(a.label, "A");
    assert_eq!(a.message, "message A");
    assert_eq!(a.child.len(), 1);
    assert_eq!(a.child[0].label, "B");

    let mut parser_context1 = ParseContext::new_labeled_context("label1", 0).new_error("kkk", "def");
    let parser_context2 = ParseContext::new_labeled_context("label1", 2).new_error("label1", "ghi");
    parser_context1 = parser_context1.add_error(parser_context2);
    println!("{}", parser_context1.to_string());
    assert_eq!(parser_context1.location, 2);
    let merged = parser_context1.parse_error_opt.unwrap();
    assert_eq!(merged.location, 2);
    assert_eq!(merged.label, "kkk");
    assert_eq!(merged.child.len(), 1);
    assert_eq!(merged.child[0].message, "ghi");
}

#[test]
fn main_test() {
    println!("test")
}

#[test]
fn main_test1() {}

#[test]
fn error_renders_fields_then_children() {
    let a = ParseError::new_error(0, "A", "message A");
    let b = ParseError::new_error(12, "B", "message B");
    let c = ParseError::new(305, "C".to_owned(), "message C".to_owned());
    let merged = a.add_error(b).add_error(c);
    assert_eq!(
        merged.to_string(),
        "(location: 305, label: A, message: message A, child: [(location: 12, label: B, message: message B, child: []),(location: 305, label: C, message: message C, child: [])])"
    );
}

#[test]
fn context_renders_with_and_without_error() {
    let fresh = ParseContext::new_labeled_context("top", 40);
    assert_eq!(fresh.to_string(), "(location: 40, label: top)");
    let failed = fresh.new_error("char", "not match");
    assert_eq!(
        failed.to_string(),
        "(location: 40, label: top, parseError: [(location: 40, label: char, message: not match, child: [])])"
    );
}

#[test]
fn add_error_keeps_the_furthest_location() {
    let near = ParseError::new_error(3, "near", "n");
    let far = ParseError::new_error(9, "far", "f");
    assert_eq!(near.add_error(far.clone()).location, 9);
    assert_eq!(far.add_error(near.clone()).location, 9);
    assert_eq!(near.location_by_error(far.clone()).location, 9);
    assert_eq!(near.location_by_error(far.clone()).child.len(), 0);
    assert_eq!(far.location_change(1).location, 1);
}

#[test]
fn context_merge_under_another_label_moves_only_the_error() {
    let mine = ParseContext::new_labeled_context("mine", 1).new_error("here", "x");
    let other = ParseContext::new_context(7).new_error("there", "y");
    let merged = mine.add_error(other);
    assert_eq!(merged.location, 1);
    let error = merged.parse_error_opt.unwrap();
    assert_eq!(error.location, 7);
    assert_eq!(error.child.len(), 0);
}

#[test]
fn context_merge_without_errors_is_a_copy() {
    let mine = ParseContext::new_context(4);
    let other = ParseContext::new_context(9).new_error("there", "y");
    let merged = mine.add_error(other);
    assert_eq!(merged.location, 4);
    assert!(merged.parse_error_opt.is_none());
    let failed = ParseContext::new_context(4).new_error("a", "b");
    let kept = failed.add_error(ParseContext::new_context(20));
    assert_eq!(kept.location, 4);
    assert_eq!(kept.parse_error_opt.unwrap().child.len(), 0);
}

#[test]
fn add_error2_folds_into_the_recorded_error() {
    let mine = ParseContext::new_context(2).new_error("a", "b");
    let merged = mine.add_error2(ParseError::new_error(5, "c", "d"));
    assert_eq!(merged.location, 5);
    let error = merged.parse_error_opt.unwrap();
    assert_eq!(error.location, 5);
    assert_eq!(error.child.len(), 1);
}

#[test]
fn errors_are_recorded_and_forgotten_in_place() {
    let mut context = ParseContext::new_context(0);
    context.add_errors(ParseError::new_error(2, "first", "x"));
    assert_eq!(context.parse_error_opt.as_ref().unwrap().label, "first");
    context.add_errors(ParseError::new_error(6, "second", "y"));
    let error = context.parse_error_opt.as_ref().unwrap();
    assert_eq!(error.location, 6);
    assert_eq!(error.child.len(), 1);
    assert_eq!(context.location, 0);
    context.init_errors();
    assert!(context.parse_error_opt.is_none());
}

#[test]
fn locations_move_and_jump() {
    let context = ParseContext::new_context(3).new_error("a", "b");
    let moved = context.move_location(4);
    assert_eq!(moved.location, 7);
    assert!(moved.parse_error_opt.is_some());
    let jumped = moved.new_location(1);
    assert_eq!(jumped.location, 1);
    assert_eq!(jumped.parse_error_opt.unwrap().location, 3);
}
