//! The combinator behaviours, exercised once more under the older test
//! names, against the runtime's node conventions: primitive leaves are
//! anonymous and predicates produce no nodes.
use nailgun::exprs::{And, CharClass, Dot, Expr, Literal, NotEx, OptionEx, Or, Plus, Star};
use nailgun::node::{Node, NodeContents};
use nailgun::state::{ParseResult, ParseState};
use nailgun::unicode::bytesFollowing;

fn ToParseState(bytes: &[u8]) -> ParseState<'_> {
    ParseState { input: bytes, offset: 0 }
}

fn lit(text: &'static [u8]) -> Expr {
    Expr::Literal(Literal::new(text))
}

fn class(contents: &'static str) -> Expr {
    Expr::CharClass(CharClass::new(contents.as_bytes()))
}

fn leaf(start: usize, end: usize, data: &[u8]) -> Node {
    Node::withoutName(start, end, NodeContents::Data(data.to_vec()))
}

#[test]
fn literal_LiteralExpression_Match() {
    let expr = Literal::new(b"foo");
    match expr.apply(&ToParseState(b"foobar")) {
        Some(ParseResult { nodes, parse_state }) => {
            assert_eq!(nodes[0], leaf(0, 3, b"foo"));
            assert_eq!(parse_state, ParseState { input: b"bar", offset: 3 });
        }
        _ => panic!("No match!"),
    };
}

#[test]
fn literal_LiteralExpression_NoMatch() {
    let expr = Literal::new(b"zoo");
    assert!(expr.apply(&ToParseState(b"foobar")).is_none());
    assert!(expr.apply(&ToParseState(b"")).is_none());
}

#[test]
fn dot_DotExpression_Match_InputOneChar() {
    match Dot.apply(&ToParseState(b"x")) {
        Some(ParseResult { nodes, parse_state }) => {
            assert_eq!(nodes[0], leaf(0, 1, b"x"));
            assert_eq!(parse_state, ParseState { input: &[], offset: 1 });
        }
        _ => panic!("No match!"),
    };
}

#[test]
fn dot_DotExpression_Match_InputOneWideChar() {
    let input = "葉".as_bytes();
    match Dot.apply(&ToParseState(input)) {
        Some(ParseResult { nodes, parse_state }) => {
            assert_eq!(nodes[0], leaf(0, 3, input));
            assert_eq!(parse_state, ParseState { input: &[], offset: 3 });
        }
        _ => panic!("No match!"),
    };
}

#[test]
fn dot_DotExpression_Match_InputSeveralChars() {
    match Dot.apply(&ToParseState(b"xb")) {
        Some(ParseResult { nodes, parse_state }) => {
            assert!(nodes[0] == leaf(0, 1, b"x"));
            assert_eq!(parse_state, ParseState { input: b"b", offset: 1 });
        }
        _ => panic!("No match!"),
    };
}

#[test]
fn dot_DotExpression_NoMatch() {
    assert!(Dot.apply(&ToParseState(b"")).is_none())
}

fn charClassMatch(char_class: CharClass, input: &[u8]) -> bool {
    let st = ToParseState(input);
    match char_class.apply(&st) {
        Some(ParseResult { nodes, parse_state }) => {
            let bytes_read = bytesFollowing(input[0]).map_or(1, |num| num + 1);
            assert_eq!(nodes[0], leaf(0, bytes_read, input));
            assert_eq!(parse_state, ParseState { input: &[], offset: bytes_read });
            true
        }
        _ => false,
    }
}

#[test]
fn char_class_CharClassExpression_Match() {
    assert!(charClassMatch(CharClass::new(b"a"), b"a"));
    assert!(charClassMatch(CharClass::new(b"abcdef"), b"e"));
    assert!(charClassMatch(CharClass::new(b"a-z"), b"a"));
    assert!(charClassMatch(CharClass::new(b"a-z"), b"c"));
    assert!(charClassMatch(CharClass::new(b"a-z"), b"z"));
    assert!(charClassMatch(CharClass::new(b"0-9"), b"2"));
    assert!(charClassMatch(CharClass::new("α-ω".as_bytes()), "η".as_bytes()));
    assert!(charClassMatch(CharClass::new(b"-"), b"-"));
    assert!(charClassMatch(CharClass::new(b"a-"), b"-"));
    assert!(charClassMatch(CharClass::new(b"-a"), b"-"));
    assert!(charClassMatch(CharClass::new(b"a-zA-Z-"), b"-"));
    assert!(charClassMatch(CharClass::new(b"aa-zA-Z-a"), b"-"));
    assert!(charClassMatch(CharClass::new(b"a-zA-Z-"), b"z"));
    assert!(charClassMatch(CharClass::new(b"aa-zA-Z-0"), b"0"));
    assert!(charClassMatch(CharClass::new(b"a-cdefgh-k"), b"e"));
    assert!(charClassMatch(CharClass::new(b"---"), b"-"));
    assert!(charClassMatch(CharClass::new(b"a-a"), b"a"));
}

#[test]
fn char_class_CharClassExpression_NoMatch() {
    assert!(!charClassMatch(CharClass::new(b"a"), b"b"));
    assert!(!charClassMatch(CharClass::new(b"-"), b"a"));
    assert!(!charClassMatch(CharClass::new(b"z-a"), b"a"));
    assert!(!charClassMatch(CharClass::new(b"z-a"), b"b"));
    assert!(!charClassMatch(CharClass::new(b"a-z"), b"0"));
    assert!(!charClassMatch(CharClass::new(b"a-z"), b"A"));
}

#[test]
fn not_NotExpression_Match_WithLiteral() {
    let orig_state = ToParseState(b"zoo");
    match NotEx::new(lit(b"foo")).apply(&orig_state) {
        Some(ParseResult { nodes, parse_state }) => {
            assert!(nodes.is_empty());
            assert_eq!(parse_state, orig_state);
        }
        _ => panic!("No match."),
    }
}

#[test]
fn not_NotExpression_Match_WithCharClass() {
    let orig_state = ToParseState(b"0");
    match NotEx::new(class("a-z")).apply(&orig_state) {
        Some(ParseResult { nodes, parse_state }) => {
            assert!(nodes.is_empty());
            assert_eq!(parse_state, orig_state);
        }
        _ => panic!("No match."),
    }
}

#[test]
fn not_NotExpression_NoMatch() {
    assert!(NotEx::new(class("a-z")).apply(&ToParseState(b"b")).is_none());
    assert!(NotEx::new(lit(b"x")).apply(&ToParseState(b"x")).is_none());
}

#[test]
fn AndExpression_Match_WithLiteral() {
    let orig_state = ToParseState(b"foo");
    match And::new(lit(b"foo")).apply(&orig_state) {
        Some(ParseResult { nodes, parse_state }) => {
            assert!(nodes.is_empty());
            assert_eq!(parse_state, orig_state);
        }
        _ => panic!("No match."),
    }
}

#[test]
fn AndExpression_Match_WithCharClass() {
    let orig_state = ToParseState(b"c");
    match And::new(class("a-z")).apply(&orig_state) {
        Some(ParseResult { nodes, parse_state }) => {
            assert!(nodes.is_empty());
            assert_eq!(parse_state, orig_state);
        }
        _ => panic!("No match."),
    }
}

#[test]
fn AndExpression_NoMatch() {
    assert!(And::new(class("a-z")).apply(&ToParseState(b"0")).is_none());
    assert!(And::new(lit(b"x")).apply(&ToParseState(b"y")).is_none());
}

#[test]
fn OptionExpression_Match_WithLiteral() {
    let orig_state = ToParseState(b"foo");
    match OptionEx::new(lit(b"foo")).apply(&orig_state) {
        Some(ParseResult { nodes, parse_state }) => {
            assert_eq!(nodes[0], leaf(0, 3, b"foo"));
            assert_eq!(parse_state, orig_state.advanceTo(3));
        }
        _ => panic!("No match."),
    }
}

#[test]
fn OptionExpression_Match_Empty() {
    let orig_state = ToParseState(b"y");
    match OptionEx::new(lit(b"x")).apply(&orig_state) {
        Some(ParseResult { nodes, parse_state }) => {
            assert!(nodes.is_empty());
            assert_eq!(parse_state, orig_state);
        }
        _ => panic!("No match."),
    }
}

#[test]
fn OrExpression_Match_FirstExpr() {
    let orig_state = ToParseState(b"a");
    match Or::new(vec![lit(b"a"), lit(b"b")]).apply(&orig_state) {
        Some(ParseResult { nodes, parse_state }) => {
            assert_eq!(nodes[0], leaf(0, 1, b"a"));
            assert_eq!(parse_state, orig_state.advanceTo(1));
        }
        _ => panic!("No match."),
    }
}

#[test]
fn OrExpression_Match_SecondExpr() {
    let orig_state = ToParseState(b"a");
    match Or::new(vec![lit(b"b"), lit(b"a")]).apply(&orig_state) {
        Some(ParseResult { nodes, parse_state }) => {
            assert_eq!(nodes[0], leaf(0, 1, b"a"));
            assert_eq!(parse_state, orig_state.advanceTo(1));
        }
        _ => panic!("No match."),
    }
}

#[test]
fn OrExpression_Match_FirstExprIfBoth() {
    let orig_state = ToParseState(b"a");
    match Or::new(vec![lit(b"a"), lit(b"a")]).apply(&orig_state) {
        Some(ParseResult { nodes, parse_state }) => {
            assert_eq!(nodes[0], leaf(0, 1, b"a"));
            assert_eq!(parse_state, orig_state.advanceTo(1));
        }
        _ => panic!("No match."),
    }
}

#[test]
fn OrExpression_NoMatch() {
    assert!(Or::new(vec![lit(b"b"), lit(b"c")]).apply(&ToParseState(b"a")).is_none())
}

#[test]
fn PlusExpression_Match() {
    let orig_state = ToParseState(b"aaa");
    match Plus::new(lit(b"a")).apply(&orig_state) {
        Some(ParseResult { nodes, parse_state }) => {
            assert_eq!(nodes[0], leaf(0, 1, b"a"));
            assert_eq!(nodes[1], leaf(1, 2, b"a"));
            assert_eq!(nodes[2], leaf(2, 3, b"a"));
            assert_eq!(parse_state, orig_state.advanceTo(3));
        }
        _ => panic!("No match."),
    }
}

#[test]
fn PlusExpression_Match_JustOne() {
    let orig_state = ToParseState(b"abb");
    match Plus::new(lit(b"a")).apply(&orig_state) {
        Some(ParseResult { nodes, parse_state }) => {
            assert_eq!(nodes[0], leaf(0, 1, b"a"));
            assert_eq!(parse_state, orig_state.advanceTo(1));
        }
        _ => panic!("No match."),
    }
}

#[test]
fn PlusExpression_NoMatch() {
    assert!(Plus::new(lit(b"x")).apply(&ToParseState(b"y")).is_none());
}

#[test]
fn StarExpression_Match() {
    let orig_state = ToParseState(b"aaa");
    match Star::new(lit(b"a")).apply(&orig_state) {
        Some(ParseResult { nodes, parse_state }) => {
            assert_eq!(nodes[0], leaf(0, 1, b"a"));
            assert_eq!(nodes[1], leaf(1, 2, b"a"));
            assert_eq!(nodes[2], leaf(2, 3, b"a"));
            assert_eq!(parse_state, orig_state.advanceTo(3));
        }
        _ => panic!("No match."),
    }
}

#[test]
fn StarExpression_Match_Empty() {
    let orig_state = ToParseState(b"y");
    match Star::new(lit(b"x")).apply(&orig_state) {
        Some(ParseResult { nodes, parse_state }) => {
            assert!(nodes.is_empty());
            assert_eq!(parse_state, orig_state);
        }
        _ => panic!("No match."),
    }
}

#[test]
fn parser_tests_LiteralExpression_Match() {
    let expr = Literal::new(b"foo");
    match expr.apply(&ToParseState(b"foobar")) {
        Some(ParseResult { nodes, parse_state }) => {
            assert_eq!(nodes[0], leaf(0, 3, b"foo"));
            assert_eq!(parse_state.offset, 3);
            assert_eq!(parse_state.input, b"bar");
        }
        _ => panic!("No match!"),
    };
}

#[test]
fn parser_tests_LiteralExpression_NoMatch() {
    let expr = Literal::new(b"zoo");
    assert!(expr.apply(&ToParseState(b"foobar")).is_none());
    assert!(expr.apply(&ToParseState(b"")).is_none());
}

#[test]
fn parser_tests_DotExpression_Match_InputOneChar() {
    match Dot.apply(&ToParseState(b"x")) {
        Some(ParseResult { nodes, parse_state }) => {
            assert_eq!(nodes[0], leaf(0, 1, b"x"));
            assert!(parse_state.input.is_empty());
        }
        _ => panic!("No match!"),
    };
}

#[test]
fn parser_tests_DotExpression_Match_InputOneWideChar() {
    match Dot.apply(&ToParseState("葉".as_bytes())) {
        Some(ParseResult { nodes, parse_state }) => {
            assert_eq!(nodes[0], leaf(0, 3, "葉".as_bytes()));
            assert!(parse_state.input.is_empty());
        }
        _ => panic!("No match!"),
    };
}

#[test]
fn parser_tests_DotExpression_Match_InputSeveralChars() {
    match Dot.apply(&ToParseState(b"xb")) {
        Some(ParseResult { nodes, parse_state }) => {
            assert_eq!(nodes[0], leaf(0, 1, b"x"));
            assert_eq!(parse_state.input, b"b");
        }
        _ => panic!("No match!"),
    };
}

#[test]
fn parser_tests_DotExpression_NoMatch() {
    assert!(Dot.apply(&ToParseState(b"")).is_none())
}

#[test]
fn parser_tests_CharClassExpression_Match() {
    assert!(charClassMatch(CharClass::new(b"a"), b"a"));
    assert!(charClassMatch(CharClass::new(b"abcdef"), b"e"));
    assert!(charClassMatch(CharClass::new(b"a-z"), b"a"));
    assert!(charClassMatch(CharClass::new(b"a-z"), b"c"));
    assert!(charClassMatch(CharClass::new(b"a-z"), b"z"));
    assert!(charClassMatch(CharClass::new(b"0-9"), b"2"));
    assert!(charClassMatch(CharClass::new("α-ω".as_bytes()), "η".as_bytes()));
    assert!(charClassMatch(CharClass::new(b"-"), b"-"));
    assert!(charClassMatch(CharClass::new(b"a-"), b"-"));
    assert!(charClassMatch(CharClass::new(b"-a"), b"-"));
    assert!(charClassMatch(CharClass::new(b"a-zA-Z-"), b"-"));
    assert!(charClassMatch(CharClass::new(b"aa-zA-Z-a"), b"-"));
    assert!(charClassMatch(CharClass::new(b"a-zA-Z-"), b"z"));
    assert!(charClassMatch(CharClass::new(b"aa-zA-Z-0"), b"0"));
    assert!(charClassMatch(CharClass::new(b"a-cdefgh-k"), b"e"));
    assert!(charClassMatch(CharClass::new(b"---"), b"-"));
    assert!(charClassMatch(CharClass::new(b"a-a"), b"a"));
}

#[test]
fn parser_tests_CharClassExpression_NoMatch() {
    assert!(!charClassMatch(CharClass::new(b"a"), b"b"));
    assert!(!charClassMatch(CharClass::new(b"-"), b"a"));
    assert!(!charClassMatch(CharClass::new(b"z-a"), b"a"));
    assert!(!charClassMatch(CharClass::new(b"z-a"), b"b"));
    assert!(!charClassMatch(CharClass::new(b"a-z"), b"0"));
    assert!(!charClassMatch(CharClass::new(b"a-z"), b"A"));
}

#[test]
fn parser_tests_NotExpression_Match_WithLiteral() {
    let orig_state = ToParseState(b"zoo");
    match NotEx::new(lit(b"foo")).apply(&orig_state) {
        Some(ParseResult { nodes, parse_state }) => {
            assert!(nodes.is_empty());
            assert_eq!(parse_state, orig_state);
        }
        _ => panic!("No match."),
    }

    assert!(NotEx::new(class("a-z")).apply(&ToParseState(b"0")).is_some())
}

#[test]
fn parser_tests_NotExpression_Match_WithCharClass() {
    let orig_state = ToParseState(b"0");
    match NotEx::new(class("a-z")).apply(&orig_state) {
        Some(ParseResult { nodes, parse_state }) => {
            assert!(nodes.is_empty());
            assert_eq!(parse_state, orig_state);
        }
        _ => panic!("No match."),
    }
}

#[test]
fn parser_tests_NotExpression_NoMatch() {
    assert!(NotEx::new(class("a-z")).apply(&ToParseState(b"b")).is_none());
    assert!(NotEx::new(lit(b"x")).apply(&ToParseState(b"x")).is_none());
}
