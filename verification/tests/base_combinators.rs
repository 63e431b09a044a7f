use nailgun::exprs::{And, CharClass, Dot, Expr, Fuse, Literal, NotEx, OptionEx, Or, Plus, Sequence, Star, WrapEx};
use nailgun::node::{Node, NodeContents};
use nailgun::state::{ParseResult, ParseState};
use nailgun::unicode::bytesFollowing;

fn input_state(text: &'static str) -> ParseState<'static> {
    ParseState { input: text.as_bytes(), offset: 0 }
}

fn lit(text: &'static [u8]) -> Expr {
    Expr::Literal(Literal::new(text))
}

fn class(contents: &'static str) -> Expr {
    Expr::CharClass(CharClass::new(contents.as_bytes()))
}

fn leaf(start: usize, end: usize, data: &[u8]) -> Node {
    Node::withoutName(start, end, NodeContents::Data(data.to_vec()))
}

#[test]
fn Literal_Match() {
    let expr = Literal::new(b"foo");
    match expr.apply(&input_state("foobar")) {
        Some(ParseResult { nodes, parse_state }) => {
            assert_eq!(nodes[0], leaf(0, 3, b"foo"));
            assert_eq!(parse_state, ParseState { input: b"bar", offset: 3 });
        }
        _ => panic!("No match!"),
    };
}

#[test]
fn Literal_NoMatch() {
    let expr = Literal::new(b"zoo");
    assert!(expr.apply(&input_state("foobar")).is_none());
    assert!(expr.apply(&input_state("")).is_none());
}

fn charClassMatch(char_class: CharClass, input: &[u8]) -> bool {
    fn bytesRead(input: &[u8]) -> usize {
        bytesFollowing(input[0]).map_or(1, |num| num + 1)
    }

    let st = ParseState { input, offset: 0 };
    match char_class.apply(&st) {
        Some(ParseResult { nodes, parse_state }) => {
            let bytes_read = bytesRead(input);
            assert_eq!(nodes[0], leaf(0, bytes_read, input));
            assert_eq!(parse_state, ParseState { input: &[], offset: bytes_read });
            true
        }
        _ => false,
    }
}

#[test]
fn CharClass_Match() {
    assert!(charClassMatch(CharClass::new(b"a"), b"a"));
    assert!(charClassMatch(CharClass::new(b"abcdef"), b"e"));
    assert!(charClassMatch(CharClass::new(b"a-z"), b"a"));
    assert!(charClassMatch(CharClass::new(b"a-z"), b"c"));
    assert!(charClassMatch(CharClass::new(b"a-z"), b"z"));
    assert!(charClassMatch(CharClass::new(b"0-9"), b"2"));
    assert!(charClassMatch(CharClass::new("α-ω".as_bytes()), "η".as_bytes()));
    assert!(charClassMatch(CharClass::new(b"-"), b"-"));
    assert!(charClassMatch(CharClass::new(b"a-"), b"-"));
    assert!(charClassMatch(CharClass::new(b"-a"), b"-"));
    assert!(charClassMatch(CharClass::new(b"a-zA-Z-"), b"-"));
    assert!(charClassMatch(CharClass::new(b"aa-zA-Z-a"), b"-"));
    assert!(charClassMatch(CharClass::new(b"a-zA-Z-"), b"z"));
    assert!(charClassMatch(CharClass::new(b"aa-zA-Z-0"), b"0"));
    assert!(charClassMatch(CharClass::new(b"a-cdefgh-k"), b"e"));
    assert!(charClassMatch(CharClass::new(b"---"), b"-"));
    assert!(charClassMatch(CharClass::new(b"a-a"), b"a"));
}

#[test]
fn CharClass_Match_NonUnicode() {
    assert!(charClassMatch(CharClass::new(&[255]), &[255]));
}

#[test]
fn CharClass_NoMatch() {
    assert!(!charClassMatch(CharClass::new(b"a"), b"b"));
    assert!(!charClassMatch(CharClass::new(b"-"), b"a"));
    assert!(!charClassMatch(CharClass::new(b"z-a"), b"a"));
    assert!(!charClassMatch(CharClass::new(b"z-a"), b"b"));
    assert!(!charClassMatch(CharClass::new(b"a-z"), b"0"));
    assert!(!charClassMatch(CharClass::new(b"a-z"), b"A"));
}

#[test]
fn Dot_Match_InputOneChar() {
    match Dot.apply(&input_state("x")) {
        Some(ParseResult { nodes, parse_state }) => {
            assert_eq!(nodes[0], leaf(0, 1, b"x"));
            assert_eq!(parse_state, ParseState { input: &[], offset: 1 });
        }
        _ => panic!("No match!"),
    };
}

#[test]
fn Dot_Match_InputOneWideChar() {
    match Dot.apply(&input_state("葉")) {
        Some(ParseResult { nodes, parse_state }) => {
            assert_eq!(nodes[0], leaf(0, 3, "葉".as_bytes()));
            assert_eq!(parse_state, ParseState { input: &[], offset: 3 });
        }
        _ => panic!("No match!"),
    };
}

#[test]
fn Dot_Match_InputSeveralChars() {
    match Dot.apply(&input_state("xb")) {
        Some(ParseResult { nodes, parse_state }) => {
            assert!(nodes[0] == leaf(0, 1, b"x"));
            assert_eq!(parse_state, ParseState { input: b"b", offset: 1 });
        }
        _ => panic!("No match!"),
    };
}

#[test]
fn Dot_NoMatch() {
    assert!(Dot.apply(&input_state("")).is_none())
}

#[test]
fn NotEx_Match_WithLiteral() {
    let orig_state = input_state("zoo");
    match NotEx::new(lit(b"foo")).apply(&orig_state) {
        Some(ParseResult { nodes, parse_state }) => {
            assert!(nodes.is_empty());
            assert_eq!(parse_state, orig_state);
        }
        _ => panic!("No match."),
    }
}

#[test]
fn NotEx_Match_WithCharClass() {
    let orig_state = input_state("0");
    match NotEx::new(class("a-z")).apply(&orig_state) {
        Some(ParseResult { nodes, parse_state }) => {
            assert!(nodes.is_empty());
            assert_eq!(parse_state, orig_state);
        }
        _ => panic!("No match."),
    }
}

#[test]
fn NotEx_NoMatch() {
    assert!(NotEx::new(class("a-z")).apply(&input_state("b")).is_none());
    assert!(NotEx::new(lit(b"x")).apply(&input_state("x")).is_none());
}

#[test]
fn And_Match_WithLiteral() {
    let orig_state = input_state("foo");
    match And::new(lit(b"foo")).apply(&orig_state) {
        Some(ParseResult { nodes, parse_state }) => {
            assert!(nodes.is_empty());
            assert_eq!(parse_state, orig_state);
        }
        _ => panic!("No match."),
    }
}

#[test]
fn And_Match_WithCharClass() {
    let orig_state = input_state("c");
    match And::new(class("a-z")).apply(&orig_state) {
        Some(ParseResult { nodes, parse_state }) => {
            assert!(nodes.is_empty());
            assert_eq!(parse_state, orig_state);
        }
        _ => panic!("No match."),
    }
}

#[test]
fn And_NoMatch() {
    assert!(And::new(class("a-z")).apply(&input_state("0")).is_none());
    assert!(And::new(lit(b"x")).apply(&input_state("y")).is_none());
}

#[test]
fn OptionEx_Match_WithLiteral() {
    let orig_state = input_state("foo");
    match OptionEx::new(lit(b"foo")).apply(&orig_state) {
        Some(ParseResult { nodes, parse_state }) => {
            assert_eq!(nodes[0], leaf(0, 3, b"foo"));
            assert_eq!(parse_state, orig_state.advanceTo(3));
        }
        _ => panic!("No match."),
    }
}

#[test]
fn OptionEx_Match_Empty() {
    let orig_state = input_state("y");
    match OptionEx::new(lit(b"x")).apply(&orig_state) {
        Some(ParseResult { nodes, parse_state }) => {
            assert!(nodes.is_empty());
            assert_eq!(parse_state, orig_state);
        }
        _ => panic!("No match."),
    }
}

#[test]
fn Star_Match() {
    let orig_state = input_state("aaa");
    match Star::new(lit(b"a")).apply(&orig_state) {
        Some(ParseResult { nodes, parse_state }) => {
            assert_eq!(nodes[0], leaf(0, 1, b"a"));
            assert_eq!(nodes[1], leaf(1, 2, b"a"));
            assert_eq!(nodes[2], leaf(2, 3, b"a"));
            assert_eq!(parse_state, orig_state.advanceTo(3));
        }
        _ => panic!("No match."),
    }
}

#[test]
fn Star_Match_JustOne() {
    let orig_state = input_state("abb");
    match Star::new(lit(b"a")).apply(&orig_state) {
        Some(ParseResult { nodes, parse_state }) => {
            assert_eq!(nodes[0], leaf(0, 1, b"a"));
            assert_eq!(parse_state, orig_state.advanceTo(1));
        }
        _ => panic!("No match."),
    }
}

#[test]
fn Star_Match_Empty() {
    let orig_state = input_state("y");
    match Star::new(lit(b"x")).apply(&orig_state) {
        Some(ParseResult { nodes, parse_state }) => {
            assert!(nodes.is_empty());
            assert_eq!(parse_state, orig_state);
        }
        _ => panic!("No match."),
    }
}

#[test]
fn Plus_Match() {
    let orig_state = input_state("aaa");
    match Plus::new(lit(b"a")).apply(&orig_state) {
        Some(ParseResult { nodes, parse_state }) => {
            assert_eq!(nodes[0], leaf(0, 1, b"a"));
            assert_eq!(nodes[1], leaf(1, 2, b"a"));
            assert_eq!(nodes[2], leaf(2, 3, b"a"));
            assert_eq!(parse_state, orig_state.advanceTo(3));
        }
        _ => panic!("No match."),
    }
}

#[test]
fn Plus_Match_JustOne() {
    let orig_state = input_state("abb");
    match Plus::new(lit(b"a")).apply(&orig_state) {
        Some(ParseResult { nodes, parse_state }) => {
            assert_eq!(nodes[0], leaf(0, 1, b"a"));
            assert_eq!(parse_state, orig_state.advanceTo(1));
        }
        _ => panic!("No match."),
    }
}

#[test]
fn Plus_NoMatch() {
    let orig_state = input_state("y");
    match Plus::new(lit(b"x")).apply(&orig_state) {
        None => (),
        _ => panic!("Should not match."),
    }
}

#[test]
fn Or_Match_FirstExpr() {
    let orig_state = input_state("a");
    match Or::new(vec![lit(b"a"), lit(b"b")]).apply(&orig_state) {
        Some(ParseResult { nodes, parse_state }) => {
            assert_eq!(nodes[0], leaf(0, 1, b"a"));
            assert_eq!(parse_state, orig_state.advanceTo(1));
        }
        _ => panic!("No match."),
    }
}

#[test]
fn Or_Match_SecondExpr() {
    let orig_state = input_state("a");
    match Or::new(vec![lit(b"b"), lit(b"a")]).apply(&orig_state) {
        Some(ParseResult { nodes, parse_state }) => {
            assert_eq!(nodes[0], leaf(0, 1, b"a"));
            assert_eq!(parse_state, orig_state.advanceTo(1));
        }
        _ => panic!("No match."),
    }
}

#[test]
fn Or_Match_FirstExprIfBoth() {
    let orig_state = input_state("a");
    match Or::new(vec![lit(b"a"), lit(b"a")]).apply(&orig_state) {
        Some(ParseResult { nodes, parse_state }) => {
            assert_eq!(nodes[0], leaf(0, 1, b"a"));
            assert_eq!(parse_state, orig_state.advanceTo(1));
        }
        _ => panic!("No match."),
    }
}

#[test]
fn Or_NoMatch() {
    assert!(Or::new(vec![lit(b"b"), lit(b"c")]).apply(&input_state("a")).is_none())
}

#[test]
fn Sequence_Match() {
    let orig_state = input_state("ab");
    match Sequence::new(vec![lit(b"a"), lit(b"b")]).apply(&orig_state) {
        Some(ParseResult { nodes, parse_state }) => {
            assert_eq!(nodes[0], leaf(0, 1, b"a"));
            assert_eq!(nodes[1], leaf(1, 2, b"b"));
            assert_eq!(parse_state, orig_state.advanceTo(2));
        }
        _ => panic!("No match."),
    }
}

#[test]
fn Sequence_NoMatch() {
    assert!(Sequence::new(vec![lit(b"a"), lit(b"b")]).apply(&input_state("aa")).is_none());
}

#[test]
fn Fuse_Match_WithLiteralStar() {
    let orig_state = input_state("ooo");
    match Fuse::new(Expr::Plus(Plus::new(lit(b"o")))).apply(&orig_state) {
        Some(ParseResult { nodes, parse_state }) => {
            assert_eq!(nodes[0], leaf(0, 3, b"ooo"));
            assert_eq!(parse_state, orig_state.advanceTo(3));
        }
        _ => panic!("No match."),
    }
}

#[test]
fn Fuse_Match_WithCharClass() {
    let orig_state = input_state("abc");
    match Fuse::new(Expr::Plus(Plus::new(class("a-z")))).apply(&orig_state) {
        Some(ParseResult { nodes, parse_state }) => {
            assert_eq!(nodes[0], leaf(0, 3, b"abc"));
            assert_eq!(parse_state, orig_state.advanceTo(3));
        }
        _ => panic!("No match."),
    }
}

#[test]
fn Fuse_NoMatch() {
    assert!(Fuse::new(class("a-z")).apply(&input_state("5")).is_none());
    assert!(Fuse::new(lit(b"x")).apply(&input_state("g")).is_none());
}

#[test]
fn WrapEx_ReturnsSome() {
    assert!(WrapEx::new("R", Expr::Dot(Dot)).apply(&input_state("foo")).is_some());
}
