//! End-to-end scenarios: boundary cases of the primitives, small grammars
//! run against inputs through hand-built matcher values, whole-grammar
//! parses, and the emitter's output on parsed grammars.
use nailgun::exprs::{CharClass, Dot, Expr, Literal, NotEx, Plus, Sequence, Star, WrapEx};
use nailgun::generator::{codeForNode, nameOfFirstRule};
use nailgun::node::{Node, NodeContents};
use nailgun::peg::parse;
use nailgun::state::{ParseResult, ParseState};
use nailgun::unescape::{escapeLiteral, unescape};

fn input_state(text: &'static str) -> ParseState<'static> {
    ParseState { input: text.as_bytes(), offset: 0 }
}

fn lit(text: &'static [u8]) -> Expr {
    Expr::Literal(Literal::new(text))
}

fn class(contents: &'static str) -> Expr {
    Expr::CharClass(CharClass::new(contents.as_bytes()))
}

fn leaf(start: usize, end: usize, data: &[u8]) -> Node {
    Node::withoutName(start, end, NodeContents::Data(data.to_vec()))
}

#[test]
fn empty_input_dot_fails_star_and_empty_literal_succeed() {
    // Dot fails on empty input.
    assert!(Dot.apply(&input_state("")).is_none());
    // Star of anything succeeds with zero nodes.
    match Star::new(lit(b"x")).apply(&input_state("")) {
        Some(ParseResult { nodes, parse_state }) => {
            assert!(nodes.is_empty());
            assert_eq!(parse_state.offset, 0);
        }
        _ => panic!("Star must succeed."),
    }
    // The empty literal succeeds consuming nothing.
    match Literal::new(b"").apply(&input_state("")) {
        Some(ParseResult { nodes, parse_state }) => {
            assert_eq!(nodes[0], leaf(0, 0, b""));
            assert_eq!(parse_state.offset, 0);
        }
        _ => panic!("Empty literal must succeed."),
    }
}

#[test]
fn star_of_zero_width_match_yields_zero_nodes() {
    // A repetition whose inner matcher succeeds without consuming ends at
    // once and contributes nothing, so the repetition stays finite.
    match Star::new(lit(b"")).apply(&input_state("abc")) {
        Some(ParseResult { nodes, parse_state }) => {
            assert!(nodes.is_empty());
            assert_eq!(parse_state.offset, 0);
        }
        _ => panic!("Star must succeed."),
    }
}

#[test]
fn dot_consumes_three_bytes_of_wide_char() {
    match Dot.apply(&input_state("葉")) {
        Some(ParseResult { nodes, .. }) => {
            assert_eq!(nodes[0].end - nodes[0].start, 3);
        }
        _ => panic!("No match!"),
    }
}

#[test]
fn greek_range_matches_eta() {
    let cc = CharClass::new("α-ω".as_bytes());
    assert!(cc.apply(&ParseState { input: "η".as_bytes(), offset: 0 }).is_some());
}

#[test]
fn dash_edges_match_dash_as_singleton() {
    assert!(CharClass::new(b"-a").apply(&input_state("-")).is_some());
    assert!(CharClass::new(b"a-").apply(&input_state("-")).is_some());
}

#[test]
fn degenerate_range_matches_nothing() {
    let cc = CharClass::new(b"z-a");
    for b in b'a'..=b'z' {
        let input = [b];
        assert!(cc.apply(&ParseState { input: &input, offset: 0 }).is_none());
    }
}

#[test]
fn scenario_single_literal_rule() {
    // S <- "foo" applied to "foo".
    let s = WrapEx::new("S", lit(b"foo"));
    match s.apply(&input_state("foo")) {
        Some(ParseResult { nodes, .. }) => {
            assert_eq!(nodes.len(), 1);
            let root = &nodes[0];
            assert_eq!(root.name, "S");
            assert_eq!(root.start, 0);
            assert_eq!(root.end, 3);
            assert_eq!(root.contents, NodeContents::Data(b"foo".to_vec()));
        }
        _ => panic!("No match."),
    }
}

#[test]
fn scenario_plus_of_class_rule() {
    // S <- [a-z]+ applied to "abc": three one-byte leaves.
    let s = WrapEx::new("S", Expr::Plus(Plus::new(class("a-z"))));
    match s.apply(&input_state("abc")) {
        Some(ParseResult { nodes, .. }) => {
            let root = &nodes[0];
            assert_eq!(root.name, "S");
            match &root.contents {
                NodeContents::Children(c) => {
                    assert_eq!(c.len(), 3);
                    assert_eq!(c[0], leaf(0, 1, b"a"));
                    assert_eq!(c[1], leaf(1, 2, b"b"));
                    assert_eq!(c[2], leaf(2, 3, b"c"));
                }
                _ => panic!("Expected children."),
            }
        }
        _ => panic!("No match."),
    }
}

#[test]
fn scenario_not_predicate_then_dot() {
    // S <- !"x" . applied to "y".
    let s = WrapEx::new(
        "S",
        Expr::Sequence(Sequence::new(vec![Expr::NotEx(NotEx::new(lit(b"x"))), Expr::Dot(Dot)])),
    );
    match s.apply(&input_state("y")) {
        Some(ParseResult { nodes, .. }) => {
            let root = &nodes[0];
            assert_eq!(root.name, "S");
            assert_eq!((root.start, root.end), (0, 1));
            assert_eq!(root.contents, NodeContents::Data(b"y".to_vec()));
        }
        _ => panic!("No match."),
    }
    assert!(s.apply(&input_state("x")).is_none());
}

#[test]
fn scenario_fused_rule_single_leaf() {
    // S <~ [a-z]+ applied to "abc": one fused leaf.
    let s = WrapEx::new(
        "S",
        Expr::Fuse(nailgun::exprs::Fuse::new(Expr::Plus(Plus::new(class("a-z"))))),
    );
    match s.apply(&input_state("abc")) {
        Some(ParseResult { nodes, .. }) => {
            let root = &nodes[0];
            assert_eq!(root.name, "S");
            assert_eq!((root.start, root.end), (0, 3));
            assert_eq!(root.contents, NodeContents::Data(b"abc".to_vec()));
        }
        _ => panic!("No match."),
    }
}

#[test]
fn scenario_ordered_choice() {
    // S <- "a" / "b" applied to "b".
    let s = WrapEx::new("S", Expr::Or(nailgun::exprs::Or::new(vec![lit(b"a"), lit(b"b")])));
    match s.apply(&input_state("b")) {
        Some(ParseResult { nodes, .. }) => {
            let root = &nodes[0];
            assert_eq!(root.name, "S");
            assert_eq!((root.start, root.end), (0, 1));
            assert_eq!(root.contents, NodeContents::Data(b"b".to_vec()));
        }
        _ => panic!("No match."),
    }
}

#[test]
fn scenario_rule_reference() {
    // S <- A; A <- "x" applied to "x": the S node wraps the named A node.
    let s = WrapEx::new("S", Expr::WrapEx(WrapEx::new("A", lit(b"x"))));
    match s.apply(&input_state("x")) {
        Some(ParseResult { nodes, .. }) => {
            let root = &nodes[0];
            assert_eq!(root.name, "S");
            match &root.contents {
                NodeContents::Children(c) => {
                    assert_eq!(c.len(), 1);
                    assert_eq!(c[0].name, "A");
                    assert_eq!(c[0].contents, NodeContents::Data(b"x".to_vec()));
                }
                _ => panic!("Expected the named inner node."),
            }
        }
        _ => panic!("No match."),
    }
}

#[test]
fn parse_accepts_a_simple_grammar() {
    let root = parse(b"S <- 'a'\n").expect("grammar must parse");
    assert_eq!(root.name, "Grammar");
    assert_eq!(root.matchedData(), b"S <- 'a'\n".to_vec());
}

#[test]
fn parse_rejects_garbage() {
    assert!(parse(b"123").is_none());
    // A grammar must consume the whole input; trailing garbage that is no
    // definition fails the end-of-file predicate.
    assert!(parse(b"S <- 'a' %%%").is_none());
}

#[test]
fn parse_rejects_empty_input() {
    assert!(parse(b"").is_none());
}

#[test]
fn emitter_writes_rule_for_simple_definition() {
    let root = parse(b"S <- 'a'\n").expect("grammar must parse");
    let code = codeForNode(&root);
    assert_eq!(String::from_utf8(code).unwrap(), "rule!( S <- lit!( \"a\" ) );\n");
}

#[test]
fn emitter_writes_choice_and_sequence() {
    let root = parse(b"S <- 'a' 'b' / 'c'\n").expect("grammar must parse");
    let code = String::from_utf8(codeForNode(&root)).unwrap();
    assert_eq!(
        code,
        "rule!( S <- or!( seq!( lit!( \"a\" ), lit!( \"b\" ) ), lit!( \"c\" ) ) );\n"
    );
}

#[test]
fn emitter_writes_fused_rule() {
    let root = parse(b"S <~ 'a'\n").expect("grammar must parse");
    let code = String::from_utf8(codeForNode(&root)).unwrap();
    assert_eq!(code, "rule!( S <- fuse!( lit!( \"a\" ) ) );\n");
}

#[test]
fn emitter_writes_operators_and_predicates() {
    let root = parse(b"S <- !'a' .* &'b' C? C+\nC <- 'c'\n").expect("grammar must parse");
    let code = String::from_utf8(codeForNode(&root)).unwrap();
    assert_eq!(
        code,
        "rule!( S <- seq!( not!( lit!( \"a\" ) ), star!( &base::Dot ), and!( lit!( \"b\" ) ), opt!( ex!( C ) ), plus!( ex!( C ) ) ) );\nrule!( C <- lit!( \"c\" ) );\n"
    );
}

#[test]
fn emitter_unescapes_class_bracket_escapes() {
    let root = parse(b"S <- [\\[\\]]\n").expect("grammar must parse");
    let code = String::from_utf8(codeForNode(&root)).unwrap();
    assert_eq!(code, "rule!( S <- class!( \"[]\" ) );\n");
}

#[test]
fn escape_decoder_inverts_reescaper_on_samples() {
    let samples: Vec<Vec<u8>> = vec![
        b"plain".to_vec(),
        b"tabs\tand\nlines\r".to_vec(),
        b"a\\b\"c".to_vec(),
        vec![0, 1, 2, 92, 92, 255],
    ];
    for s in samples {
        let escaped = escapeLiteral(&s);
        assert_eq!(unescape(&escaped), s);
    }
}

#[test]
fn meta_grammar_parses_its_own_text_and_reemits_every_rule() {
    // The meta-grammar, written in its own language.
    let meta = br#"Grammar <- Spacing Definition+ EndOfFile
Definition <- Identifier ARROW Expression
Expression <- Sequence (SLASH Sequence)*
Sequence <- Prefix*
Prefix <- (AND / NOT / FUSE)? Suffix
Suffix <- Primary (QUESTION / STAR / PLUS)?
Primary <- Identifier !ARROW / OPEN Expression CLOSE / Literal / Class / DOT
Identifier <~ IdentStart IdentCont*
IdentStart <- [a-zA-Z_]
IdentCont <- IdentStart / [0-9]
Literal <- ['] (!['] Char)* ['] Spacing / ["] (!["] Char)* ["] Spacing
Class <- '[' (!']' Range)* ']' Spacing
Range <- Char '-' Char / Char
Char <- '\\' [nrt'"\[\]\\] / '\\' [0-2][0-7][0-7] / '\\' [0-7][0-7]? / !'\\' .
ARROW <- FUSEARROW / LEFTARROW
LEFTARROW <- '<-' Spacing
FUSEARROW <- '<~' Spacing
SLASH <- '/' Spacing
AND <- '&' Spacing
NOT <- '!' Spacing
QUESTION <- '?' Spacing
STAR <- '*' Spacing
PLUS <- '+' Spacing
OPEN <- '(' Spacing
CLOSE <- ')' Spacing
DOT <- '.' Spacing
FUSE <- '~' Spacing
Spacing <~ (Space / Comment)*
Comment <~ '#' (!EndOfLine .)* EndOfLine
Space <- ' ' / '\t' / EndOfLine
EndOfLine <- '\r\n' / '\n' / '\r'
EndOfFile <- !.
"#;
    let root = parse(meta).expect("the meta-grammar must parse its own text");
    assert_eq!(root.name, "Grammar");
    let code = String::from_utf8(codeForNode(&root)).unwrap();
    // The emitter writes one rule declaration per definition, keeping the
    // definitions' order and names.
    assert_eq!(code.matches("rule!( ").count(), 32);
    assert!(code.starts_with("rule!( Grammar <- "));
    assert!(code.contains("rule!( Definition <- "));
    assert!(code.contains("rule!( EndOfFile <- not!( &base::Dot ) );\n"));
}

#[test]
fn format_dumps_one_node_per_line() {
    // A single anonymous child collapses into the named wrapper; two
    // children keep the tree shape.
    let root = Node::withChildren("a", vec![leaf(0, 2, b"hi"), leaf(2, 3, b"!")]);
    let dump = String::from_utf8(root.format(0)).unwrap();
    assert_eq!(dump, "a [0, 3>\n <none> [0, 2>: \"hi\"\n <none> [2, 3>: \"!\"\n");

    let collapsed = Node::withChildren("a", vec![leaf(0, 2, b"hi")]);
    let dump2 = String::from_utf8(collapsed.format(0)).unwrap();
    assert_eq!(dump2, "a [0, 2>: \"hi\"\n");
}

#[test]
fn name_of_first_rule_is_the_entry_point() {
    let root = parse(b"Start <- 'a'\nB <- 'b'\n").expect("grammar must parse");
    assert_eq!(nameOfFirstRule(&root), Some(b"Start".to_vec()));
}

#[test]
fn emitter_keeps_undecodable_octal_escape() {
    // An octal escape above one byte would stop the decoder; the emitter
    // passes such contents through undecoded instead.
    let root = parse(b"S <- '\\400'\n").expect("grammar must parse");
    let code = String::from_utf8(codeForNode(&root)).unwrap();
    assert_eq!(code, "rule!( S <- lit!( \"\\\\400\" ) );\n");
}
