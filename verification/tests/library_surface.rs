//! Direct exercises of the smaller public pieces: codepoint helpers, the
//! encoder, the string decoder, and the uniform matcher trait.
use nailgun::exprs::{Expression, Literal, Star, Expr};
use nailgun::state::{ParseResult, ParseState};
use nailgun::unescape::{encode_utf8_raw, unescapeString, vecBytes};
use nailgun::unicode::{bytesFollowing, isAscii};

#[test]
fn isAscii_splits_at_128() {
    assert!(isAscii(0));
    assert!(isAscii(0x7F));
    assert!(!isAscii(0x80));
    assert!(!isAscii(0xFF));
}

#[test]
fn bytesFollowing_reads_lead_bytes() {
    assert_eq!(bytesFollowing(b'a'), Some(0));
    assert_eq!(bytesFollowing(0xC2), Some(1));
    assert_eq!(bytesFollowing(0xE2), Some(2));
    assert_eq!(bytesFollowing(0xF0), Some(3));
    assert_eq!(bytesFollowing(0x80), None);
    assert_eq!(bytesFollowing(0xFF), None);
}

#[test]
fn encode_utf8_raw_writes_each_width() {
    assert_eq!(encode_utf8_raw('a' as u32), b"a".to_vec());
    assert_eq!(encode_utf8_raw('¢' as u32), "¢".as_bytes().to_vec());
    assert_eq!(encode_utf8_raw('€' as u32), "€".as_bytes().to_vec());
    assert_eq!(encode_utf8_raw('𤭢' as u32), "𤭢".as_bytes().to_vec());
}

#[test]
fn unescapeString_decodes_text() {
    assert_eq!(unescapeString("a\\tb"), vecBytes("a\tb"));
    assert_eq!(unescapeString("\\u0106"), vecBytes("Ć"));
}

fn applies<E: Expression>(matcher: &E, input: &'static str) -> bool {
    matcher.apply(&ParseState { input: input.as_bytes(), offset: 0 }).is_some()
}

#[test]
fn expression_trait_gives_a_uniform_apply() {
    let word = Literal::new(b"ab");
    assert!(applies(&word, "abc"));
    assert!(!applies(&word, "xyz"));
    let rep = Star::new(Expr::Literal(Literal::new(b"x")));
    assert!(applies(&rep, ""));
    match Expression::apply(&rep, &ParseState { input: b"xx", offset: 0 }) {
        Some(ParseResult { nodes, parse_state }) => {
            assert_eq!(nodes.len(), 2);
            assert_eq!(parse_state.offset, 2);
        }
        None => panic!("Star must succeed."),
    }
}
