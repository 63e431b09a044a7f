use nailgun::peg;
use nailgun::state::{ParseResult, ParseState};

type Rule = for<'a> fn(&ParseState<'a>) -> Option<ParseResult<'a>>;

fn consumes(rule: Rule, input: &str) -> bool {
    let st = ParseState { input: input.as_bytes(), offset: 0 };
    match rule(&st) {
        Some(ParseResult { nodes: _, parse_state }) => parse_state.input.is_empty(),
        _ => false,
    }
}

fn matches(rule: Rule, input: &str) -> bool {
    let st = ParseState { input: input.as_bytes(), offset: 0 };
    rule(&st).is_some()
}

#[test]
fn Grammar_Works() {
    assert!(consumes(
        peg::Grammar,
        r#"
        h16           <- HEXDIGIT (HEXDIGIT (HEXDIGIT HEXDIGIT?)?)?
        ls32          <- h16 ":" h16 / IPv4address
        IPv4address   <- dec_octet "." dec_octet "." dec_octet "." dec_octet"#
    ))
}

#[test]
fn Definition_Works() {
    assert!(consumes(peg::Definition, "Grammar <- Spacing Definition+ EndOfFile"));
    assert!(consumes(
        peg::Definition,
        r#"Char <- '\\' [nrt'"\[\]\\] /
                  '\\' [0-2][0-7][0-7] /
                  '\\' [0-7][0-7]? /
                  !'\\' ."#
    ))
}

#[test]
fn Identifier_Works() {
    assert!(consumes(peg::Identifier, "abc"));
    assert!(consumes(peg::Identifier, "a"));
    assert!(consumes(peg::Identifier, "_"));
    assert!(consumes(peg::Identifier, "a123"));
    assert!(consumes(peg::Identifier, "a  \n"));

    assert!(!consumes(peg::Identifier, "1a"));
    assert!(!consumes(peg::Identifier, "1"));
    assert!(!consumes(peg::Identifier, "Ć"));
}

#[test]
fn Literal_Works() {
    assert!(consumes(peg::Literal, "'abc'"));
    assert!(consumes(peg::Literal, r#""abc""#));
    assert!(consumes(peg::Literal, "'abc'  \n"));
    assert!(!consumes(peg::Literal, "'abc''bb'"));
}

#[test]
fn Class_Works() {
    assert!(consumes(peg::Class, "[a-z]"));
    assert!(consumes(peg::Class, "[a-z]  \n"));
    assert!(consumes(peg::Class, "[abc]"));
    assert!(consumes(peg::Class, "[abc0-9g]"));
}

#[test]
fn Range_Works() {
    assert!(consumes(peg::Range, "a-z"));
    assert!(consumes(peg::Range, "a"));
}

#[test]
fn Char_Works() {
    assert!(consumes(peg::Char, r"\n"));
    assert!(consumes(peg::Char, r"\]"));
    assert!(consumes(peg::Char, r"\\"));
    assert!(consumes(peg::Char, r"\'"));
    assert!(consumes(peg::Char, "a"));
    assert!(consumes(peg::Char, "x"));
    assert!(consumes(peg::Char, "Ć"));
    assert!(consumes(peg::Char, "€"));
    assert!(consumes(peg::Char, r"\277"));
    assert!(consumes(peg::Char, r"\77"));
    assert!(consumes(peg::Char, r"\7"));

    assert!(!consumes(peg::Char, "aa"));
}

#[test]
fn Spacing_Works() {
    assert!(consumes(peg::Spacing, "  \t #g\n"));
    assert!(consumes(peg::Spacing, "#a\n  #1\n"));

    // Spacing DOES match here because at the top level, it is a star
    // expression which can match consuming nothing.
    assert!(matches(peg::Spacing, ""));
    assert!(!consumes(peg::Spacing, "#"));
    assert!(!consumes(peg::Spacing, "a"));
}

#[test]
fn Comment_Works() {
    assert!(consumes(peg::Comment, "#\n"));
    assert!(consumes(peg::Comment, "# foo! \n"));
    assert!(!matches(peg::Comment, "\n"));
    assert!(!matches(peg::Comment, "#"));
    assert!(!matches(peg::Comment, "a"));
}

#[test]
fn Space_Works() {
    assert!(consumes(peg::Space, " "));
    assert!(consumes(peg::Space, "\t"));
    assert!(consumes(peg::Space, "\n"));
    assert!(!matches(peg::Space, "a"));
}

#[test]
fn EndOfLine_Works() {
    assert!(consumes(peg::EndOfLine, "\n"));
    assert!(consumes(peg::EndOfLine, "\r"));
    assert!(consumes(peg::EndOfLine, "\r\n"));
    assert!(!matches(peg::EndOfLine, "a"));
}

#[test]
fn EndOfFile_Works() {
    assert!(consumes(peg::EndOfFile, ""));
    assert!(!matches(peg::EndOfFile, "a"));
}
