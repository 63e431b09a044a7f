//! The meta-grammar: the PEG grammar for PEG itself.
//!
//! The lexical rules are closed compositions of the runtime's matchers and
//! are built as expression values; the structural rules (`Grammar` down to
//! `Primary`) recurse through one another and are written as
//! recursive-descent functions, each proved against a specification mirror
//! of the same shape.  Applying a rule wraps whatever its body produced in
//! a node named after the rule.
use crate::exprs::{
    And, CharClass, Dot, Expr, ExprV, Fuse, Literal, NotEx, OptionEx, Or, Plus, Sequence, Star,
    WrapEx, apply_v, expr_view, exprs_view, lemma_apply_v_ok, lemma_exprs_view_index,
    lemma_exprs_view_len, spec_classOf, spec_toU32s, star_v,
};
use crate::node::{Node, NodeV, nodes_view, wrap_node};
use crate::state::{outcome_view, ParseResult, ParseState, ResultV, StateV};
use vstd::prelude::*;
use vstd::utf8::encode_utf8;

verus! {

broadcast use vstd::std_specs::vec::group_vec_axioms, vstd::seq::group_seq_axioms;

// ===== Builders =====
fn lit(text: &'static str) -> (e: Expr)
    ensures
        expr_view(e) == ExprV::Literal(encode_utf8(text@)),
{
    Expr::Literal(Literal::new(text.as_bytes()))
}

fn cls(contents: &'static str) -> (e: Expr)
    ensures
        expr_view(e) == ExprV::CharClass(spec_classOf(spec_toU32s(encode_utf8(contents@)))),
{
    Expr::CharClass(CharClass::new(contents.as_bytes()))
}

fn dot() -> (e: Expr)
    ensures
        expr_view(e) == ExprV::Dot,
{
    Expr::Dot(Dot)
}

fn not_of(inner: Expr) -> (e: Expr)
    ensures
        expr_view(e) == ExprV::NotEx(Box::new(expr_view(inner))),
{
    Expr::NotEx(NotEx::new(inner))
}

fn opt_of(inner: Expr) -> (e: Expr)
    ensures
        expr_view(e) == ExprV::OptionEx(Box::new(expr_view(inner))),
{
    Expr::OptionEx(OptionEx::new(inner))
}

fn star_of(inner: Expr) -> (e: Expr)
    ensures
        expr_view(e) == ExprV::Star(Box::new(expr_view(inner))),
{
    Expr::Star(Star::new(inner))
}

fn fuse_of(inner: Expr) -> (e: Expr)
    ensures
        expr_view(e) == ExprV::Fuse(Box::new(expr_view(inner))),
{
    Expr::Fuse(Fuse::new(inner))
}

fn wrap_of(name: &'static str, inner: Expr) -> (e: Expr)
    ensures
        expr_view(e) == ExprV::WrapEx(name@, Box::new(expr_view(inner))),
{
    Expr::WrapEx(WrapEx::new(name, inner))
}

fn or2(a: Expr, b: Expr) -> (e: Expr)
    ensures
        expr_view(e) == ExprV::Or(seq![expr_view(a), expr_view(b)]),
{
    let ghost (va, vb) = (expr_view(a), expr_view(b));
    let mut v: Vec<Expr> = Vec::new();
    v.push(a);
    v.push(b);
    let e = Expr::Or(Or::new(v));
    proof {
        lemma_views_of_2(va, vb, e->Or_0.exprs@);
    }
    e
}

fn or3(a: Expr, b: Expr, c: Expr) -> (e: Expr)
    ensures
        expr_view(e) == ExprV::Or(seq![expr_view(a), expr_view(b), expr_view(c)]),
{
    let ghost (va, vb, vc) = (expr_view(a), expr_view(b), expr_view(c));
    let mut v: Vec<Expr> = Vec::new();
    v.push(a);
    v.push(b);
    v.push(c);
    let e = Expr::Or(Or::new(v));
    proof {
        lemma_views_of_3(va, vb, vc, e->Or_0.exprs@);
    }
    e
}

fn or4(a: Expr, b: Expr, c: Expr, d: Expr) -> (e: Expr)
    ensures
        expr_view(e) == ExprV::Or(
            seq![expr_view(a), expr_view(b), expr_view(c), expr_view(d)],
        ),
{
    let ghost (va, vb, vc, vd) = (expr_view(a), expr_view(b), expr_view(c), expr_view(d));
    let mut v: Vec<Expr> = Vec::new();
    v.push(a);
    v.push(b);
    v.push(c);
    v.push(d);
    let e = Expr::Or(Or::new(v));
    proof {
        lemma_views_of_4(va, vb, vc, vd, e->Or_0.exprs@);
    }
    e
}

fn seq2(a: Expr, b: Expr) -> (e: Expr)
    ensures
        expr_view(e) == ExprV::Sequence(seq![expr_view(a), expr_view(b)]),
{
    let ghost (va, vb) = (expr_view(a), expr_view(b));
    let mut v: Vec<Expr> = Vec::new();
    v.push(a);
    v.push(b);
    let e = Expr::Sequence(Sequence::new(v));
    proof {
        lemma_views_of_2(va, vb, e->Sequence_0.exprs@);
    }
    e
}

fn seq3(a: Expr, b: Expr, c: Expr) -> (e: Expr)
    ensures
        expr_view(e) == ExprV::Sequence(seq![expr_view(a), expr_view(b), expr_view(c)]),
{
    let ghost (va, vb, vc) = (expr_view(a), expr_view(b), expr_view(c));
    let mut v: Vec<Expr> = Vec::new();
    v.push(a);
    v.push(b);
    v.push(c);
    let e = Expr::Sequence(Sequence::new(v));
    proof {
        lemma_views_of_3(va, vb, vc, e->Sequence_0.exprs@);
    }
    e
}

fn seq4(a: Expr, b: Expr, c: Expr, d: Expr) -> (e: Expr)
    ensures
        expr_view(e) == ExprV::Sequence(
            seq![expr_view(a), expr_view(b), expr_view(c), expr_view(d)],
        ),
{
    let ghost (va, vb, vc, vd) = (expr_view(a), expr_view(b), expr_view(c), expr_view(d));
    let mut v: Vec<Expr> = Vec::new();
    v.push(a);
    v.push(b);
    v.push(c);
    v.push(d);
    let e = Expr::Sequence(Sequence::new(v));
    proof {
        lemma_views_of_4(va, vb, vc, vd, e->Sequence_0.exprs@);
    }
    e
}

proof fn lemma_views_of_2(va: ExprV, vb: ExprV, s: Seq<Expr>)
    requires
        s.len() == 2,
        expr_view(s[0]) == va,
        expr_view(s[1]) == vb,
    ensures
        exprs_view(s) =~= seq![va, vb],
{
    lemma_exprs_view_len(s);
    lemma_exprs_view_index(s, 0);
    lemma_exprs_view_index(s, 1);
}

proof fn lemma_views_of_3(va: ExprV, vb: ExprV, vc: ExprV, s: Seq<Expr>)
    requires
        s.len() == 3,
        expr_view(s[0]) == va,
        expr_view(s[1]) == vb,
        expr_view(s[2]) == vc,
    ensures
        exprs_view(s) =~= seq![va, vb, vc],
{
    lemma_exprs_view_len(s);
    lemma_exprs_view_index(s, 0);
    lemma_exprs_view_index(s, 1);
    lemma_exprs_view_index(s, 2);
}

proof fn lemma_views_of_4(va: ExprV, vb: ExprV, vc: ExprV, vd: ExprV, s: Seq<Expr>)
    requires
        s.len() == 4,
        expr_view(s[0]) == va,
        expr_view(s[1]) == vb,
        expr_view(s[2]) == vc,
        expr_view(s[3]) == vd,
    ensures
        exprs_view(s) =~= seq![va, vb, vc, vd],
{
    lemma_exprs_view_len(s);
    lemma_exprs_view_index(s, 0);
    lemma_exprs_view_index(s, 1);
    lemma_exprs_view_index(s, 2);
    lemma_exprs_view_index(s, 3);
}


// ===== Helper images =====
/// The image of a literal matcher over a string's bytes.
pub open spec fn lit_v(s: Seq<char>) -> ExprV {
    ExprV::Literal(encode_utf8(s))
}

/// The image of a character-class matcher parsed from a string's bytes.
pub open spec fn cls_v(s: Seq<char>) -> ExprV {
    ExprV::CharClass(spec_classOf(spec_toU32s(encode_utf8(s))))
}

// ===== The lexical rules =====

/// The body of the `EndOfFile` rule.
pub open spec fn end_of_file_body() -> ExprV {
    ExprV::NotEx(Box::new(ExprV::Dot))
}

/// The `EndOfFile` rule in expression position: its body wrapped in a node
/// named after it.
pub open spec fn end_of_file_ref() -> ExprV {
    ExprV::WrapEx("EndOfFile"@, Box::new(end_of_file_body()))
}

fn EndOfFile_expr() -> (e: Expr)
    ensures
        expr_view(e) == end_of_file_ref(),
{
    wrap_of("EndOfFile", not_of(dot()))
}

pub fn EndOfFile<'a>(parse_state: &ParseState<'a>) -> (r: Option<ParseResult<'a>>)
    requires
        parse_state@.wf(),
    ensures
        outcome_view(r) == apply_v(end_of_file_ref(), parse_state@),
        r matches Some(res) ==> res.parse_state@.wf(),
{
    EndOfFile_expr().apply(parse_state)
}


/// The body of the `EndOfLine` rule.
pub open spec fn end_of_line_body() -> ExprV {
    ExprV::Or(seq![lit_v("\r\n"@), lit_v("\n"@), lit_v("\r"@)])
}

/// The `EndOfLine` rule in expression position: its body wrapped in a node
/// named after it.
pub open spec fn end_of_line_ref() -> ExprV {
    ExprV::WrapEx("EndOfLine"@, Box::new(end_of_line_body()))
}

fn EndOfLine_expr() -> (e: Expr)
    ensures
        expr_view(e) == end_of_line_ref(),
{
    wrap_of("EndOfLine", or3(lit("\r\n"), lit("\n"), lit("\r")))
}

pub fn EndOfLine<'a>(parse_state: &ParseState<'a>) -> (r: Option<ParseResult<'a>>)
    requires
        parse_state@.wf(),
    ensures
        outcome_view(r) == apply_v(end_of_line_ref(), parse_state@),
        r matches Some(res) ==> res.parse_state@.wf(),
{
    EndOfLine_expr().apply(parse_state)
}


/// The body of the `Space` rule.
pub open spec fn space_body() -> ExprV {
    ExprV::Or(seq![lit_v(" "@), lit_v("\t"@), end_of_line_ref()])
}

/// The `Space` rule in expression position: its body wrapped in a node
/// named after it.
pub open spec fn space_ref() -> ExprV {
    ExprV::WrapEx("Space"@, Box::new(space_body()))
}

fn Space_expr() -> (e: Expr)
    ensures
        expr_view(e) == space_ref(),
{
    wrap_of("Space", or3(lit(" "), lit("\t"), EndOfLine_expr()))
}

pub fn Space<'a>(parse_state: &ParseState<'a>) -> (r: Option<ParseResult<'a>>)
    requires
        parse_state@.wf(),
    ensures
        outcome_view(r) == apply_v(space_ref(), parse_state@),
        r matches Some(res) ==> res.parse_state@.wf(),
{
    Space_expr().apply(parse_state)
}


/// The body of the `Comment` rule.
pub open spec fn comment_body() -> ExprV {
    ExprV::Fuse(Box::new(ExprV::Sequence(seq![lit_v("#"@), ExprV::Star(Box::new(ExprV::Sequence(seq![ExprV::NotEx(Box::new(end_of_line_ref())), ExprV::Dot]))), end_of_line_ref()])))
}

/// The `Comment` rule in expression position: its body wrapped in a node
/// named after it.
pub open spec fn comment_ref() -> ExprV {
    ExprV::WrapEx("Comment"@, Box::new(comment_body()))
}

fn Comment_expr() -> (e: Expr)
    ensures
        expr_view(e) == comment_ref(),
{
    wrap_of("Comment", fuse_of(seq3(lit("#"), star_of(seq2(not_of(EndOfLine_expr()), dot())), EndOfLine_expr())))
}

pub fn Comment<'a>(parse_state: &ParseState<'a>) -> (r: Option<ParseResult<'a>>)
    requires
        parse_state@.wf(),
    ensures
        outcome_view(r) == apply_v(comment_ref(), parse_state@),
        r matches Some(res) ==> res.parse_state@.wf(),
{
    Comment_expr().apply(parse_state)
}


/// The body of the `Spacing` rule.
pub open spec fn spacing_body() -> ExprV {
    ExprV::Fuse(Box::new(ExprV::Star(Box::new(ExprV::Or(seq![space_ref(), comment_ref()])))))
}

/// The `Spacing` rule in expression position: its body wrapped in a node
/// named after it.
pub open spec fn spacing_ref() -> ExprV {
    ExprV::WrapEx("Spacing"@, Box::new(spacing_body()))
}

fn Spacing_expr() -> (e: Expr)
    ensures
        expr_view(e) == spacing_ref(),
{
    wrap_of("Spacing", fuse_of(star_of(or2(Space_expr(), Comment_expr()))))
}

pub fn Spacing<'a>(parse_state: &ParseState<'a>) -> (r: Option<ParseResult<'a>>)
    requires
        parse_state@.wf(),
    ensures
        outcome_view(r) == apply_v(spacing_ref(), parse_state@),
        r matches Some(res) ==> res.parse_state@.wf(),
{
    Spacing_expr().apply(parse_state)
}


/// The body of the `LEFTARROW` rule.
pub open spec fn leftarrow_body() -> ExprV {
    ExprV::Sequence(seq![lit_v("<-"@), spacing_ref()])
}

/// The `LEFTARROW` rule in expression position: its body wrapped in a node
/// named after it.
pub open spec fn leftarrow_ref() -> ExprV {
    ExprV::WrapEx("LEFTARROW"@, Box::new(leftarrow_body()))
}

fn LEFTARROW_expr() -> (e: Expr)
    ensures
        expr_view(e) == leftarrow_ref(),
{
    wrap_of("LEFTARROW", seq2(lit("<-"), Spacing_expr()))
}

pub fn LEFTARROW<'a>(parse_state: &ParseState<'a>) -> (r: Option<ParseResult<'a>>)
    requires
        parse_state@.wf(),
    ensures
        outcome_view(r) == apply_v(leftarrow_ref(), parse_state@),
        r matches Some(res) ==> res.parse_state@.wf(),
{
    LEFTARROW_expr().apply(parse_state)
}


/// The body of the `FUSEARROW` rule.
pub open spec fn fusearrow_body() -> ExprV {
    ExprV::Sequence(seq![lit_v("<~"@), spacing_ref()])
}

/// The `FUSEARROW` rule in expression position: its body wrapped in a node
/// named after it.
pub open spec fn fusearrow_ref() -> ExprV {
    ExprV::WrapEx("FUSEARROW"@, Box::new(fusearrow_body()))
}

fn FUSEARROW_expr() -> (e: Expr)
    ensures
        expr_view(e) == fusearrow_ref(),
{
    wrap_of("FUSEARROW", seq2(lit("<~"), Spacing_expr()))
}

pub fn FUSEARROW<'a>(parse_state: &ParseState<'a>) -> (r: Option<ParseResult<'a>>)
    requires
        parse_state@.wf(),
    ensures
        outcome_view(r) == apply_v(fusearrow_ref(), parse_state@),
        r matches Some(res) ==> res.parse_state@.wf(),
{
    FUSEARROW_expr().apply(parse_state)
}


/// The body of the `ARROW` rule.
pub open spec fn arrow_body() -> ExprV {
    ExprV::Or(seq![fusearrow_ref(), leftarrow_ref()])
}

/// The `ARROW` rule in expression position: its body wrapped in a node
/// named after it.
pub open spec fn arrow_ref() -> ExprV {
    ExprV::WrapEx("ARROW"@, Box::new(arrow_body()))
}

fn ARROW_expr() -> (e: Expr)
    ensures
        expr_view(e) == arrow_ref(),
{
    wrap_of("ARROW", or2(FUSEARROW_expr(), LEFTARROW_expr()))
}

pub fn ARROW<'a>(parse_state: &ParseState<'a>) -> (r: Option<ParseResult<'a>>)
    requires
        parse_state@.wf(),
    ensures
        outcome_view(r) == apply_v(arrow_ref(), parse_state@),
        r matches Some(res) ==> res.parse_state@.wf(),
{
    ARROW_expr().apply(parse_state)
}


/// The body of the `SLASH` rule.
pub open spec fn slash_body() -> ExprV {
    ExprV::Sequence(seq![lit_v("/"@), spacing_ref()])
}

/// The `SLASH` rule in expression position: its body wrapped in a node
/// named after it.
pub open spec fn slash_ref() -> ExprV {
    ExprV::WrapEx("SLASH"@, Box::new(slash_body()))
}

fn SLASH_expr() -> (e: Expr)
    ensures
        expr_view(e) == slash_ref(),
{
    wrap_of("SLASH", seq2(lit("/"), Spacing_expr()))
}

pub fn SLASH<'a>(parse_state: &ParseState<'a>) -> (r: Option<ParseResult<'a>>)
    requires
        parse_state@.wf(),
    ensures
        outcome_view(r) == apply_v(slash_ref(), parse_state@),
        r matches Some(res) ==> res.parse_state@.wf(),
{
    SLASH_expr().apply(parse_state)
}


/// The body of the `AND` rule.
pub open spec fn and_body() -> ExprV {
    ExprV::Sequence(seq![lit_v("&"@), spacing_ref()])
}

/// The `AND` rule in expression position: its body wrapped in a node
/// named after it.
pub open spec fn and_ref() -> ExprV {
    ExprV::WrapEx("AND"@, Box::new(and_body()))
}

fn AND_expr() -> (e: Expr)
    ensures
        expr_view(e) == and_ref(),
{
    wrap_of("AND", seq2(lit("&"), Spacing_expr()))
}

pub fn AND<'a>(parse_state: &ParseState<'a>) -> (r: Option<ParseResult<'a>>)
    requires
        parse_state@.wf(),
    ensures
        outcome_view(r) == apply_v(and_ref(), parse_state@),
        r matches Some(res) ==> res.parse_state@.wf(),
{
    AND_expr().apply(parse_state)
}


/// The body of the `NOT` rule.
pub open spec fn not_body() -> ExprV {
    ExprV::Sequence(seq![lit_v("!"@), spacing_ref()])
}

/// The `NOT` rule in expression position: its body wrapped in a node
/// named after it.
pub open spec fn not_ref() -> ExprV {
    ExprV::WrapEx("NOT"@, Box::new(not_body()))
}

fn NOT_expr() -> (e: Expr)
    ensures
        expr_view(e) == not_ref(),
{
    wrap_of("NOT", seq2(lit("!"), Spacing_expr()))
}

pub fn NOT<'a>(parse_state: &ParseState<'a>) -> (r: Option<ParseResult<'a>>)
    requires
        parse_state@.wf(),
    ensures
        outcome_view(r) == apply_v(not_ref(), parse_state@),
        r matches Some(res) ==> res.parse_state@.wf(),
{
    NOT_expr().apply(parse_state)
}


/// The body of the `QUESTION` rule.
pub open spec fn question_body() -> ExprV {
    ExprV::Sequence(seq![lit_v("?"@), spacing_ref()])
}

/// The `QUESTION` rule in expression position: its body wrapped in a node
/// named after it.
pub open spec fn question_ref() -> ExprV {
    ExprV::WrapEx("QUESTION"@, Box::new(question_body()))
}

fn QUESTION_expr() -> (e: Expr)
    ensures
        expr_view(e) == question_ref(),
{
    wrap_of("QUESTION", seq2(lit("?"), Spacing_expr()))
}

pub fn QUESTION<'a>(parse_state: &ParseState<'a>) -> (r: Option<ParseResult<'a>>)
    requires
        parse_state@.wf(),
    ensures
        outcome_view(r) == apply_v(question_ref(), parse_state@),
        r matches Some(res) ==> res.parse_state@.wf(),
{
    QUESTION_expr().apply(parse_state)
}


/// The body of the `STAR` rule.
pub open spec fn star_body() -> ExprV {
    ExprV::Sequence(seq![lit_v("*"@), spacing_ref()])
}

/// The `STAR` rule in expression position: its body wrapped in a node
/// named after it.
pub open spec fn star_ref() -> ExprV {
    ExprV::WrapEx("STAR"@, Box::new(star_body()))
}

fn STAR_expr() -> (e: Expr)
    ensures
        expr_view(e) == star_ref(),
{
    wrap_of("STAR", seq2(lit("*"), Spacing_expr()))
}

pub fn STAR<'a>(parse_state: &ParseState<'a>) -> (r: Option<ParseResult<'a>>)
    requires
        parse_state@.wf(),
    ensures
        outcome_view(r) == apply_v(star_ref(), parse_state@),
        r matches Some(res) ==> res.parse_state@.wf(),
{
    STAR_expr().apply(parse_state)
}


/// The body of the `PLUS` rule.
pub open spec fn plus_body() -> ExprV {
    ExprV::Sequence(seq![lit_v("+"@), spacing_ref()])
}

/// The `PLUS` rule in expression position: its body wrapped in a node
/// named after it.
pub open spec fn plus_ref() -> ExprV {
    ExprV::WrapEx("PLUS"@, Box::new(plus_body()))
}

fn PLUS_expr() -> (e: Expr)
    ensures
        expr_view(e) == plus_ref(),
{
    wrap_of("PLUS", seq2(lit("+"), Spacing_expr()))
}

pub fn PLUS<'a>(parse_state: &ParseState<'a>) -> (r: Option<ParseResult<'a>>)
    requires
        parse_state@.wf(),
    ensures
        outcome_view(r) == apply_v(plus_ref(), parse_state@),
        r matches Some(res) ==> res.parse_state@.wf(),
{
    PLUS_expr().apply(parse_state)
}


/// The body of the `OPEN` rule.
pub open spec fn open_body() -> ExprV {
    ExprV::Sequence(seq![lit_v("("@), spacing_ref()])
}

/// The `OPEN` rule in expression position: its body wrapped in a node
/// named after it.
pub open spec fn open_ref() -> ExprV {
    ExprV::WrapEx("OPEN"@, Box::new(open_body()))
}

fn OPEN_expr() -> (e: Expr)
    ensures
        expr_view(e) == open_ref(),
{
    wrap_of("OPEN", seq2(lit("("), Spacing_expr()))
}

pub fn OPEN<'a>(parse_state: &ParseState<'a>) -> (r: Option<ParseResult<'a>>)
    requires
        parse_state@.wf(),
    ensures
        outcome_view(r) == apply_v(open_ref(), parse_state@),
        r matches Some(res) ==> res.parse_state@.wf(),
{
    OPEN_expr().apply(parse_state)
}


/// The body of the `CLOSE` rule.
pub open spec fn close_body() -> ExprV {
    ExprV::Sequence(seq![lit_v(")"@), spacing_ref()])
}

/// The `CLOSE` rule in expression position: its body wrapped in a node
/// named after it.
pub open spec fn close_ref() -> ExprV {
    ExprV::WrapEx("CLOSE"@, Box::new(close_body()))
}

fn CLOSE_expr() -> (e: Expr)
    ensures
        expr_view(e) == close_ref(),
{
    wrap_of("CLOSE", seq2(lit(")"), Spacing_expr()))
}

pub fn CLOSE<'a>(parse_state: &ParseState<'a>) -> (r: Option<ParseResult<'a>>)
    requires
        parse_state@.wf(),
    ensures
        outcome_view(r) == apply_v(close_ref(), parse_state@),
        r matches Some(res) ==> res.parse_state@.wf(),
{
    CLOSE_expr().apply(parse_state)
}


/// The body of the `DOT` rule.
pub open spec fn dot_body() -> ExprV {
    ExprV::Sequence(seq![lit_v("."@), spacing_ref()])
}

/// The `DOT` rule in expression position: its body wrapped in a node
/// named after it.
pub open spec fn dot_ref() -> ExprV {
    ExprV::WrapEx("DOT"@, Box::new(dot_body()))
}

fn DOT_expr() -> (e: Expr)
    ensures
        expr_view(e) == dot_ref(),
{
    wrap_of("DOT", seq2(lit("."), Spacing_expr()))
}

pub fn DOT<'a>(parse_state: &ParseState<'a>) -> (r: Option<ParseResult<'a>>)
    requires
        parse_state@.wf(),
    ensures
        outcome_view(r) == apply_v(dot_ref(), parse_state@),
        r matches Some(res) ==> res.parse_state@.wf(),
{
    DOT_expr().apply(parse_state)
}


/// The body of the `FUSE` rule.
pub open spec fn fuse_body() -> ExprV {
    ExprV::Sequence(seq![lit_v("~"@), spacing_ref()])
}

/// The `FUSE` rule in expression position: its body wrapped in a node
/// named after it.
pub open spec fn fuse_ref() -> ExprV {
    ExprV::WrapEx("FUSE"@, Box::new(fuse_body()))
}

fn FUSE_expr() -> (e: Expr)
    ensures
        expr_view(e) == fuse_ref(),
{
    wrap_of("FUSE", seq2(lit("~"), Spacing_expr()))
}

pub fn FUSE<'a>(parse_state: &ParseState<'a>) -> (r: Option<ParseResult<'a>>)
    requires
        parse_state@.wf(),
    ensures
        outcome_view(r) == apply_v(fuse_ref(), parse_state@),
        r matches Some(res) ==> res.parse_state@.wf(),
{
    FUSE_expr().apply(parse_state)
}


/// The body of the `IdentStart` rule.
pub open spec fn ident_start_body() -> ExprV {
    cls_v("a-zA-Z_"@)
}

/// The `IdentStart` rule in expression position: its body wrapped in a node
/// named after it.
pub open spec fn ident_start_ref() -> ExprV {
    ExprV::WrapEx("IdentStart"@, Box::new(ident_start_body()))
}

fn IdentStart_expr() -> (e: Expr)
    ensures
        expr_view(e) == ident_start_ref(),
{
    wrap_of("IdentStart", cls("a-zA-Z_"))
}

pub fn IdentStart<'a>(parse_state: &ParseState<'a>) -> (r: Option<ParseResult<'a>>)
    requires
        parse_state@.wf(),
    ensures
        outcome_view(r) == apply_v(ident_start_ref(), parse_state@),
        r matches Some(res) ==> res.parse_state@.wf(),
{
    IdentStart_expr().apply(parse_state)
}


/// The body of the `IdentCont` rule.
pub open spec fn ident_cont_body() -> ExprV {
    ExprV::Or(seq![ident_start_ref(), cls_v("0-9"@)])
}

/// The `IdentCont` rule in expression position: its body wrapped in a node
/// named after it.
pub open spec fn ident_cont_ref() -> ExprV {
    ExprV::WrapEx("IdentCont"@, Box::new(ident_cont_body()))
}

fn IdentCont_expr() -> (e: Expr)
    ensures
        expr_view(e) == ident_cont_ref(),
{
    wrap_of("IdentCont", or2(IdentStart_expr(), cls("0-9")))
}

pub fn IdentCont<'a>(parse_state: &ParseState<'a>) -> (r: Option<ParseResult<'a>>)
    requires
        parse_state@.wf(),
    ensures
        outcome_view(r) == apply_v(ident_cont_ref(), parse_state@),
        r matches Some(res) ==> res.parse_state@.wf(),
{
    IdentCont_expr().apply(parse_state)
}


/// The body of the `Identifier` rule.
pub open spec fn identifier_body() -> ExprV {
    ExprV::Sequence(seq![ExprV::Fuse(Box::new(ExprV::Sequence(seq![ident_start_ref(), ExprV::Star(Box::new(ident_cont_ref()))]))), spacing_ref()])
}

/// The `Identifier` rule in expression position: its body wrapped in a node
/// named after it.
pub open spec fn identifier_ref() -> ExprV {
    ExprV::WrapEx("Identifier"@, Box::new(identifier_body()))
}

fn Identifier_expr() -> (e: Expr)
    ensures
        expr_view(e) == identifier_ref(),
{
    wrap_of("Identifier", seq2(fuse_of(seq2(IdentStart_expr(), star_of(IdentCont_expr()))), Spacing_expr()))
}

pub fn Identifier<'a>(parse_state: &ParseState<'a>) -> (r: Option<ParseResult<'a>>)
    requires
        parse_state@.wf(),
    ensures
        outcome_view(r) == apply_v(identifier_ref(), parse_state@),
        r matches Some(res) ==> res.parse_state@.wf(),
{
    Identifier_expr().apply(parse_state)
}


/// The body of the `Char` rule.
pub open spec fn char_body() -> ExprV {
    ExprV::Or(seq![ExprV::Sequence(seq![lit_v("\\"@), cls_v("nrt'\"[]\\"@)]), ExprV::Sequence(seq![lit_v("\\"@), cls_v("0-2"@), cls_v("0-7"@), cls_v("0-7"@)]), ExprV::Sequence(seq![lit_v("\\"@), cls_v("0-7"@), ExprV::OptionEx(Box::new(cls_v("0-7"@)))]), ExprV::Sequence(seq![ExprV::NotEx(Box::new(lit_v("\\"@))), ExprV::Dot])])
}

/// The `Char` rule in expression position: its body wrapped in a node
/// named after it.
pub open spec fn char_ref() -> ExprV {
    ExprV::WrapEx("Char"@, Box::new(char_body()))
}

fn Char_expr() -> (e: Expr)
    ensures
        expr_view(e) == char_ref(),
{
    wrap_of("Char", or4(seq2(lit("\\"), cls("nrt'\"[]\\")), seq4(lit("\\"), cls("0-2"), cls("0-7"), cls("0-7")), seq3(lit("\\"), cls("0-7"), opt_of(cls("0-7"))), seq2(not_of(lit("\\")), dot())))
}

pub fn Char<'a>(parse_state: &ParseState<'a>) -> (r: Option<ParseResult<'a>>)
    requires
        parse_state@.wf(),
    ensures
        outcome_view(r) == apply_v(char_ref(), parse_state@),
        r matches Some(res) ==> res.parse_state@.wf(),
{
    Char_expr().apply(parse_state)
}


/// The body of the `Range` rule.
pub open spec fn range_body() -> ExprV {
    ExprV::Or(seq![ExprV::Sequence(seq![char_ref(), lit_v("-"@), char_ref()]), char_ref()])
}

/// The `Range` rule in expression position: its body wrapped in a node
/// named after it.
pub open spec fn range_ref() -> ExprV {
    ExprV::WrapEx("Range"@, Box::new(range_body()))
}

fn Range_expr() -> (e: Expr)
    ensures
        expr_view(e) == range_ref(),
{
    wrap_of("Range", or2(seq3(Char_expr(), lit("-"), Char_expr()), Char_expr()))
}

pub fn Range<'a>(parse_state: &ParseState<'a>) -> (r: Option<ParseResult<'a>>)
    requires
        parse_state@.wf(),
    ensures
        outcome_view(r) == apply_v(range_ref(), parse_state@),
        r matches Some(res) ==> res.parse_state@.wf(),
{
    Range_expr().apply(parse_state)
}


/// The body of the `Class` rule.
pub open spec fn class_body() -> ExprV {
    ExprV::Sequence(seq![lit_v("["@), ExprV::Star(Box::new(ExprV::Sequence(seq![ExprV::NotEx(Box::new(lit_v("]"@))), range_ref()]))), lit_v("]"@), spacing_ref()])
}

/// The `Class` rule in expression position: its body wrapped in a node
/// named after it.
pub open spec fn class_ref() -> ExprV {
    ExprV::WrapEx("Class"@, Box::new(class_body()))
}

fn Class_expr() -> (e: Expr)
    ensures
        expr_view(e) == class_ref(),
{
    wrap_of("Class", seq4(lit("["), star_of(seq2(not_of(lit("]")), Range_expr())), lit("]"), Spacing_expr()))
}

pub fn Class<'a>(parse_state: &ParseState<'a>) -> (r: Option<ParseResult<'a>>)
    requires
        parse_state@.wf(),
    ensures
        outcome_view(r) == apply_v(class_ref(), parse_state@),
        r matches Some(res) ==> res.parse_state@.wf(),
{
    Class_expr().apply(parse_state)
}


/// The body of the `Literal` rule.
pub open spec fn literal_body() -> ExprV {
    ExprV::Sequence(seq![ExprV::Fuse(Box::new(ExprV::Or(seq![ExprV::Sequence(seq![cls_v("'"@), ExprV::Star(Box::new(ExprV::Sequence(seq![ExprV::NotEx(Box::new(cls_v("'"@))), char_ref()]))), cls_v("'"@)]), ExprV::Sequence(seq![cls_v("\""@), ExprV::Star(Box::new(ExprV::Sequence(seq![ExprV::NotEx(Box::new(cls_v("\""@))), char_ref()]))), cls_v("\""@)])]))), spacing_ref()])
}

/// The `Literal` rule in expression position: its body wrapped in a node
/// named after it.
pub open spec fn literal_ref() -> ExprV {
    ExprV::WrapEx("Literal"@, Box::new(literal_body()))
}

fn Literal_expr() -> (e: Expr)
    ensures
        expr_view(e) == literal_ref(),
{
    wrap_of("Literal", seq2(fuse_of(or2(seq3(cls("'"), star_of(seq2(not_of(cls("'")), Char_expr())), cls("'")), seq3(cls("\""), star_of(seq2(not_of(cls("\"")), Char_expr())), cls("\"")))), Spacing_expr()))
}

pub fn Literal<'a>(parse_state: &ParseState<'a>) -> (r: Option<ParseResult<'a>>)
    requires
        parse_state@.wf(),
    ensures
        outcome_view(r) == apply_v(literal_ref(), parse_state@),
        r matches Some(res) ==> res.parse_state@.wf(),
{
    Literal_expr().apply(parse_state)
}

// ===== The structural rules =====
/// The result of a named rule: its body's nodes wrapped under the rule's
/// name.
pub open spec fn rule_wrap(name: Seq<char>, r: ResultV) -> ResultV {
    ResultV { nodes: seq![wrap_node(name, r.nodes)], state: r.state }
}

/// What the `Suffix` rule yields: a `Primary`, optionally followed by a
/// repetition operator token.
pub open spec fn suffix_spec(st: StateV) -> Option<ResultV>
    decreases st.input.len(), 1int,
{
    match primary_spec(st) {
        None => None,
        Some(r1) => match apply_v(suffix_tail(), r1.state) {
            None => None,
            Some(r2) => Some(
                rule_wrap(
                    "Suffix"@,
                    ResultV { nodes: r1.nodes + r2.nodes, state: r2.state },
                ),
            ),
        },
    }
}

/// The optional operator after a `Primary`: `?`, `*` or `+`.
pub open spec fn suffix_tail() -> ExprV {
    ExprV::OptionEx(
        Box::new(ExprV::Or(seq![question_ref(), star_ref(), plus_ref()])),
    )
}

/// The optional predicate or fuse sigil before a `Suffix`.
pub open spec fn prefix_head() -> ExprV {
    ExprV::OptionEx(Box::new(ExprV::Or(seq![and_ref(), not_ref(), fuse_ref()])))
}

/// What the `Prefix` rule yields: an optional `&`, `!` or `~` sigil
/// applied to a `Suffix`.
pub open spec fn prefix_spec(st: StateV) -> Option<ResultV>
    decreases st.input.len(), 2int,
{
    match apply_v(prefix_head(), st) {
        None => None,
        Some(r1) => {
            if r1.state.input.len() <= st.input.len() {
                match suffix_spec(r1.state) {
                    None => None,
                    Some(r2) => Some(
                        rule_wrap(
                            "Prefix"@,
                            ResultV { nodes: r1.nodes + r2.nodes, state: r2.state },
                        ),
                    ),
                }
            } else {
                None
            }
        },
    }
}

/// The repetition of `Prefix` under `Sequence`; an iteration that fails
/// or consumes nothing ends it.
pub open spec fn prefix_star(st: StateV) -> ResultV
    decreases st.input.len(), 3int,
{
    match prefix_spec(st) {
        None => ResultV { nodes: Seq::empty(), state: st },
        Some(r) => {
            if r.state.input.len() < st.input.len() {
                let rest = prefix_star(r.state);
                ResultV { nodes: r.nodes + rest.nodes, state: rest.state }
            } else {
                ResultV { nodes: Seq::empty(), state: st }
            }
        },
    }
}

/// What the `Sequence` rule yields: as many `Prefix`es as match, in
/// order.
pub open spec fn sequence_spec(st: StateV) -> Option<ResultV>
    decreases st.input.len(), 4int,
{
    Some(rule_wrap("Sequence"@, prefix_star(st)))
}

/// The repetition of `/`-separated `Sequence`s after the first one.
pub open spec fn expr_tail(st: StateV) -> ResultV
    decreases st.input.len(), 5int,
{
    match apply_v(slash_ref(), st) {
        None => ResultV { nodes: Seq::empty(), state: st },
        Some(r1) => {
            if r1.state.input.len() <= st.input.len() {
                match sequence_spec(r1.state) {
                    None => ResultV { nodes: Seq::empty(), state: st },
                    Some(r2) => {
                        if r2.state.input.len() < st.input.len() {
                            let rest = expr_tail(r2.state);
                            ResultV {
                                nodes: (r1.nodes + r2.nodes) + rest.nodes,
                                state: rest.state,
                            }
                        } else {
                            ResultV { nodes: Seq::empty(), state: st }
                        }
                    },
                }
            } else {
                ResultV { nodes: Seq::empty(), state: st }
            }
        },
    }
}

/// What the `Expression` rule yields: slash-separated `Sequence`s.
pub open spec fn expression_spec(st: StateV) -> Option<ResultV>
    decreases st.input.len(), 6int,
{
    match sequence_spec(st) {
        None => None,
        Some(r1) => {
            if r1.state.input.len() <= st.input.len() {
                let rest = expr_tail(r1.state);
                Some(
                    rule_wrap(
                        "Expression"@,
                        ResultV { nodes: r1.nodes + rest.nodes, state: rest.state },
                    ),
                )
            } else {
                None
            }
        },
    }
}

/// The first `Primary` alternative: an identifier not followed by an
/// arrow, which is a reference to another rule.
pub open spec fn primary_ident_alt() -> ExprV {
    ExprV::Sequence(seq![identifier_ref(), ExprV::NotEx(Box::new(arrow_ref()))])
}

/// What the `Primary` rule yields: a rule reference, a parenthesized
/// expression, a literal, a class, or a dot.
pub open spec fn primary_spec(st: StateV) -> Option<ResultV>
    decreases st.input.len(), 0int,
{
    match apply_v(primary_ident_alt(), st) {
        Some(r) => Some(rule_wrap("Primary"@, r)),
        None => match apply_v(open_ref(), st) {
            Some(r1) => {
                if r1.state.input.len() < st.input.len() {
                    match expression_spec(r1.state) {
                        None => primary_fallback(st),
                        Some(r2) => match apply_v(close_ref(), r2.state) {
                            None => primary_fallback(st),
                            Some(r3) => Some(
                                rule_wrap(
                                    "Primary"@,
                                    ResultV {
                                        nodes: (r1.nodes + r2.nodes) + r3.nodes,
                                        state: r3.state,
                                    },
                                ),
                            ),
                        },
                    }
                } else {
                    primary_fallback(st)
                }
            },
            None => primary_fallback(st),
        },
    }
}

/// The last three `Primary` alternatives: literal, class, dot.
pub open spec fn primary_fallback(st: StateV) -> Option<ResultV> {
    match apply_v(ExprV::Or(seq![literal_ref(), class_ref(), dot_ref()]), st) {
        None => None,
        Some(r) => Some(rule_wrap("Primary"@, r)),
    }
}

/// The repetition of `Definition` under `Grammar`, after the first one.
pub open spec fn defs_star(st: StateV) -> ResultV
    decreases st.input.len(), 8int,
{
    match definition_spec(st) {
        None => ResultV { nodes: Seq::empty(), state: st },
        Some(r) => {
            if r.state.input.len() < st.input.len() {
                let rest = defs_star(r.state);
                ResultV { nodes: r.nodes + rest.nodes, state: rest.state }
            } else {
                ResultV { nodes: Seq::empty(), state: st }
            }
        },
    }
}

/// One or more `Definition`s.
pub open spec fn defs_plus(st: StateV) -> Option<ResultV>
    decreases st.input.len(), 9int,
{
    match definition_spec(st) {
        None => None,
        Some(r) => {
            if r.state.input.len() < st.input.len() {
                let rest = defs_star(r.state);
                Some(ResultV { nodes: r.nodes + rest.nodes, state: rest.state })
            } else {
                Some(r)
            }
        },
    }
}

/// What the `Definition` rule yields: an identifier, an arrow, and the
/// expression it defines.
pub open spec fn definition_spec(st: StateV) -> Option<ResultV>
    decreases st.input.len(), 7int,
{
    match apply_v(identifier_ref(), st) {
        None => None,
        Some(r1) => match apply_v(arrow_ref(), r1.state) {
            None => None,
            Some(r2) => {
                if r2.state.input.len() <= st.input.len() {
                    match expression_spec(r2.state) {
                        None => None,
                        Some(r3) => Some(
                            rule_wrap(
                                "Definition"@,
                                ResultV {
                                    nodes: (r1.nodes + r2.nodes) + r3.nodes,
                                    state: r3.state,
                                },
                            ),
                        ),
                    }
                } else {
                    None
                }
            },
        },
    }
}

/// What the `Grammar` rule yields: leading spacing, one or more
/// definitions, and the end of the input.
pub open spec fn grammar_spec(st: StateV) -> Option<ResultV>
    decreases st.input.len(), 10int,
{
    match apply_v(spacing_ref(), st) {
        None => None,
        Some(r1) => {
            if r1.state.input.len() <= st.input.len() {
                match defs_plus(r1.state) {
                    None => None,
                    Some(r2) => match apply_v(end_of_file_ref(), r2.state) {
                        None => None,
                        Some(r3) => Some(
                            rule_wrap(
                                "Grammar"@,
                                ResultV {
                                    nodes: (r1.nodes + r2.nodes) + r3.nodes,
                                    state: r3.state,
                                },
                            ),
                        ),
                    },
                }
            } else {
                None
            }
        },
    }
}

// ===== Executable structural rules =====
/// Wraps the two halves of a rule body into the rule's named node.
fn finish2<'a>(name: &'static str, r1: ParseResult<'a>, r2: ParseResult<'a>) -> (r: Option<
    ParseResult<'a>,
>)
    ensures
        outcome_view(r) == Some(
            rule_wrap(name@, ResultV { nodes: r1@.nodes + r2@.nodes, state: r2@.state }),
        ),
        r matches Some(res) ==> res.parse_state@ == r2.parse_state@,
{
    proof {
        crate::node::lemma_nodes_view_concat(r1.nodes@, r2.nodes@);
    }
    let mut nodes = r1.nodes;
    let mut rest = r2.nodes;
    nodes.append(&mut rest);
    let node = Node::withChildren(name, nodes);
    let out = ParseResult::oneNode(node, r2.parse_state);
    proof {
        assert(outcome_view(Some(out)) =~~= Some(
            rule_wrap(name@, ResultV { nodes: r1@.nodes + r2@.nodes, state: r2@.state }),
        ));
    }
    Some(out)
}

/// Wraps the three parts of a rule body into the rule's named node.
fn finish3<'a>(
    name: &'static str,
    r1: ParseResult<'a>,
    r2: ParseResult<'a>,
    r3: ParseResult<'a>,
) -> (r: Option<ParseResult<'a>>)
    ensures
        outcome_view(r) == Some(
            rule_wrap(
                name@,
                ResultV { nodes: (r1@.nodes + r2@.nodes) + r3@.nodes, state: r3@.state },
            ),
        ),
        r matches Some(res) ==> res.parse_state@ == r3.parse_state@,
{
    proof {
        crate::node::lemma_nodes_view_concat(r1.nodes@, r2.nodes@);
        crate::node::lemma_nodes_view_concat(r1.nodes@ + r2.nodes@, r3.nodes@);
    }
    let mut nodes = r1.nodes;
    let mut rest2 = r2.nodes;
    let mut rest3 = r3.nodes;
    nodes.append(&mut rest2);
    nodes.append(&mut rest3);
    let node = Node::withChildren(name, nodes);
    let out = ParseResult::oneNode(node, r3.parse_state);
    proof {
        assert(outcome_view(Some(out)) =~~= Some(
            rule_wrap(
                name@,
                ResultV { nodes: (r1@.nodes + r2@.nodes) + r3@.nodes, state: r3@.state },
            ),
        ));
    }
    Some(out)
}

fn suffix_tail_expr() -> (e: Expr)
    ensures
        expr_view(e) == suffix_tail(),
{
    opt_of(or3(QUESTION_expr(), STAR_expr(), PLUS_expr()))
}

fn prefix_head_expr() -> (e: Expr)
    ensures
        expr_view(e) == prefix_head(),
{
    opt_of(or3(AND_expr(), NOT_expr(), FUSE_expr()))
}

pub fn Suffix<'a>(parse_state: &ParseState<'a>) -> (r: Option<ParseResult<'a>>)
    requires
        parse_state@.wf(),
    ensures
        outcome_view(r) == suffix_spec(parse_state@),
        r matches Some(res) ==> res.parse_state@.wf(),
    decreases parse_state.input@.len(), 1int,
{
    match Primary(parse_state) {
        None => None,
        Some(r1) => {
            let tail = suffix_tail_expr();
            match tail.apply(&r1.parse_state) {
                None => None,
                Some(r2) => finish2("Suffix", r1, r2),
            }
        },
    }
}

pub fn Prefix<'a>(parse_state: &ParseState<'a>) -> (r: Option<ParseResult<'a>>)
    requires
        parse_state@.wf(),
    ensures
        outcome_view(r) == prefix_spec(parse_state@),
        r matches Some(res) ==> res.parse_state@.wf(),
    decreases parse_state.input@.len(), 2int,
{
    let head = prefix_head_expr();
    match head.apply(parse_state) {
        None => None,
        Some(r1) => {
            if r1.parse_state.input.len() <= parse_state.input.len() {
                match Suffix(&r1.parse_state) {
                    None => None,
                    Some(r2) => finish2("Prefix", r1, r2),
                }
            } else {
                None
            }
        },
    }
}

/// The star loop over `Prefix`, accumulating its nodes.
fn prefixStarLoop<'a>(parse_state: &ParseState<'a>) -> (r: ParseResult<'a>)
    requires
        parse_state@.wf(),
    ensures
        r@ == prefix_star(parse_state@),
        r.parse_state@.wf(),
    decreases parse_state.input@.len(), 3int,
{
    match Prefix(parse_state) {
        None => ParseResult::fromParseState(*parse_state),
        Some(r1) => {
            if r1.parse_state.input.len() < parse_state.input.len() {
                let rest = prefixStarLoop(&r1.parse_state);
                proof {
                    crate::node::lemma_nodes_view_concat(r1.nodes@, rest.nodes@);
                }
                let mut nodes = r1.nodes;
                let mut more = rest.nodes;
                nodes.append(&mut more);
                let out = ParseResult { nodes, parse_state: rest.parse_state };
                proof {
                    assert(out@ =~~= prefix_star(parse_state@));
                }
                out
            } else {
                ParseResult::fromParseState(*parse_state)
            }
        },
    }
}

pub fn Sequence<'a>(parse_state: &ParseState<'a>) -> (r: Option<ParseResult<'a>>)
    requires
        parse_state@.wf(),
    ensures
        outcome_view(r) == sequence_spec(parse_state@),
        r matches Some(res) ==> res.parse_state@.wf(),
    decreases parse_state.input@.len(), 4int,
{
    let inner = prefixStarLoop(parse_state);
    let node = Node::withChildren("Sequence", inner.nodes);
    let out = ParseResult::oneNode(node, inner.parse_state);
    proof {
        assert(outcome_view(Some(out)) =~~= sequence_spec(parse_state@));
    }
    Some(out)
}

/// The star loop over `/ Sequence` pairs after the first sequence.
fn exprTailLoop<'a>(parse_state: &ParseState<'a>) -> (r: ParseResult<'a>)
    requires
        parse_state@.wf(),
    ensures
        r@ == expr_tail(parse_state@),
        r.parse_state@.wf(),
    decreases parse_state.input@.len(), 5int,
{
    let slash = SLASH_expr();
    match slash.apply(parse_state) {
        None => ParseResult::fromParseState(*parse_state),
        Some(r1) => {
            if r1.parse_state.input.len() <= parse_state.input.len() {
                match Sequence(&r1.parse_state) {
                    None => ParseResult::fromParseState(*parse_state),
                    Some(r2) => {
                        if r2.parse_state.input.len() < parse_state.input.len() {
                            let rest = exprTailLoop(&r2.parse_state);
                            proof {
                                crate::node::lemma_nodes_view_concat(r1.nodes@, r2.nodes@);
                                crate::node::lemma_nodes_view_concat(
                                    r1.nodes@ + r2.nodes@,
                                    rest.nodes@,
                                );
                            }
                            let mut nodes = r1.nodes;
                            let mut n2 = r2.nodes;
                            let mut n3 = rest.nodes;
                            nodes.append(&mut n2);
                            nodes.append(&mut n3);
                            let out = ParseResult { nodes, parse_state: rest.parse_state };
                            proof {
                                assert(out@ =~~= expr_tail(parse_state@));
                            }
                            out
                        } else {
                            ParseResult::fromParseState(*parse_state)
                        }
                    },
                }
            } else {
                ParseResult::fromParseState(*parse_state)
            }
        },
    }
}

pub fn Expression<'a>(parse_state: &ParseState<'a>) -> (r: Option<ParseResult<'a>>)
    requires
        parse_state@.wf(),
    ensures
        outcome_view(r) == expression_spec(parse_state@),
        r matches Some(res) ==> res.parse_state@.wf(),
    decreases parse_state.input@.len(), 6int,
{
    match Sequence(parse_state) {
        None => None,
        Some(r1) => {
            if r1.parse_state.input.len() <= parse_state.input.len() {
                let rest = exprTailLoop(&r1.parse_state);
                finish2("Expression", r1, rest)
            } else {
                None
            }
        },
    }
}

fn primary_ident_expr() -> (e: Expr)
    ensures
        expr_view(e) == primary_ident_alt(),
{
    seq2(Identifier_expr(), not_of(ARROW_expr()))
}

fn primary_fallback_expr() -> (e: Expr)
    ensures
        expr_view(e) == ExprV::Or(seq![literal_ref(), class_ref(), dot_ref()]),
{
    or3(Literal_expr(), Class_expr(), DOT_expr())
}

fn primaryFallbackApply<'a>(parse_state: &ParseState<'a>) -> (r: Option<ParseResult<'a>>)
    requires
        parse_state@.wf(),
    ensures
        outcome_view(r) == primary_fallback(parse_state@),
        r matches Some(res) ==> res.parse_state@.wf(),
{
    let e = primary_fallback_expr();
    match e.apply(parse_state) {
        None => None,
        Some(res) => {
            let node = Node::withChildren("Primary", res.nodes);
            let out = ParseResult::oneNode(node, res.parse_state);
            proof {
                assert(outcome_view(Some(out)) =~~= primary_fallback(parse_state@));
            }
            Some(out)
        },
    }
}

pub fn Primary<'a>(parse_state: &ParseState<'a>) -> (r: Option<ParseResult<'a>>)
    requires
        parse_state@.wf(),
    ensures
        outcome_view(r) == primary_spec(parse_state@),
        r matches Some(res) ==> res.parse_state@.wf(),
    decreases parse_state.input@.len(), 0int,
{
    let ident_alt = primary_ident_expr();
    match ident_alt.apply(parse_state) {
        Some(res) => {
            let node = Node::withChildren("Primary", res.nodes);
            let out = ParseResult::oneNode(node, res.parse_state);
            proof {
                assert(outcome_view(Some(out)) =~~= primary_spec(parse_state@));
            }
            Some(out)
        },
        None => {
            let open = OPEN_expr();
            match open.apply(parse_state) {
                Some(r1) => {
                    if r1.parse_state.input.len() < parse_state.input.len() {
                        match Expression(&r1.parse_state) {
                            None => primaryFallbackApply(parse_state),
                            Some(r2) => {
                                let close = CLOSE_expr();
                                match close.apply(&r2.parse_state) {
                                    None => primaryFallbackApply(parse_state),
                                    Some(r3) => finish3("Primary", r1, r2, r3),
                                }
                            },
                        }
                    } else {
                        primaryFallbackApply(parse_state)
                    }
                },
                None => primaryFallbackApply(parse_state),
            }
        },
    }
}

pub fn Definition<'a>(parse_state: &ParseState<'a>) -> (r: Option<ParseResult<'a>>)
    requires
        parse_state@.wf(),
    ensures
        outcome_view(r) == definition_spec(parse_state@),
        r matches Some(res) ==> res.parse_state@.wf(),
    decreases parse_state.input@.len(), 7int,
{
    let ident = Identifier_expr();
    match ident.apply(parse_state) {
        None => None,
        Some(r1) => {
            let arrow = ARROW_expr();
            match arrow.apply(&r1.parse_state) {
                None => None,
                Some(r2) => {
                    if r2.parse_state.input.len() <= parse_state.input.len() {
                        match Expression(&r2.parse_state) {
                            None => None,
                            Some(r3) => finish3("Definition", r1, r2, r3),
                        }
                    } else {
                        None
                    }
                },
            }
        },
    }
}

/// The star loop over `Definition`, after the first one.
fn defsStarLoop<'a>(parse_state: &ParseState<'a>) -> (r: ParseResult<'a>)
    requires
        parse_state@.wf(),
    ensures
        r@ == defs_star(parse_state@),
        r.parse_state@.wf(),
    decreases parse_state.input@.len(), 8int,
{
    match Definition(parse_state) {
        None => ParseResult::fromParseState(*parse_state),
        Some(r1) => {
            if r1.parse_state.input.len() < parse_state.input.len() {
                let rest = defsStarLoop(&r1.parse_state);
                proof {
                    crate::node::lemma_nodes_view_concat(r1.nodes@, rest.nodes@);
                }
                let mut nodes = r1.nodes;
                let mut more = rest.nodes;
                nodes.append(&mut more);
                let out = ParseResult { nodes, parse_state: rest.parse_state };
                proof {
                    assert(out@ =~~= defs_star(parse_state@));
                }
                out
            } else {
                ParseResult::fromParseState(*parse_state)
            }
        },
    }
}

fn defsPlusLoop<'a>(parse_state: &ParseState<'a>) -> (r: Option<ParseResult<'a>>)
    requires
        parse_state@.wf(),
    ensures
        outcome_view(r) == defs_plus(parse_state@),
        r matches Some(res) ==> res.parse_state@.wf(),
    decreases parse_state.input@.len(), 9int,
{
    match Definition(parse_state) {
        None => None,
        Some(r1) => {
            if r1.parse_state.input.len() < parse_state.input.len() {
                let rest = defsStarLoop(&r1.parse_state);
                proof {
                    crate::node::lemma_nodes_view_concat(r1.nodes@, rest.nodes@);
                }
                let mut nodes = r1.nodes;
                let mut more = rest.nodes;
                nodes.append(&mut more);
                let out = ParseResult { nodes, parse_state: rest.parse_state };
                proof {
                    assert(outcome_view(Some(out)) =~~= defs_plus(parse_state@));
                }
                Some(out)
            } else {
                Some(r1)
            }
        },
    }
}

pub fn Grammar<'a>(parse_state: &ParseState<'a>) -> (r: Option<ParseResult<'a>>)
    requires
        parse_state@.wf(),
    ensures
        outcome_view(r) == grammar_spec(parse_state@),
        r matches Some(res) ==> res.parse_state@.wf(),
    decreases parse_state.input@.len(), 10int,
{
    let spacing = Spacing_expr();
    match spacing.apply(parse_state) {
        None => None,
        Some(r1) => {
            if r1.parse_state.input.len() <= parse_state.input.len() {
                match defsPlusLoop(&r1.parse_state) {
                    None => None,
                    Some(r2) => {
                        let eof = EndOfFile_expr();
                        match eof.apply(&r2.parse_state) {
                            None => None,
                            Some(r3) => finish3("Grammar", r1, r2, r3),
                        }
                    },
                }
            } else {
                None
            }
        },
    }
}

/// Parses a whole PEG grammar: the tree is present exactly when the
/// meta-grammar matches the input from the start, and its root is the
/// `Grammar` node the rule built.
pub fn parse(input: &[u8]) -> (r: Option<Node>)
    ensures
        match grammar_spec(StateV { input: input@, offset: 0 }) {
            Some(res) => r matches Some(n) && n@ == res.nodes[0],
            None => r is None,
        },
        r matches Some(n) ==> crate::node::nv_ok(n@, input@, 0, 0),
{
    let parse_state = ParseState { input, offset: 0 };
    let len = input.len();
    proof {
        assert(parse_state@.wf());
        lemma_parse_tree_ok(input@);
    }
    match Grammar(&parse_state) {
        Some(res) => {
            let mut nodes = res.nodes;
            proof {
                crate::node::lemma_nodes_view_len(nodes@);
                crate::node::lemma_nodes_view_index(nodes@, 0);
            }
            let node = nodes.remove(0);
            Some(node)
        },
        None => None,
    }
}

// ===== Soundness of the structural rules =====
/// Wrapping a well-formed body result under a rule name preserves the
/// guarantee every matcher gives.
proof fn lemma_rule_wrap_ok(name: Seq<char>, st: StateV, r: ResultV)
    requires
        st.wf(),
        crate::exprs::result_ok(st, r),
    ensures
        crate::exprs::result_ok(st, rule_wrap(name, r)),
        rule_wrap(name, r).state.wf(),
{
    crate::exprs::lemma_wrap_ok(name, r.nodes, st.input, st.offset, st.offset);
    assert(rule_wrap(name, r).state.input =~= st.input.subrange(
        r.state.offset - st.offset,
        st.input.len() as int,
    ));
}

proof fn lemma_suffix_ok(st: StateV)
    requires
        st.wf(),
    ensures
        suffix_spec(st) matches Some(res) ==> crate::exprs::result_ok(st, res)
            && res.state.wf(),
    decreases st.input.len(), 1int,
{
    lemma_primary_ok(st);
    match primary_spec(st) {
        None => {},
        Some(r1) => {
            lemma_apply_v_ok(suffix_tail(), r1.state);
            match apply_v(suffix_tail(), r1.state) {
                None => {},
                Some(r2) => {
                    crate::exprs::lemma_chain_ok(st, r1, r2);
                    lemma_rule_wrap_ok(
                        "Suffix"@,
                        st,
                        ResultV { nodes: r1.nodes + r2.nodes, state: r2.state },
                    );
                },
            }
        },
    }
}

proof fn lemma_prefix_ok(st: StateV)
    requires
        st.wf(),
    ensures
        prefix_spec(st) matches Some(res) ==> crate::exprs::result_ok(st, res)
            && res.state.wf(),
    decreases st.input.len(), 2int,
{
    lemma_apply_v_ok(prefix_head(), st);
    match apply_v(prefix_head(), st) {
        None => {},
        Some(r1) => {
            if r1.state.input.len() <= st.input.len() {
                lemma_suffix_ok(r1.state);
                match suffix_spec(r1.state) {
                    None => {},
                    Some(r2) => {
                        crate::exprs::lemma_chain_ok(st, r1, r2);
                        lemma_rule_wrap_ok(
                            "Prefix"@,
                            st,
                            ResultV { nodes: r1.nodes + r2.nodes, state: r2.state },
                        );
                    },
                }
            }
        },
    }
}

proof fn lemma_prefix_star_ok(st: StateV)
    requires
        st.wf(),
    ensures
        crate::exprs::result_ok(st, prefix_star(st)),
        prefix_star(st).state.wf(),
    decreases st.input.len(), 3int,
{
    lemma_prefix_ok(st);
    lemma_state_id_ok(st);
    match prefix_spec(st) {
        None => {},
        Some(r) => {
            if r.state.input.len() < st.input.len() {
                lemma_prefix_star_ok(r.state);
                crate::exprs::lemma_chain_ok(st, r, prefix_star(r.state));
            }
        },
    }
}

/// Staying put is a well-formed outcome.
proof fn lemma_state_id_ok(st: StateV)
    requires
        st.wf(),
    ensures
        crate::exprs::result_ok(st, ResultV { nodes: Seq::empty(), state: st }),
{
    assert(st.input.subrange(0, st.input.len() as int) =~= st.input);
}

proof fn lemma_sequence_ok(st: StateV)
    requires
        st.wf(),
    ensures
        sequence_spec(st) matches Some(res) ==> crate::exprs::result_ok(st, res)
            && res.state.wf(),
    decreases st.input.len(), 4int,
{
    lemma_prefix_star_ok(st);
    lemma_rule_wrap_ok("Sequence"@, st, prefix_star(st));
}

proof fn lemma_expr_tail_ok(st: StateV)
    requires
        st.wf(),
    ensures
        crate::exprs::result_ok(st, expr_tail(st)),
        expr_tail(st).state.wf(),
    decreases st.input.len(), 5int,
{
    lemma_state_id_ok(st);
    lemma_apply_v_ok(slash_ref(), st);
    match apply_v(slash_ref(), st) {
        None => {},
        Some(r1) => {
            if r1.state.input.len() <= st.input.len() {
                lemma_sequence_ok(r1.state);
                match sequence_spec(r1.state) {
                    None => {},
                    Some(r2) => {
                        if r2.state.input.len() < st.input.len() {
                            lemma_expr_tail_ok(r2.state);
                            crate::exprs::lemma_chain_ok(st, r1, r2);
                            crate::exprs::lemma_chain_ok(
                                st,
                                ResultV { nodes: r1.nodes + r2.nodes, state: r2.state },
                                expr_tail(r2.state),
                            );
                        }
                    },
                }
            }
        },
    }
}

proof fn lemma_expression_ok(st: StateV)
    requires
        st.wf(),
    ensures
        expression_spec(st) matches Some(res) ==> crate::exprs::result_ok(st, res)
            && res.state.wf(),
    decreases st.input.len(), 6int,
{
    lemma_sequence_ok(st);
    match sequence_spec(st) {
        None => {},
        Some(r1) => {
            if r1.state.input.len() <= st.input.len() {
                lemma_expr_tail_ok(r1.state);
                crate::exprs::lemma_chain_ok(st, r1, expr_tail(r1.state));
                lemma_rule_wrap_ok(
                    "Expression"@,
                    st,
                    ResultV {
                        nodes: r1.nodes + expr_tail(r1.state).nodes,
                        state: expr_tail(r1.state).state,
                    },
                );
            }
        },
    }
}

proof fn lemma_primary_ok(st: StateV)
    requires
        st.wf(),
    ensures
        primary_spec(st) matches Some(res) ==> crate::exprs::result_ok(st, res)
            && res.state.wf(),
    decreases st.input.len(), 0int,
{
    lemma_apply_v_ok(primary_ident_alt(), st);
    lemma_primary_fallback_ok(st);
    match apply_v(primary_ident_alt(), st) {
        Some(r) => {
            lemma_rule_wrap_ok("Primary"@, st, r);
        },
        None => {
            lemma_apply_v_ok(open_ref(), st);
            match apply_v(open_ref(), st) {
                Some(r1) => {
                    if r1.state.input.len() < st.input.len() {
                        lemma_expression_ok(r1.state);
                        match expression_spec(r1.state) {
                            None => {},
                            Some(r2) => {
                                lemma_apply_v_ok(close_ref(), r2.state);
                                match apply_v(close_ref(), r2.state) {
                                    None => {},
                                    Some(r3) => {
                                        crate::exprs::lemma_chain_ok(st, r1, r2);
                                        crate::exprs::lemma_chain_ok(
                                            st,
                                            ResultV {
                                                nodes: r1.nodes + r2.nodes,
                                                state: r2.state,
                                            },
                                            r3,
                                        );
                                        lemma_rule_wrap_ok(
                                            "Primary"@,
                                            st,
                                            ResultV {
                                                nodes: (r1.nodes + r2.nodes) + r3.nodes,
                                                state: r3.state,
                                            },
                                        );
                                    },
                                }
                            },
                        }
                    }
                },
                None => {},
            }
        },
    }
}

proof fn lemma_primary_fallback_ok(st: StateV)
    requires
        st.wf(),
    ensures
        primary_fallback(st) matches Some(res) ==> crate::exprs::result_ok(st, res)
            && res.state.wf(),
{
    lemma_apply_v_ok(ExprV::Or(seq![literal_ref(), class_ref(), dot_ref()]), st);
    match apply_v(ExprV::Or(seq![literal_ref(), class_ref(), dot_ref()]), st) {
        None => {},
        Some(r) => {
            lemma_rule_wrap_ok("Primary"@, st, r);
        },
    }
}

proof fn lemma_definition_ok(st: StateV)
    requires
        st.wf(),
    ensures
        definition_spec(st) matches Some(res) ==> crate::exprs::result_ok(st, res)
            && res.state.wf(),
    decreases st.input.len(), 7int,
{
    lemma_apply_v_ok(identifier_ref(), st);
    match apply_v(identifier_ref(), st) {
        None => {},
        Some(r1) => {
            lemma_apply_v_ok(arrow_ref(), r1.state);
            match apply_v(arrow_ref(), r1.state) {
                None => {},
                Some(r2) => {
                    if r2.state.input.len() <= st.input.len() {
                        lemma_expression_ok(r2.state);
                        match expression_spec(r2.state) {
                            None => {},
                            Some(r3) => {
                                crate::exprs::lemma_chain_ok(st, r1, r2);
                                crate::exprs::lemma_chain_ok(
                                    st,
                                    ResultV { nodes: r1.nodes + r2.nodes, state: r2.state },
                                    r3,
                                );
                                lemma_rule_wrap_ok(
                                    "Definition"@,
                                    st,
                                    ResultV {
                                        nodes: (r1.nodes + r2.nodes) + r3.nodes,
                                        state: r3.state,
                                    },
                                );
                            },
                        }
                    }
                },
            }
        },
    }
}

proof fn lemma_defs_star_ok(st: StateV)
    requires
        st.wf(),
    ensures
        crate::exprs::result_ok(st, defs_star(st)),
        defs_star(st).state.wf(),
    decreases st.input.len(), 8int,
{
    lemma_state_id_ok(st);
    lemma_definition_ok(st);
    match definition_spec(st) {
        None => {},
        Some(r) => {
            if r.state.input.len() < st.input.len() {
                lemma_defs_star_ok(r.state);
                crate::exprs::lemma_chain_ok(st, r, defs_star(r.state));
            }
        },
    }
}

proof fn lemma_defs_plus_ok(st: StateV)
    requires
        st.wf(),
    ensures
        defs_plus(st) matches Some(res) ==> crate::exprs::result_ok(st, res)
            && res.state.wf(),
    decreases st.input.len(), 9int,
{
    lemma_definition_ok(st);
    match definition_spec(st) {
        None => {},
        Some(r) => {
            if r.state.input.len() < st.input.len() {
                lemma_defs_star_ok(r.state);
                crate::exprs::lemma_chain_ok(st, r, defs_star(r.state));
            }
        },
    }
}

/// Everything the whole-grammar rule returns meets the guarantee every
/// matcher gives: the offset advances by exactly the width of the `Data`
/// leaves, and the produced tree is well-formed over the input.
pub proof fn lemma_grammar_ok(st: StateV)
    requires
        st.wf(),
    ensures
        grammar_spec(st) matches Some(res) ==> crate::exprs::result_ok(st, res)
            && res.state.wf(),
    decreases st.input.len(), 10int,
{
    lemma_apply_v_ok(spacing_ref(), st);
    match apply_v(spacing_ref(), st) {
        None => {},
        Some(r1) => {
            if r1.state.input.len() <= st.input.len() {
                lemma_defs_plus_ok(r1.state);
                match defs_plus(r1.state) {
                    None => {},
                    Some(r2) => {
                        lemma_apply_v_ok(end_of_file_ref(), r2.state);
                        match apply_v(end_of_file_ref(), r2.state) {
                            None => {},
                            Some(r3) => {
                                crate::exprs::lemma_chain_ok(st, r1, r2);
                                crate::exprs::lemma_chain_ok(
                                    st,
                                    ResultV { nodes: r1.nodes + r2.nodes, state: r2.state },
                                    r3,
                                );
                                lemma_rule_wrap_ok(
                                    "Grammar"@,
                                    st,
                                    ResultV {
                                        nodes: (r1.nodes + r2.nodes) + r3.nodes,
                                        state: r3.state,
                                    },
                                );
                            },
                        }
                    },
                }
            }
        },
    }
}

/// The tree `parse` returns is well-formed over the parsed input: its
/// `Data` leaves tile the input in scan order, each holding exactly the
/// slice of the input at its span, and every `Children` node spans from
/// its first child's start to its last child's end.
pub proof fn lemma_parse_tree_ok(input: Seq<u8>)
    requires
        input.len() <= usize::MAX,
    ensures
        grammar_spec(StateV { input, offset: 0 }) matches Some(res) ==> res.nodes.len() == 1
            && crate::node::nv_ok(res.nodes[0], input, 0, 0),
{
    let st = StateV { input, offset: 0 };
    lemma_grammar_ok(st);
    match grammar_spec(st) {
        None => {},
        Some(res) => {
            assert(res.nodes.len() == 1);
            assert(crate::node::nvs_ok(res.nodes, input, 0, 0));
        },
    }
}

} // verus!
