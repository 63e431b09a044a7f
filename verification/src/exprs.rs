//! The matcher runtime: primitives and combinators with PEG semantics.
//!
//! A matcher is a value; applying it to a parse state either fails or
//! returns the nodes it produced together with the advanced state.  The
//! meaning of every matcher is given by the specification interpreter
//! [`apply_v`] over the matcher's mathematical image [`ExprV`]; each
//! executable `apply` is proved to return exactly what the interpreter
//! says.
use crate::node::{ContentsV, Node, NodeV, nodes_view, wrap_node};
use crate::state::{outcome_view, ParseResult, ParseState, ResultV, StateV};
use crate::unicode::{spec_codepointLen, spec_readCodepoint};
use vstd::prelude::*;

verus! {

broadcast use vstd::std_specs::vec::group_vec_axioms, vstd::seq::group_seq_axioms;

// ===== The matcher types =====
/// Matches a fixed byte string at the front of the input.
pub struct Literal {
    pub text: &'static [u8],
}

/// Matches one codepoint (or raw octet) that is a member of a parsed
/// character class.
pub struct CharClass {
    // All the single chars in the char class.
    // May be unicode codepoints or binary octets stored as codepoints.
    pub single_chars: Vec<u32>,
    // Sequence of [from, to] (inclusive bounds) char ranges.
    // May be unicode codepoints or binary octets stored as codepoints.
    pub ranges: Vec<(u32, u32)>,
}

/// Matches any single character, or any single byte where the input is not
/// UTF-8 at the current position.
pub struct Dot;

/// Negative lookahead: succeeds without consuming when the inner matcher
/// fails.
pub struct NotEx {
    pub expr: Box<Expr>,
}

/// Positive lookahead: succeeds without consuming when the inner matcher
/// succeeds.
pub struct And {
    pub expr: Box<Expr>,
}

/// Matches the inner matcher, or nothing.
pub struct OptionEx {
    pub expr: Box<Expr>,
}

/// Greedy repetition, zero or more times; always succeeds.
pub struct Star {
    pub expr: Box<Expr>,
}

/// Greedy repetition, at least once.
pub struct Plus {
    pub expr: Box<Expr>,
}

/// Ordered choice: the first alternative to match wins.
pub struct Or {
    pub exprs: Vec<Expr>,
}

/// All in order, threading the state through.
pub struct Sequence {
    pub exprs: Vec<Expr>,
}

/// Matches the inner matcher and collapses everything it produced into one
/// anonymous leaf covering the consumed bytes.
pub struct Fuse {
    pub expr: Box<Expr>,
}

/// A named rule in expression position: wraps whatever its body produces
/// into a single parent node carrying the rule name.
pub struct WrapEx {
    pub name: &'static str,
    pub expr: Box<Expr>,
}

/// A matcher of any shape; the payload of each variant is the
/// corresponding matcher value.
pub enum Expr {
    Literal(Literal),
    CharClass(CharClass),
    Dot(Dot),
    NotEx(NotEx),
    And(And),
    OptionEx(OptionEx),
    Star(Star),
    Plus(Plus),
    Or(Or),
    Sequence(Sequence),
    Fuse(Fuse),
    WrapEx(WrapEx),
}

// ===== Mathematical images =====
/// The image of a parsed character class: single codepoints and inclusive
/// codepoint ranges.
#[verifier::ext_equal]
pub struct ClassV {
    pub singles: Seq<u32>,
    pub ranges: Seq<(u32, u32)>,
}

/// The mathematical image of a matcher.
#[verifier::ext_equal]
pub enum ExprV {
    Literal(Seq<u8>),
    CharClass(ClassV),
    Dot,
    NotEx(Box<ExprV>),
    And(Box<ExprV>),
    OptionEx(Box<ExprV>),
    Star(Box<ExprV>),
    Plus(Box<ExprV>),
    Or(Seq<ExprV>),
    Sequence(Seq<ExprV>),
    Fuse(Box<ExprV>),
    WrapEx(Seq<char>, Box<ExprV>),
}

pub open spec fn class_view(c: CharClass) -> ClassV {
    ClassV { singles: c.single_chars@, ranges: c.ranges@ }
}

pub open spec fn expr_view(e: Expr) -> ExprV
    decreases e, 0int,
    via expr_view_dec
{
    match e {
        Expr::Literal(l) => ExprV::Literal(l.text@),
        Expr::CharClass(c) => ExprV::CharClass(class_view(c)),
        Expr::Dot(_) => ExprV::Dot,
        Expr::NotEx(x) => ExprV::NotEx(Box::new(expr_view(*x.expr))),
        Expr::And(x) => ExprV::And(Box::new(expr_view(*x.expr))),
        Expr::OptionEx(x) => ExprV::OptionEx(Box::new(expr_view(*x.expr))),
        Expr::Star(x) => ExprV::Star(Box::new(expr_view(*x.expr))),
        Expr::Plus(x) => ExprV::Plus(Box::new(expr_view(*x.expr))),
        Expr::Or(x) => ExprV::Or(exprs_view(x.exprs@)),
        Expr::Sequence(x) => ExprV::Sequence(exprs_view(x.exprs@)),
        Expr::Fuse(x) => ExprV::Fuse(Box::new(expr_view(*x.expr))),
        Expr::WrapEx(x) => ExprV::WrapEx(x.name@, Box::new(expr_view(*x.expr))),
    }
}

#[via_fn]
proof fn expr_view_dec(e: Expr) {
    match e {
        Expr::Or(x) => {
            assert(decreases_to!(e => x));
            assert(decreases_to!(x => x.exprs));
            assert(decreases_to!(x.exprs => x.exprs@));
        },
        Expr::Sequence(x) => {
            assert(decreases_to!(e => x));
            assert(decreases_to!(x => x.exprs));
            assert(decreases_to!(x.exprs => x.exprs@));
        },
        _ => {},
    }
}

pub open spec fn exprs_view(s: Seq<Expr>) -> Seq<ExprV>
    decreases s, 1int,
{
    if s.len() == 0 {
        Seq::empty()
    } else {
        seq![expr_view(s[0])] + exprs_view(s.drop_first())
    }
}

pub broadcast proof fn lemma_exprs_view_len(s: Seq<Expr>)
    ensures
        (#[trigger] exprs_view(s)).len() == s.len(),
    decreases s.len(),
{
    if s.len() > 0 {
        lemma_exprs_view_len(s.drop_first());
    }
}

pub broadcast proof fn lemma_exprs_view_index(s: Seq<Expr>, i: int)
    requires
        0 <= i < s.len(),
    ensures
        #[trigger] exprs_view(s)[i] == expr_view(s[i]),
    decreases s.len(),
{
    lemma_exprs_view_len(s);
    if i > 0 {
        lemma_exprs_view_index(s.drop_first(), i - 1);
    }
}

// ===== Character-class parsing =====
/// The codepoints of a byte string, read one UTF-8 codepoint at a time;
/// a byte where no codepoint can be read stands for itself.
pub open spec fn spec_toU32s(bytes: Seq<u8>) -> Seq<u32>
    decreases bytes.len(),
{
    if bytes.len() == 0 {
        Seq::empty()
    } else {
        match crate::unicode::spec_bytesFollowing(bytes[0]) {
            Some(k) => {
                if k > 0 {
                    match spec_readCodepoint(bytes) {
                        Some(ch) => seq![ch as u32] + spec_toU32s(
                            bytes.skip(spec_codepointLen(bytes)),
                        ),
                        None => seq![bytes[0] as u32] + spec_toU32s(bytes.skip(1)),
                    }
                } else {
                    seq![bytes[0] as u32] + spec_toU32s(bytes.skip(1))
                }
            },
            None => seq![bytes[0] as u32] + spec_toU32s(bytes.skip(1)),
        }
    }
}

/// The class denoted by a scanned codepoint list: whenever three
/// consecutive codepoints are X, `-`, Y, they make the range [X, Y];
/// otherwise the codepoint is a singleton.
pub open spec fn spec_classOf(chars: Seq<u32>) -> ClassV
    decreases chars.len(),
{
    if chars.len() == 0 {
        ClassV { singles: Seq::empty(), ranges: Seq::empty() }
    } else if chars.len() >= 3 && chars[1] == 45u32 {
        let rest = spec_classOf(chars.skip(3));
        ClassV { singles: rest.singles, ranges: seq![(chars[0], chars[2])] + rest.ranges }
    } else {
        let rest = spec_classOf(chars.skip(1));
        ClassV { singles: seq![chars[0]] + rest.singles, ranges: rest.ranges }
    }
}

/// Membership in a class: equal to some single codepoint or within some
/// range.
pub open spec fn in_class(cv: ClassV, c: u32) -> bool {
    cv.singles.contains(c) || exists|j: int|
        0 <= j < cv.ranges.len() && (#[trigger] cv.ranges[j]).0 <= c && cv.ranges[j].1 >= c
}

// ===== The specification interpreter =====
/// A successful outcome of one anonymous leaf covering the next `n` bytes.
pub open spec fn leaf_result(st: StateV, n: int) -> Option<ResultV> {
    Some(
        ResultV {
            nodes: seq![
                NodeV {
                    name: ""@,
                    start: st.offset,
                    end: st.offset + n,
                    contents: ContentsV::Data(st.input.take(n)),
                },
            ],
            state: st.advanced(n),
        },
    )
}

/// A successful outcome that consumed nothing and produced no nodes.
pub open spec fn empty_result(st: StateV) -> Option<ResultV> {
    Some(ResultV { nodes: Seq::empty(), state: st })
}

/// What a character class yields: first try to read a codepoint and test
/// membership; where no codepoint can be read or the codepoint is not a
/// member, fall back to testing the first raw byte.
pub open spec fn class_apply(cv: ClassV, st: StateV) -> Option<ResultV> {
    let utf8_hit = match spec_readCodepoint(st.input) {
        Some(ch) => in_class(cv, ch as u32),
        None => false,
    };
    if utf8_hit {
        leaf_result(st, spec_codepointLen(st.input))
    } else if st.input.len() >= 1 && in_class(cv, st.input[0] as u32) {
        leaf_result(st, 1)
    } else {
        None
    }
}

/// What `Dot` yields: one codepoint where one can be read, else one raw
/// byte, failing only on empty input.
pub open spec fn dot_apply(st: StateV) -> Option<ResultV> {
    match spec_readCodepoint(st.input) {
        Some(_) => leaf_result(st, spec_codepointLen(st.input)),
        None => if st.input.len() >= 1 {
            leaf_result(st, 1)
        } else {
            None
        },
    }
}

/// The outcome of a matcher on a state: the meaning of every matcher in
/// the runtime.
pub open spec fn apply_v(e: ExprV, st: StateV) -> Option<ResultV>
    decreases e, st.input.len(), 0int,
{
    match e {
        ExprV::Literal(text) => {
            if st.input.len() >= text.len() && st.input.take(text.len() as int) == text {
                leaf_result(st, text.len() as int)
            } else {
                None
            }
        },
        ExprV::CharClass(cv) => class_apply(cv, st),
        ExprV::Dot => dot_apply(st),
        ExprV::NotEx(inner) => match apply_v(*inner, st) {
            Some(_) => None,
            None => empty_result(st),
        },
        ExprV::And(inner) => match apply_v(*inner, st) {
            Some(_) => empty_result(st),
            None => None,
        },
        ExprV::OptionEx(inner) => match apply_v(*inner, st) {
            Some(r) => Some(r),
            None => empty_result(st),
        },
        ExprV::Star(inner) => Some(star_v(*inner, st)),
        ExprV::Plus(inner) => match apply_v(*inner, st) {
            None => None,
            Some(r) => {
                if r.state.input.len() < st.input.len() {
                    let rest = star_v(*inner, r.state);
                    Some(ResultV { nodes: r.nodes + rest.nodes, state: rest.state })
                } else {
                    Some(r)
                }
            },
        },
        ExprV::Or(alts) => or_v(alts, st),
        ExprV::Sequence(items) => seq_v(items, st),
        ExprV::Fuse(inner) => match apply_v(*inner, st) {
            Some(r) => leaf_result(st, r.state.offset - st.offset),
            None => None,
        },
        ExprV::WrapEx(name, inner) => match apply_v(*inner, st) {
            Some(r) => Some(ResultV { nodes: seq![wrap_node(name, r.nodes)], state: r.state }),
            None => None,
        },
    }
}

/// Greedy repetition of a matcher.  An iteration that fails, or succeeds
/// without consuming anything, ends the repetition; the zero-width
/// iteration contributes nothing, which keeps the repetition finite.
pub open spec fn star_v(e: ExprV, st: StateV) -> ResultV
    decreases e, st.input.len(), 1int,
{
    match apply_v(e, st) {
        None => ResultV { nodes: Seq::empty(), state: st },
        Some(r) => {
            if r.state.input.len() < st.input.len() {
                let rest = star_v(e, r.state);
                ResultV { nodes: r.nodes + rest.nodes, state: rest.state }
            } else {
                ResultV { nodes: Seq::empty(), state: st }
            }
        },
    }
}

/// Ordered choice over a list of alternatives.
pub open spec fn or_v(alts: Seq<ExprV>, st: StateV) -> Option<ResultV>
    decreases alts, st.input.len(), 0int,
{
    if alts.len() == 0 {
        None
    } else {
        match apply_v(alts[0], st) {
            Some(r) => Some(r),
            None => or_v(alts.drop_first(), st),
        }
    }
}

/// A sequence of matchers, threading the state and concatenating nodes.
pub open spec fn seq_v(items: Seq<ExprV>, st: StateV) -> Option<ResultV>
    decreases items, st.input.len(), 0int,
{
    if items.len() == 0 {
        empty_result(st)
    } else {
        match apply_v(items[0], st) {
            None => None,
            Some(r) => match seq_v(items.drop_first(), r.state) {
                None => None,
                Some(rest) => Some(
                    ResultV { nodes: r.nodes + rest.nodes, state: rest.state },
                ),
            },
        }
    }
}

// ===== Soundness: what holds of every successful application =====
use crate::node::{nv_data_len, nv_ok, nvs_data_len, nvs_ok};

/// What every successful matcher application guarantees.
///
/// The offset never moves backwards and never leaves the input; the new
/// input is the suffix of the old one at the new offset; the offset
/// advances by exactly the total width of the produced `Data` leaves; and
/// the produced nodes are well-formed over the input, tiling the consumed
/// window in scan order.
pub open spec fn result_ok(st: StateV, res: ResultV) -> bool {
    &&& st.offset <= res.state.offset
    &&& res.state.offset - st.offset <= st.input.len()
    &&& res.state.input == st.input.subrange(res.state.offset - st.offset, st.input.len() as int)
    &&& nvs_data_len(res.nodes) == res.state.offset - st.offset
    &&& nvs_ok(res.nodes, st.input, st.offset, st.offset)
}

proof fn lemma_nvs_data_len_concat(a: Seq<NodeV>, b: Seq<NodeV>)
    ensures
        nvs_data_len(a + b) == nvs_data_len(a) + nvs_data_len(b),
    decreases a.len(),
{
    if a.len() == 0 {
        assert(a + b =~= b);
    } else {
        assert((a + b).drop_first() =~= a.drop_first() + b);
        assert((a + b)[0] == a[0]);
        lemma_nvs_data_len_concat(a.drop_first(), b);
    }
}

proof fn lemma_nvs_ok_concat(a: Seq<NodeV>, b: Seq<NodeV>, buf: Seq<u8>, base: int, lo: int)
    requires
        nvs_ok(a, buf, base, lo),
        nvs_ok(b, buf, base, lo + nvs_data_len(a)),
    ensures
        nvs_ok(a + b, buf, base, lo),
    decreases a.len(),
{
    if a.len() == 0 {
        assert(a + b =~= b);
    } else {
        assert((a + b).drop_first() =~= a.drop_first() + b);
        assert((a + b)[0] == a[0]);
        lemma_nvs_ok_concat(a.drop_first(), b, buf, base, lo + nv_data_len(a[0]));
    }
}

/// Nodes well-formed over a suffix of the input are well-formed over the
/// whole input.
proof fn lemma_nv_ok_widen(n: NodeV, buf: Seq<u8>, base: int, sub: Seq<u8>, base2: int, lo: int)
    requires
        base <= base2,
        base2 - base <= buf.len(),
        sub == buf.subrange(base2 - base, buf.len() as int),
        nv_ok(n, sub, base2, lo),
    ensures
        nv_ok(n, buf, base, lo),
    decreases n, 0int,
{
    match n.contents {
        ContentsV::Data(d) => {
            assert(d =~= buf.subrange(lo - base, n.end - base));
        },
        ContentsV::Children(c) => {
            lemma_nvs_ok_widen(c, buf, base, sub, base2, lo);
        },
    }
}

proof fn lemma_nvs_ok_widen(s: Seq<NodeV>, buf: Seq<u8>, base: int, sub: Seq<u8>, base2: int, lo: int)
    requires
        base <= base2,
        base2 - base <= buf.len(),
        sub == buf.subrange(base2 - base, buf.len() as int),
        nvs_ok(s, sub, base2, lo),
    ensures
        nvs_ok(s, buf, base, lo),
    decreases s, 1int,
{
    if s.len() > 0 {
        lemma_nv_ok_widen(s[0], buf, base, sub, base2, lo);
        lemma_nvs_ok_widen(s.drop_first(), buf, base, sub, base2, lo + nv_data_len(s[0]));
    }
}

/// A leaf over the next `n` bytes meets the guarantee.
proof fn lemma_leaf_ok(st: StateV, n: int)
    requires
        st.wf(),
        0 <= n <= st.input.len(),
    ensures
        leaf_result(st, n) matches Some(res) ==> result_ok(st, res) && res.state.wf(),
{
    let res = leaf_result(st, n)->Some_0;
    let leaf = res.nodes[0];
    assert(res.nodes.len() == 1);
    assert(res.nodes.drop_first() =~= Seq::<NodeV>::empty());
    assert(st.input.take(n) =~= st.input.subrange(st.offset - st.offset, st.offset + n - st.offset));
    assert(leaf.end == st.offset + st.input.take(n).len());
    assert(nv_ok(leaf, st.input, st.offset, st.offset));
    assert(nvs_data_len(res.nodes) == nv_data_len(leaf) + nvs_data_len(res.nodes.drop_first()));
    assert(nvs_data_len(res.nodes) == n);
    assert(nvs_ok(res.nodes.drop_first(), st.input, st.offset, st.offset + nv_data_len(leaf)));
    assert(nvs_ok(res.nodes, st.input, st.offset, st.offset));
    assert(st.offset <= res.state.offset);
    assert(res.state.offset - st.offset <= st.input.len());
    assert(res.state.input == st.input.subrange(
        res.state.offset - st.offset,
        st.input.len() as int,
    ));
    assert(res.state.wf());
}

/// Wrapping preserves the guarantee: the parent's span is its children's,
/// and the leaves beneath it are unchanged.
pub proof fn lemma_wrap_ok(name: Seq<char>, nodes: Seq<NodeV>, buf: Seq<u8>, base: int, lo: int)
    requires
        nvs_ok(nodes, buf, base, lo),
    ensures
        nv_ok(wrap_node(name, nodes), buf, base, lo),
        nv_data_len(wrap_node(name, nodes)) == nvs_data_len(nodes),
        nvs_ok(seq![wrap_node(name, nodes)], buf, base, lo),
        nvs_data_len(seq![wrap_node(name, nodes)]) == nvs_data_len(nodes),
{
    let w = wrap_node(name, nodes);
    if nodes.len() == 1 && nodes[0].name.len() == 0 {
        assert(nv_ok(nodes[0], buf, base, lo));
        assert(nvs_data_len(nodes) == nv_data_len(nodes[0]) + nvs_data_len(
            nodes.drop_first(),
        ));
        assert(nodes.drop_first() =~= Seq::<NodeV>::empty());
    }
    assert(nv_ok(w, buf, base, lo));
    assert(seq![w][0] == w);
    assert(seq![w].drop_first() =~= Seq::<NodeV>::empty());
    assert(nvs_data_len(seq![w]) == nv_data_len(w) + nvs_data_len(Seq::<NodeV>::empty()));
    assert(nvs_ok(seq![w].drop_first(), buf, base, lo + nv_data_len(w)));
    assert(nvs_ok(seq![w], buf, base, lo));
}

/// Soundness of the interpreter: every successful application meets
/// [`result_ok`].  This is the quantified form of three of the library's
/// stated invariants: the offset advances by exactly the width of the
/// produced `Data` leaves; a `Data` leaf's bytes are the input slice at
/// its span; and a `Children` node spans from its first child's start to
/// its last child's end.
pub proof fn lemma_apply_v_ok(e: ExprV, st: StateV)
    requires
        st.wf(),
    ensures
        apply_v(e, st) matches Some(res) ==> result_ok(st, res) && res.state.wf(),
    decreases e, st.input.len(), 0int,
{
    match e {
        ExprV::Literal(text) => {
            if st.input.len() >= text.len() && st.input.take(text.len() as int) == text {
                lemma_leaf_ok(st, text.len() as int);
                assert(apply_v(e, st) == leaf_result(st, text.len() as int));
            } else {
                assert(apply_v(e, st) is None);
            }
        },
        ExprV::CharClass(cv) => {
            if class_apply(cv, st) is Some {
                lemma_read_len(st);
                match spec_readCodepoint(st.input) {
                    Some(ch) => {
                        if in_class(cv, ch as u32) {
                            lemma_leaf_ok(st, spec_codepointLen(st.input));
                        } else {
                            lemma_leaf_ok(st, 1);
                        }
                    },
                    None => {
                        lemma_leaf_ok(st, 1);
                    },
                }
            }
        },
        ExprV::Dot => {
            if dot_apply(st) is Some {
                lemma_read_len(st);
                match spec_readCodepoint(st.input) {
                    Some(_) => {
                        lemma_leaf_ok(st, spec_codepointLen(st.input));
                    },
                    None => {
                        lemma_leaf_ok(st, 1);
                    },
                }
            }
        },
        ExprV::NotEx(inner) => {
            lemma_empty_ok(st);
        },
        ExprV::And(inner) => {
            lemma_empty_ok(st);
        },
        ExprV::OptionEx(inner) => {
            lemma_apply_v_ok(*inner, st);
            lemma_empty_ok(st);
        },
        ExprV::Star(inner) => {
            lemma_star_v_ok(*inner, st);
        },
        ExprV::Plus(inner) => {
            lemma_apply_v_ok(*inner, st);
            match apply_v(*inner, st) {
                Some(r) => {
                    if r.state.input.len() < st.input.len() {
                        lemma_star_v_ok(*inner, r.state);
                        let rest = star_v(*inner, r.state);
                        lemma_chain_ok(st, r, rest);
                    }
                },
                None => {},
            }
        },
        ExprV::Or(alts) => {
            lemma_or_v_ok(alts, st);
        },
        ExprV::Sequence(items) => {
            lemma_seq_v_ok(items, st);
        },
        ExprV::Fuse(inner) => {
            lemma_apply_v_ok(*inner, st);
            match apply_v(*inner, st) {
                Some(r) => {
                    lemma_leaf_ok(st, r.state.offset - st.offset);
                },
                None => {},
            }
        },
        ExprV::WrapEx(name, inner) => {
            lemma_apply_v_ok(*inner, st);
            match apply_v(*inner, st) {
                Some(r) => {
                    lemma_wrap_ok(name, r.nodes, st.input, st.offset, st.offset);
                },
                None => {},
            }
        },
    }
}

/// An empty success meets the guarantee.
proof fn lemma_empty_ok(st: StateV)
    requires
        st.wf(),
    ensures
        empty_result(st) matches Some(res) ==> result_ok(st, res) && res.state.wf(),
{
    assert(st.input.subrange(0, st.input.len() as int) =~= st.input);
}

/// Where a codepoint can be read, its byte length fits in the input.
proof fn lemma_read_len(st: StateV)
    ensures
        spec_readCodepoint(st.input) is Some ==> 1 <= spec_codepointLen(st.input)
            <= st.input.len(),
{
}

/// Gluing two consecutive well-formed results into one.
pub proof fn lemma_chain_ok(st: StateV, r: ResultV, rest: ResultV)
    requires
        st.wf(),
        result_ok(st, r),
        result_ok(r.state, rest),
    ensures
        result_ok(st, ResultV { nodes: r.nodes + rest.nodes, state: rest.state }),
        rest.state.wf(),
{
    assert(rest.state.input =~= st.input.subrange(
        rest.state.offset - st.offset,
        st.input.len() as int,
    ));
    lemma_nvs_data_len_concat(r.nodes, rest.nodes);
    lemma_nvs_ok_widen(
        rest.nodes,
        st.input,
        st.offset,
        r.state.input,
        r.state.offset,
        r.state.offset,
    );
    lemma_nvs_ok_concat(r.nodes, rest.nodes, st.input, st.offset, st.offset);
}

proof fn lemma_star_v_ok(e: ExprV, st: StateV)
    requires
        st.wf(),
    ensures
        result_ok(st, star_v(e, st)),
        star_v(e, st).state.wf(),
    decreases e, st.input.len(), 1int,
{
    lemma_apply_v_ok(e, st);
    match apply_v(e, st) {
        None => {
            lemma_empty_ok(st);
        },
        Some(r) => {
            if r.state.input.len() < st.input.len() {
                lemma_star_v_ok(e, r.state);
                lemma_chain_ok(st, r, star_v(e, r.state));
            } else {
                lemma_empty_ok(st);
            }
        },
    }
}

proof fn lemma_or_v_ok(alts: Seq<ExprV>, st: StateV)
    requires
        st.wf(),
    ensures
        or_v(alts, st) matches Some(res) ==> result_ok(st, res) && res.state.wf(),
    decreases alts, st.input.len(), 0int,
{
    if alts.len() > 0 {
        lemma_apply_v_ok(alts[0], st);
        if apply_v(alts[0], st) is None {
            lemma_or_v_ok(alts.drop_first(), st);
        }
    }
}

/// A negative predicate succeeds exactly where the positive predicate on
/// the same inner matcher fails: applied to the same input, the two always
/// produce opposite outcomes.
pub proof fn lemma_not_and_opposite(e: ExprV, st: StateV)
    ensures
        apply_v(ExprV::NotEx(Box::new(e)), st) is Some <==> apply_v(
            ExprV::And(Box::new(e)),
            st,
        ) is None,
{
}

/// `Star` returns success on every state.
pub proof fn lemma_star_total(e: ExprV, st: StateV)
    ensures
        apply_v(ExprV::Star(Box::new(e)), st) is Some,
{
}

/// `Plus` succeeds at an input exactly where its inner matcher succeeds
/// there.
pub proof fn lemma_plus_iff(e: ExprV, st: StateV)
    ensures
        apply_v(ExprV::Plus(Box::new(e)), st) is Some <==> apply_v(e, st) is Some,
{
}


/// For every successful matcher application, the resulting offset never
/// precedes the starting one, and the distance between the two is exactly
/// the sum of `end - start` over the produced `Data` leaves; predicates,
/// which produce no leaves, advance by nothing.
pub proof fn lemma_offset_advance(e: ExprV, st: StateV)
    requires
        st.wf(),
    ensures
        apply_v(e, st) matches Some(res) ==> st.offset <= res.state.offset && nvs_data_len(
            res.nodes,
        ) == res.state.offset - st.offset,
{
    lemma_apply_v_ok(e, st);
}

/// Every node a matcher produces is well-formed over the input: a `Data`
/// node's bytes are exactly as long as its span and are the slice of the
/// input at that span, and a `Children` node starts at its first child's
/// start and ends at its last child's end.
pub proof fn lemma_nodes_wellformed(e: ExprV, st: StateV)
    requires
        st.wf(),
    ensures
        apply_v(e, st) matches Some(res) ==> nvs_ok(res.nodes, st.input, st.offset, st.offset),
{
    lemma_apply_v_ok(e, st);
}

proof fn lemma_seq_v_ok(items: Seq<ExprV>, st: StateV)
    requires
        st.wf(),
    ensures
        seq_v(items, st) matches Some(res) ==> result_ok(st, res) && res.state.wf(),
    decreases items, st.input.len(), 0int,
{
    if items.len() == 0 {
        lemma_empty_ok(st);
    } else {
        lemma_apply_v_ok(items[0], st);
        match apply_v(items[0], st) {
            None => {},
            Some(r) => {
                lemma_seq_v_ok(items.drop_first(), r.state);
                match seq_v(items.drop_first(), r.state) {
                    None => {},
                    Some(rest) => {
                        lemma_chain_ok(st, r, rest);
                    },
                }
            },
        }
    }
}

// ===== The executable matchers =====
/// The uniform contract every matcher meets: applying it returns exactly
/// what the specification interpreter says its image yields, and any new
/// state stays within machine limits.
pub trait Expression {
    /// The mathematical image of this matcher.
    spec fn exprv(&self) -> ExprV;

    fn apply<'a>(&self, parse_state: &ParseState<'a>) -> (r: Option<ParseResult<'a>>)
        requires
            parse_state@.wf(),
        ensures
            outcome_view(r) == apply_v(self.exprv(), parse_state@),
            r matches Some(res) ==> res.parse_state@.wf(),
    ;
}

impl Literal {
    pub fn new(text: &'static [u8]) -> (r: Literal)
        ensures
            r.text == text,
    {
        Literal { text }
    }

    pub fn apply<'a>(&self, parse_state: &ParseState<'a>) -> (r: Option<ParseResult<'a>>)
        requires
            parse_state@.wf(),
        ensures
            outcome_view(r) == apply_v(ExprV::Literal(self.text@), parse_state@),
            r matches Some(res) ==> res.parse_state@.wf(),
    {
        let n = self.text.len();
        if parse_state.input.len() < n {
            return None;
        }
        let mut i: usize = 0;
        while i < n
            invariant
                i <= n,
                n == self.text@.len(),
                n <= parse_state.input@.len(),
                forall|k: int| 0 <= k < i ==> parse_state.input@[k] == self.text@[k],
            decreases n - i,
        {
            if parse_state.input[i] != self.text[i] {
                proof {
                    assert(parse_state.input@.take(n as int)[i as int] != self.text@[i as int]);
                }
                return None;
            }
            i += 1;
        }
        proof {
            assert(parse_state.input@.take(n as int) =~= self.text@);
        }
        let r = parse_state.offsetToResult(parse_state.offset + n);
        proof {
            assert(outcome_view(r) =~~= leaf_result(parse_state@, n as int));
        }
        r
    }
}

impl Expression for Literal {
    open spec fn exprv(&self) -> ExprV {
        ExprV::Literal(self.text@)
    }

    fn apply<'a>(&self, parse_state: &ParseState<'a>) -> (r: Option<ParseResult<'a>>) {
        Literal::apply(self, parse_state)
    }
}

/// Scans a byte string into codepoints, falling back to raw octets where
/// no codepoint can be read.
fn toU32Vector(input: &[u8]) -> (r: Vec<u32>)
    ensures
        r@ == spec_toU32s(input@),
{
    let mut out: Vec<u32> = Vec::new();
    let mut i: usize = 0;
    proof {
        assert(input@.skip(0) =~= input@);
    }
    while i < input.len()
        invariant
            i <= input.len(),
            spec_toU32s(input@) =~= out@ + spec_toU32s(input@.skip(i as int)),
        decreases input.len() - i,
    {
        let ghost pre = out@;
        let ghost suffix = input@.skip(i as int);
        let b = input[i];
        let tail = vstd::slice::slice_subrange(input, i, input.len());
        assert(tail@ == suffix);
        assert(suffix[0] == b);
        let mut step: usize = 1;
        match crate::unicode::bytesFollowing(b) {
            Some(k) => {
                if k > 0 {
                    match crate::unicode::readCodepoint(tail) {
                        Some(ch) => {
                            out.push(ch as u32);
                            step = k + 1;
                            proof {
                                assert(spec_codepointLen(suffix) == k + 1);
                            }
                        },
                        None => {
                            out.push(b as u32);
                        },
                    }
                } else {
                    out.push(b as u32);
                }
            },
            None => {
                out.push(b as u32);
            },
        }
        proof {
            let head = out@[out@.len() - 1];
            assert(out@ =~= pre.push(head));
            assert(spec_toU32s(suffix) =~= seq![head] + spec_toU32s(suffix.skip(step as int)));
            assert(suffix.skip(step as int) =~= input@.skip(i + step));
            assert(pre.push(head) =~= pre + seq![head]);
        }
        i += step;
    }
    proof {
        assert(input@.skip(input@.len() as int) =~= Seq::<u8>::empty());
    }
    out
}

impl CharClass {
    /// Parses the inner content of square brackets, so for `[a-z]`, send
    /// `a-z`.
    pub fn new(contents: &[u8]) -> (r: CharClass)
        ensures
            class_view(r) == spec_classOf(spec_toU32s(contents@)),
    {
        let chars = toU32Vector(contents);
        let mut single_chars: Vec<u32> = Vec::new();
        let mut ranges: Vec<(u32, u32)> = Vec::new();
        let mut index: usize = 0;
        proof {
            assert(chars@.skip(0) =~= chars@);
        }
        while index < chars.len()
            invariant
                index <= chars.len(),
                spec_classOf(chars@).singles =~= single_chars@ + spec_classOf(
                    chars@.skip(index as int),
                ).singles,
                spec_classOf(chars@).ranges =~= ranges@ + spec_classOf(
                    chars@.skip(index as int),
                ).ranges,
            decreases chars.len() - index,
        {
            let ghost suffix = chars@.skip(index as int);
            if chars.len() >= 3 && index <= chars.len() - 3 && chars[index + 1] == 45 {
                ranges.push((chars[index], chars[index + 2]));
                proof {
                    assert(suffix.len() >= 3 && suffix[1] == 45u32);
                    assert(suffix.skip(3) =~= chars@.skip(index + 3));
                }
                index += 3;
            } else {
                single_chars.push(chars[index]);
                proof {
                    assert(!(suffix.len() >= 3 && suffix[1] == 45u32));
                    assert(suffix.skip(1) =~= chars@.skip(index + 1));
                }
                index += 1;
            }
        }
        proof {
            assert(chars@.skip(chars@.len() as int) =~= Seq::<u32>::empty());
        }
        let r = CharClass { single_chars, ranges };
        proof {
            assert(class_view(r) =~~= spec_classOf(spec_toU32s(contents@)));
        }
        r
    }

    /// Membership test against the class's singletons and ranges.
    fn matches(&self, character: u32) -> (r: bool)
        ensures
            r == in_class(class_view(*self), character),
    {
        let mut i: usize = 0;
        while i < self.single_chars.len()
            invariant
                i <= self.single_chars@.len(),
                forall|k: int| 0 <= k < i ==> self.single_chars@[k] != character,
            decreases self.single_chars@.len() - i,
        {
            if self.single_chars[i] == character {
                return true;
            }
            i += 1;
        }
        let mut j: usize = 0;
        while j < self.ranges.len()
            invariant
                j <= self.ranges@.len(),
                forall|k: int|
                    0 <= k < j ==> !((#[trigger] self.ranges@[k]).0 <= character
                        && self.ranges@[k].1 >= character),
                forall|k: int| 0 <= k < self.single_chars@.len()
                    ==> self.single_chars@[k] != character,
            decreases self.ranges@.len() - j,
        {
            let (from, to) = self.ranges[j];
            if from <= character && character <= to {
                proof {
                    assert((class_view(*self).ranges[j as int]).0 <= character
                        && class_view(*self).ranges[j as int].1 >= character);
                }
                return true;
            }
            j += 1;
        }
        proof {
            assert(!class_view(*self).singles.contains(character));
        }
        false
    }

    fn applyToUtf8<'a>(&self, parse_state: &ParseState<'a>) -> (r: Option<ParseResult<'a>>)
        requires
            parse_state@.wf(),
        ensures
            outcome_view(r) == (match spec_readCodepoint(parse_state.input@) {
                Some(ch) => if in_class(class_view(*self), ch as u32) {
                    leaf_result(parse_state@, spec_codepointLen(parse_state.input@))
                } else {
                    None
                },
                None => None,
            }),
            r matches Some(res) ==> res.parse_state@.wf(),
    {
        match crate::unicode::readCodepoint(parse_state.input) {
            Some(ch) => {
                if self.matches(ch as u32) {
                    proof {
                        lemma_read_len(parse_state@);
                    }
                    let k = match crate::unicode::bytesFollowing(parse_state.input[0]) {
                        Some(k) => k,
                        None => 0,
                    };
                    let r = parse_state.offsetToResult(parse_state.offset + k + 1);
                    proof {
                        assert(outcome_view(r) =~~= leaf_result(
                            parse_state@,
                            spec_codepointLen(parse_state.input@),
                        ));
                    }
                    r
                } else {
                    None
                }
            },
            None => None,
        }
    }

    fn applyToBytes<'a>(&self, parse_state: &ParseState<'a>) -> (r: Option<ParseResult<'a>>)
        requires
            parse_state@.wf(),
        ensures
            outcome_view(r) == (if parse_state.input@.len() >= 1 && in_class(
                class_view(*self),
                parse_state.input@[0] as u32,
            ) {
                leaf_result(parse_state@, 1)
            } else {
                None
            }),
            r matches Some(res) ==> res.parse_state@.wf(),
    {
        if parse_state.input.len() >= 1 && self.matches(parse_state.input[0] as u32) {
            let r = parse_state.offsetToResult(parse_state.offset + 1);
            proof {
                assert(outcome_view(r) =~~= leaf_result(parse_state@, 1));
            }
            r
        } else {
            None
        }
    }

    pub fn apply<'a>(&self, parse_state: &ParseState<'a>) -> (r: Option<ParseResult<'a>>)
        requires
            parse_state@.wf(),
        ensures
            outcome_view(r) == apply_v(ExprV::CharClass(class_view(*self)), parse_state@),
            r matches Some(res) ==> res.parse_state@.wf(),
    {
        match self.applyToUtf8(parse_state) {
            Some(res) => Some(res),
            None => self.applyToBytes(parse_state),
        }
    }
}

impl Expression for CharClass {
    open spec fn exprv(&self) -> ExprV {
        ExprV::CharClass(class_view(*self))
    }

    fn apply<'a>(&self, parse_state: &ParseState<'a>) -> (r: Option<ParseResult<'a>>) {
        CharClass::apply(self, parse_state)
    }
}

impl Dot {
    pub fn apply<'a>(&self, parse_state: &ParseState<'a>) -> (r: Option<ParseResult<'a>>)
        requires
            parse_state@.wf(),
        ensures
            outcome_view(r) == apply_v(ExprV::Dot, parse_state@),
            r matches Some(res) ==> res.parse_state@.wf(),
    {
        match crate::unicode::readCodepoint(parse_state.input) {
            Some(_) => {
                proof {
                    lemma_read_len(parse_state@);
                }
                let k = match crate::unicode::bytesFollowing(parse_state.input[0]) {
                    Some(k) => k,
                    None => 0,
                };
                let r = parse_state.offsetToResult(parse_state.offset + k + 1);
                proof {
                    assert(outcome_view(r) =~~= leaf_result(
                        parse_state@,
                        spec_codepointLen(parse_state.input@),
                    ));
                }
                r
            },
            None => {
                if parse_state.input.len() >= 1 {
                    let r = parse_state.offsetToResult(parse_state.offset + 1);
                    proof {
                        assert(outcome_view(r) =~~= leaf_result(parse_state@, 1));
                    }
                    r
                } else {
                    None
                }
            },
        }
    }
}

impl Expression for Dot {
    open spec fn exprv(&self) -> ExprV {
        ExprV::Dot
    }

    fn apply<'a>(&self, parse_state: &ParseState<'a>) -> (r: Option<ParseResult<'a>>) {
        Dot::apply(self, parse_state)
    }
}

// ===== Combinator execution =====
/// Prefixing accumulated nodes onto an outcome.
pub open spec fn seq_comp(acc: Seq<NodeV>, tail: Option<ResultV>) -> Option<ResultV> {
    match tail {
        None => None,
        Some(t) => Some(ResultV { nodes: acc + t.nodes, state: t.state }),
    }
}

proof fn lemma_seq_comp_empty(tail: Option<ResultV>)
    ensures
        seq_comp(Seq::empty(), tail) == tail,
{
    match tail {
        Some(t) => {
            assert(Seq::empty() + t.nodes =~= t.nodes);
            assert(ResultV { nodes: Seq::empty() + t.nodes, state: t.state } =~~= t);
        },
        None => {},
    }
}

impl NotEx {
    pub fn new(expr: Expr) -> (r: NotEx)
        ensures
            *r.expr == expr,
    {
        NotEx { expr: Box::new(expr) }
    }

    pub fn apply<'a>(&self, parse_state: &ParseState<'a>) -> (r: Option<ParseResult<'a>>)
        requires
            parse_state@.wf(),
        ensures
            outcome_view(r) == apply_v(
                ExprV::NotEx(Box::new(expr_view(*self.expr))),
                parse_state@,
            ),
            r matches Some(res) ==> res.parse_state@.wf(),
        decreases *self, 0int,
    {
        proof {
            assert(decreases_to!(*self => self.expr));
        }
        match self.expr.apply(parse_state) {
            Some(_) => None,
            None => Some(ParseResult::fromParseState(*parse_state)),
        }
    }
}

impl And {
    pub fn new(expr: Expr) -> (r: And)
        ensures
            *r.expr == expr,
    {
        And { expr: Box::new(expr) }
    }

    pub fn apply<'a>(&self, parse_state: &ParseState<'a>) -> (r: Option<ParseResult<'a>>)
        requires
            parse_state@.wf(),
        ensures
            outcome_view(r) == apply_v(
                ExprV::And(Box::new(expr_view(*self.expr))),
                parse_state@,
            ),
            r matches Some(res) ==> res.parse_state@.wf(),
        decreases *self, 0int,
    {
        proof {
            assert(decreases_to!(*self => self.expr));
        }
        match self.expr.apply(parse_state) {
            Some(_) => Some(ParseResult::fromParseState(*parse_state)),
            None => None,
        }
    }
}

impl OptionEx {
    pub fn new(expr: Expr) -> (r: OptionEx)
        ensures
            *r.expr == expr,
    {
        OptionEx { expr: Box::new(expr) }
    }

    pub fn apply<'a>(&self, parse_state: &ParseState<'a>) -> (r: Option<ParseResult<'a>>)
        requires
            parse_state@.wf(),
        ensures
            outcome_view(r) == apply_v(
                ExprV::OptionEx(Box::new(expr_view(*self.expr))),
                parse_state@,
            ),
            r matches Some(res) ==> res.parse_state@.wf(),
        decreases *self, 0int,
    {
        proof {
            assert(decreases_to!(*self => self.expr));
        }
        match self.expr.apply(parse_state) {
            Some(res) => Some(res),
            None => Some(ParseResult::fromParseState(*parse_state)),
        }
    }
}

/// The star loop over an inner matcher, shared by `Star` and `Plus`:
/// applies the matcher as long as it succeeds and consumes something.
fn star_from<'a>(e: &Expr, parse_state: &ParseState<'a>) -> (r: ParseResult<'a>)
    requires
        parse_state@.wf(),
    ensures
        r@ == star_v(expr_view(*e), parse_state@),
        r.parse_state@.wf(),
    decreases *e, 2int,
{
    let ghost ev = expr_view(*e);
    let mut nodes: Vec<Node> = Vec::new();
    let mut state: ParseState<'a> = *parse_state;
    proof {
        assert(nodes_view(nodes@) =~= Seq::<NodeV>::empty());
        assert(star_v(ev, parse_state@).nodes =~= nodes_view(nodes@) + star_v(
            ev,
            state@,
        ).nodes);
    }
    loop
        invariant
            state@.wf(),
            ev == expr_view(*e),
            star_v(ev, parse_state@).nodes =~= nodes_view(nodes@) + star_v(ev, state@).nodes,
            star_v(ev, parse_state@).state == star_v(ev, state@).state,
        ensures
            star_v(ev, parse_state@).nodes =~= nodes_view(nodes@),
            star_v(ev, parse_state@).state == state@,
            state@.wf(),
        decreases state.input@.len(),
    {
        match e.apply(&state) {
            Some(res) => {
                if res.parse_state.input.len() < state.input.len() {
                    proof {
                        let next = star_v(ev, res.parse_state@);
                        assert(star_v(ev, state@).nodes == res@.nodes + next.nodes);
                        assert(star_v(ev, state@).state == next.state);
                        crate::node::lemma_nodes_view_concat(nodes@, res.nodes@);
                        assert((nodes_view(nodes@) + res@.nodes) + next.nodes
                            =~= nodes_view(nodes@) + (res@.nodes + next.nodes));
                    }
                    let mut res = res;
                    nodes.append(&mut res.nodes);
                    state = res.parse_state;
                } else {
                    proof {
                        assert(star_v(ev, state@).nodes =~= Seq::<NodeV>::empty());
                        assert(nodes_view(nodes@) + Seq::<NodeV>::empty() =~= nodes_view(
                            nodes@,
                        ));
                    }
                    break;
                }
            },
            None => {
                proof {
                    assert(star_v(ev, state@).nodes =~= Seq::<NodeV>::empty());
                    assert(nodes_view(nodes@) + Seq::<NodeV>::empty() =~= nodes_view(nodes@));
                }
                break;
            },
        }
    }
    ParseResult { nodes, parse_state: state }
}

impl Star {
    pub fn new(expr: Expr) -> (r: Star)
        ensures
            *r.expr == expr,
    {
        Star { expr: Box::new(expr) }
    }

    pub fn apply<'a>(&self, parse_state: &ParseState<'a>) -> (r: Option<ParseResult<'a>>)
        requires
            parse_state@.wf(),
        ensures
            outcome_view(r) == apply_v(
                ExprV::Star(Box::new(expr_view(*self.expr))),
                parse_state@,
            ),
            r matches Some(res) ==> res.parse_state@.wf(),
        decreases *self, 0int,
    {
        proof {
            assert(decreases_to!(*self => self.expr));
        }
        let res = star_from(&self.expr, parse_state);
        proof {
            assert(res@ =~~= star_v(expr_view(*self.expr), parse_state@));
        }
        Some(res)
    }
}

impl Plus {
    pub fn new(expr: Expr) -> (r: Plus)
        ensures
            *r.expr == expr,
    {
        Plus { expr: Box::new(expr) }
    }

    pub fn apply<'a>(&self, parse_state: &ParseState<'a>) -> (r: Option<ParseResult<'a>>)
        requires
            parse_state@.wf(),
        ensures
            outcome_view(r) == apply_v(
                ExprV::Plus(Box::new(expr_view(*self.expr))),
                parse_state@,
            ),
            r matches Some(res) ==> res.parse_state@.wf(),
        decreases *self, 0int,
    {
        proof {
            assert(decreases_to!(*self => self.expr));
        }
        match self.expr.apply(parse_state) {
            None => None,
            Some(res) => {
                if res.parse_state.input.len() < parse_state.input.len() {
                    let mut rest = star_from(&self.expr, &res.parse_state);
                    let mut nodes = res.nodes;
                    proof {
                        crate::node::lemma_nodes_view_concat(nodes@, rest.nodes@);
                    }
                    nodes.append(&mut rest.nodes);
                    let out = ParseResult { nodes, parse_state: rest.parse_state };
                    proof {
                        assert(outcome_view(Some(out)) =~~= apply_v(
                            ExprV::Plus(Box::new(expr_view(*self.expr))),
                            parse_state@,
                        ));
                    }
                    Some(out)
                } else {
                    Some(res)
                }
            },
        }
    }
}

impl Or {
    pub fn new(exprs: Vec<Expr>) -> (r: Or)
        ensures
            r.exprs == exprs,
    {
        Or { exprs }
    }

    pub fn apply<'a>(&self, parse_state: &ParseState<'a>) -> (r: Option<ParseResult<'a>>)
        requires
            parse_state@.wf(),
        ensures
            outcome_view(r) == apply_v(ExprV::Or(exprs_view(self.exprs@)), parse_state@),
            r matches Some(res) ==> res.parse_state@.wf(),
        decreases *self, 0int,
    {
        let ghost whole = exprs_view(self.exprs@);
        let mut i: usize = 0;
        proof {
            lemma_exprs_view_len(self.exprs@);
            assert(whole.skip(0) =~= whole);
        }
        while i < self.exprs.len()
            invariant
                i <= self.exprs@.len(),
                whole == exprs_view(self.exprs@),
                whole.len() == self.exprs@.len(),
                parse_state@.wf(),
                or_v(whole, parse_state@) == or_v(whole.skip(i as int), parse_state@),
            decreases self.exprs@.len() - i,
        {
            proof {
                assert(decreases_to!(*self => self.exprs));
                assert(decreases_to!(self.exprs => self.exprs@));
                assert(decreases_to!(self.exprs@ => self.exprs@[i as int]));
                lemma_exprs_view_index(self.exprs@, i as int);
                assert(whole.skip(i as int)[0] == whole[i as int]);
            }
            match self.exprs[i].apply(parse_state) {
                Some(res) => {
                    proof {
                        assert(or_v(whole.skip(i as int), parse_state@) == Some(res@));
                    }
                    return Some(res);
                },
                None => {
                    proof {
                        assert(whole.skip(i as int).drop_first() =~= whole.skip(i + 1));
                    }
                },
            }
            i += 1;
        }
        proof {
            assert(whole.skip(whole.len() as int) =~= Seq::<ExprV>::empty());
        }
        None
    }
}

impl Sequence {
    pub fn new(exprs: Vec<Expr>) -> (r: Sequence)
        ensures
            r.exprs == exprs,
    {
        Sequence { exprs }
    }

    pub fn apply<'a>(&self, parse_state: &ParseState<'a>) -> (r: Option<ParseResult<'a>>)
        requires
            parse_state@.wf(),
        ensures
            outcome_view(r) == apply_v(
                ExprV::Sequence(exprs_view(self.exprs@)),
                parse_state@,
            ),
            r matches Some(res) ==> res.parse_state@.wf(),
        decreases *self, 0int,
    {
        let ghost whole = exprs_view(self.exprs@);
        let mut nodes: Vec<Node> = Vec::new();
        let mut state: ParseState<'a> = *parse_state;
        let mut i: usize = 0;
        proof {
            lemma_exprs_view_len(self.exprs@);
            assert(whole.skip(0) =~= whole);
            lemma_seq_comp_empty(seq_v(whole, parse_state@));
            assert(nodes_view(nodes@) =~= Seq::<NodeV>::empty());
        }
        while i < self.exprs.len()
            invariant
                i <= self.exprs@.len(),
                whole == exprs_view(self.exprs@),
                whole.len() == self.exprs@.len(),
                state@.wf(),
                seq_v(whole, parse_state@) == seq_comp(
                    nodes_view(nodes@),
                    seq_v(whole.skip(i as int), state@),
                ),
            decreases self.exprs@.len() - i,
        {
            proof {
                assert(decreases_to!(*self => self.exprs));
                assert(decreases_to!(self.exprs => self.exprs@));
                assert(decreases_to!(self.exprs@ => self.exprs@[i as int]));
                lemma_exprs_view_index(self.exprs@, i as int);
                assert(whole.skip(i as int)[0] == whole[i as int]);
            }
            match self.exprs[i].apply(&state) {
                None => {
                    proof {
                        assert(seq_v(whole.skip(i as int), state@) is None);
                    }
                    return None;
                },
                Some(res) => {
                    proof {
                        assert(whole.skip(i as int).drop_first() =~= whole.skip(i + 1));
                        let tail = seq_v(whole.skip(i + 1), res.parse_state@);
                        match tail {
                            Some(rest) => {
                                assert(seq_v(whole.skip(i as int), state@) == Some(
                                    ResultV {
                                        nodes: res@.nodes + rest.nodes,
                                        state: rest.state,
                                    },
                                ));
                                assert(nodes_view(nodes@) + (res@.nodes + rest.nodes)
                                    =~= (nodes_view(nodes@) + res@.nodes) + rest.nodes);
                                assert(seq_comp(
                                    nodes_view(nodes@),
                                    seq_v(whole.skip(i as int), state@),
                                ) =~~= seq_comp(nodes_view(nodes@) + res@.nodes, tail));
                            },
                            None => {
                                assert(seq_v(whole.skip(i as int), state@) is None);
                            },
                        }
                        crate::node::lemma_nodes_view_concat(nodes@, res.nodes@);
                    }
                    let mut res = res;
                    nodes.append(&mut res.nodes);
                    state = res.parse_state;
                },
            }
            i += 1;
        }
        proof {
            assert(whole.skip(whole.len() as int) =~= Seq::<ExprV>::empty());
            assert(seq_v(whole, parse_state@) == seq_comp(
                nodes_view(nodes@),
                empty_result(state@),
            ));
            assert(nodes_view(nodes@) + Seq::<NodeV>::empty() =~= nodes_view(nodes@));
        }
        let out = ParseResult { nodes, parse_state: state };
        proof {
            assert(outcome_view(Some(out)) =~~= seq_v(whole, parse_state@));
        }
        Some(out)
    }
}

impl Fuse {
    pub fn new(expr: Expr) -> (r: Fuse)
        ensures
            *r.expr == expr,
    {
        Fuse { expr: Box::new(expr) }
    }

    pub fn apply<'a>(&self, parse_state: &ParseState<'a>) -> (r: Option<ParseResult<'a>>)
        requires
            parse_state@.wf(),
        ensures
            outcome_view(r) == apply_v(
                ExprV::Fuse(Box::new(expr_view(*self.expr))),
                parse_state@,
            ),
            r matches Some(res) ==> res.parse_state@.wf(),
        decreases *self, 0int,
    {
        proof {
            assert(decreases_to!(*self => self.expr));
        }
        match self.expr.apply(parse_state) {
            Some(res) => {
                proof {
                    lemma_apply_v_ok(expr_view(*self.expr), parse_state@);
                }
                let r = parse_state.offsetToResult(res.parse_state.offset);
                proof {
                    assert(outcome_view(r) =~~= leaf_result(
                        parse_state@,
                        res.parse_state@.offset - parse_state@.offset,
                    ));
                }
                r
            },
            None => None,
        }
    }
}

impl WrapEx {
    pub fn new(name: &'static str, expr: Expr) -> (r: WrapEx)
        ensures
            r.name == name,
            *r.expr == expr,
    {
        WrapEx { name, expr: Box::new(expr) }
    }

    pub fn apply<'a>(&self, parse_state: &ParseState<'a>) -> (r: Option<ParseResult<'a>>)
        requires
            parse_state@.wf(),
        ensures
            outcome_view(r) == apply_v(
                ExprV::WrapEx(self.name@, Box::new(expr_view(*self.expr))),
                parse_state@,
            ),
            r matches Some(res) ==> res.parse_state@.wf(),
        decreases *self, 0int,
    {
        proof {
            assert(decreases_to!(*self => self.expr));
        }
        match self.expr.apply(parse_state) {
            Some(res) => {
                let node = crate::node::Node::withChildren(self.name, res.nodes);
                let out = ParseResult::oneNode(node, res.parse_state);
                proof {
                    assert(outcome_view(Some(out)) =~~= apply_v(
                        ExprV::WrapEx(self.name@, Box::new(expr_view(*self.expr))),
                        parse_state@,
                    ));
                }
                Some(out)
            },
            None => None,
        }
    }
}

impl Expr {
    /// Applies whatever matcher this is.
    pub fn apply<'a>(&self, parse_state: &ParseState<'a>) -> (r: Option<ParseResult<'a>>)
        requires
            parse_state@.wf(),
        ensures
            outcome_view(r) == apply_v(expr_view(*self), parse_state@),
            r matches Some(res) ==> res.parse_state@.wf(),
        decreases *self, 1int,
    {
        match self {
            Expr::Literal(x) => x.apply(parse_state),
            Expr::CharClass(x) => x.apply(parse_state),
            Expr::Dot(x) => x.apply(parse_state),
            Expr::NotEx(x) => x.apply(parse_state),
            Expr::And(x) => x.apply(parse_state),
            Expr::OptionEx(x) => x.apply(parse_state),
            Expr::Star(x) => x.apply(parse_state),
            Expr::Plus(x) => x.apply(parse_state),
            Expr::Or(x) => x.apply(parse_state),
            Expr::Sequence(x) => x.apply(parse_state),
            Expr::Fuse(x) => x.apply(parse_state),
            Expr::WrapEx(x) => x.apply(parse_state),
        }
    }
}

impl Expression for NotEx {
    open spec fn exprv(&self) -> ExprV {
        ExprV::NotEx(Box::new(expr_view(*self.expr)))
    }

    fn apply<'a>(&self, parse_state: &ParseState<'a>) -> (r: Option<ParseResult<'a>>) {
        NotEx::apply(self, parse_state)
    }
}

impl Expression for And {
    open spec fn exprv(&self) -> ExprV {
        ExprV::And(Box::new(expr_view(*self.expr)))
    }

    fn apply<'a>(&self, parse_state: &ParseState<'a>) -> (r: Option<ParseResult<'a>>) {
        And::apply(self, parse_state)
    }
}

impl Expression for OptionEx {
    open spec fn exprv(&self) -> ExprV {
        ExprV::OptionEx(Box::new(expr_view(*self.expr)))
    }

    fn apply<'a>(&self, parse_state: &ParseState<'a>) -> (r: Option<ParseResult<'a>>) {
        OptionEx::apply(self, parse_state)
    }
}

impl Expression for Star {
    open spec fn exprv(&self) -> ExprV {
        ExprV::Star(Box::new(expr_view(*self.expr)))
    }

    fn apply<'a>(&self, parse_state: &ParseState<'a>) -> (r: Option<ParseResult<'a>>) {
        Star::apply(self, parse_state)
    }
}

impl Expression for Plus {
    open spec fn exprv(&self) -> ExprV {
        ExprV::Plus(Box::new(expr_view(*self.expr)))
    }

    fn apply<'a>(&self, parse_state: &ParseState<'a>) -> (r: Option<ParseResult<'a>>) {
        Plus::apply(self, parse_state)
    }
}

impl Expression for Or {
    open spec fn exprv(&self) -> ExprV {
        ExprV::Or(exprs_view(self.exprs@))
    }

    fn apply<'a>(&self, parse_state: &ParseState<'a>) -> (r: Option<ParseResult<'a>>) {
        Or::apply(self, parse_state)
    }
}

impl Expression for Sequence {
    open spec fn exprv(&self) -> ExprV {
        ExprV::Sequence(exprs_view(self.exprs@))
    }

    fn apply<'a>(&self, parse_state: &ParseState<'a>) -> (r: Option<ParseResult<'a>>) {
        Sequence::apply(self, parse_state)
    }
}

impl Expression for Fuse {
    open spec fn exprv(&self) -> ExprV {
        ExprV::Fuse(Box::new(expr_view(*self.expr)))
    }

    fn apply<'a>(&self, parse_state: &ParseState<'a>) -> (r: Option<ParseResult<'a>>) {
        Fuse::apply(self, parse_state)
    }
}

impl Expression for WrapEx {
    open spec fn exprv(&self) -> ExprV {
        ExprV::WrapEx(self.name@, Box::new(expr_view(*self.expr)))
    }

    fn apply<'a>(&self, parse_state: &ParseState<'a>) -> (r: Option<ParseResult<'a>>) {
        WrapEx::apply(self, parse_state)
    }
}

impl Expression for Expr {
    open spec fn exprv(&self) -> ExprV {
        expr_view(*self)
    }

    fn apply<'a>(&self, parse_state: &ParseState<'a>) -> (r: Option<ParseResult<'a>>) {
        Expr::apply(self, parse_state)
    }
}

} // verus!
