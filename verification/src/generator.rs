//! The emitter: turns a parsed PEG grammar tree into target source text.
//!
//! Translation is by node-name dispatch over the tree.  A definition
//! becomes a rule declaration, slash-separated sequences an ordered
//! choice, and so on; literal and class contents are run through the
//! escape decoder and re-escaped into target-literal syntax.  The output
//! is bytes, so that grammars whose literals denote non-textual bytes can
//! still be emitted.
//!
//! Where the original input tree is malformed (a shape no parse
//! produces), the emitter falls back to emitting the node's contents
//! rather than stopping; a literal or class whose contents would trip the
//! decoder's fatal cases is likewise passed through undecoded.
use crate::node::{ContentsV, Node, NodeContents, NodeV, node_view, nodes_view};
use crate::unescape::{
    escapeLiteral, spec_escapeLiteral, spec_unescape, spec_unescapeWf, unescape,
};
use vstd::prelude::*;
use vstd::utf8::encode_utf8;

verus! {

broadcast use vstd::std_specs::vec::group_vec_axioms, vstd::seq::group_seq_axioms;

// ===== Small text helpers =====
/// String equality over views.
fn strEq(a: &str, b: &str) -> (r: bool)
    ensures
        r == (a@ == b@),
{
    broadcast use vstd::utf8::encode_utf8_decode_utf8;

    let ab = a.as_bytes();
    let bb = b.as_bytes();
    if ab.len() != bb.len() {
        return false;
    }
    let mut i: usize = 0;
    while i < ab.len()
        invariant
            i <= ab@.len(),
            ab@.len() == bb@.len(),
            ab@ == encode_utf8(a@),
            bb@ == encode_utf8(b@),
            forall|k: int| 0 <= k < i ==> ab@[k] == bb@[k],
        decreases ab@.len() - i,
    {
        if ab[i] != bb[i] {
            return false;
        }
        i += 1;
    }
    proof {
        assert(ab@ =~= bb@);
        vstd::utf8::encode_utf8_decode_utf8(a@);
        vstd::utf8::encode_utf8_decode_utf8(b@);
    }
    true
}

/// Appends the bytes of a string constant.
fn pushStr(out: &mut Vec<u8>, s: &'static str)
    ensures
        final(out)@ == old(out)@ + encode_utf8(s@),
{
    let mut v = vstd::slice::slice_to_vec(s.as_bytes());
    out.append(&mut v);
}

/// ASCII letters lowered, other bytes unchanged.
pub open spec fn spec_lowerByte(b: u8) -> u8 {
    if 65 <= b <= 90 {
        (b + 32) as u8
    } else {
        b
    }
}

pub open spec fn spec_asciiLower(s: Seq<u8>) -> Seq<u8> {
    Seq::new(s.len(), |i: int| spec_lowerByte(s[i]))
}

fn asciiLower(input: &[u8]) -> (r: Vec<u8>)
    ensures
        r@ == spec_asciiLower(input@),
{
    let mut out: Vec<u8> = Vec::new();
    let mut i: usize = 0;
    while i < input.len()
        invariant
            i <= input@.len(),
            out@.len() == i,
            forall|k: int| 0 <= k < i ==> out@[k] == spec_lowerByte(input@[k]),
        decreases input@.len() - i,
    {
        let b = input[i];
        if 65 <= b && b <= 90 {
            out.push(b + 32);
        } else {
            out.push(b);
        }
        i += 1;
    }
    proof {
        assert(out@ =~= spec_asciiLower(input@));
    }
    out
}

/// Every occurrence of a pattern replaced, scanning left to right.
pub open spec fn spec_replace(s: Seq<u8>, pat: Seq<u8>, rep: Seq<u8>) -> Seq<u8>
    decreases s.len(),
    when pat.len() >= 1
{
    if s.len() == 0 {
        Seq::empty()
    } else if s.len() >= pat.len() && s.take(pat.len() as int) == pat {
        rep + spec_replace(s.skip(pat.len() as int), pat, rep)
    } else {
        seq![s[0]] + spec_replace(s.skip(1), pat, rep)
    }
}

/// Replaces every occurrence of `pat` in `s` by `rep`.
fn replaceAll(s: &Vec<u8>, pat: &[u8], rep: &[u8]) -> (r: Vec<u8>)
    requires
        pat@.len() >= 1,
    ensures
        r@ == spec_replace(s@, pat@, rep@),
{
    let mut out: Vec<u8> = Vec::new();
    let mut i: usize = 0;
    proof {
        assert(s@.skip(0) =~= s@);
    }
    while i < s.len()
        invariant
            i <= s@.len(),
            pat@.len() >= 1,
            spec_replace(s@, pat@, rep@) =~= out@ + spec_replace(
                s@.skip(i as int),
                pat@,
                rep@,
            ),
        decreases s@.len() - i,
    {
        let ghost suffix = s@.skip(i as int);
        let remaining = s.len() - i;
        let mut hit = remaining >= pat.len();
        if hit {
            let mut k: usize = 0;
            while k < pat.len()
                invariant
                    k <= pat@.len(),
                    pat@.len() <= s@.len() - i,
                    i <= s@.len(),
                    s@.len() <= usize::MAX,
                    hit ==> forall|j: int| 0 <= j < k ==> s@[i + j] == pat@[j],
                    !hit ==> exists|j: int|
                        0 <= j < pat@.len() && s@[i + j] != pat@[j],
                decreases pat@.len() - k,
            {
                proof {
                    assert(i + k < s@.len());
                }
                if s[i + k] != pat[k] {
                    hit = false;
                    proof {
                        assert(s@[i + k] != pat@[k as int]);
                    }
                }
                k += 1;
            }
            proof {
                if hit {
                    assert forall|j: int| 0 <= j < pat@.len() implies suffix.take(
                        pat@.len() as int,
                    )[j] == pat@[j] by {
                        assert(suffix[j] == s@[i + j]);
                    }
                    assert(suffix.take(pat@.len() as int) =~= pat@);
                } else {
                    let j = choose|j: int| 0 <= j < pat@.len() && s@[i + j] != pat@[j];
                    assert(suffix.take(pat@.len() as int)[j] != pat@[j]);
                    assert(suffix.take(pat@.len() as int) != pat@);
                }
            }
        }
        if hit {
            let ghost pre = out@;
            let mut v = vstd::slice::slice_to_vec(rep);
            out.append(&mut v);
            proof {
                assert(suffix.skip(pat@.len() as int) =~= s@.skip(i + pat@.len()));
                assert(spec_replace(suffix, pat@, rep@) =~= rep@ + spec_replace(
                    s@.skip(i + pat@.len()),
                    pat@,
                    rep@,
                ));
            }
            i += pat.len();
        } else {
            let b = s[i];
            out.push(b);
            proof {
                assert(suffix[0] == b);
                if suffix.len() >= pat@.len() {
                    assert(suffix.take(pat@.len() as int) != pat@);
                }
                assert(suffix.skip(1) =~= s@.skip(i + 1));
                assert(spec_replace(suffix, pat@, rep@) =~= seq![b] + spec_replace(
                    s@.skip(i + 1),
                    pat@,
                    rep@,
                ));
            }
            i += 1;
        }
    }
    proof {
        assert(s@.skip(s@.len() as int) =~= Seq::<u8>::empty());
    }
    out
}

/// Decodes escapes where they are well formed; otherwise keeps the bytes
/// as given, so that emission is total.
pub open spec fn spec_unescapeOrKeep(s: Seq<u8>) -> Seq<u8> {
    if spec_unescapeWf(s) {
        spec_unescape(s)
    } else {
        s
    }
}

/// Runtime check of the decoder's well-formedness condition.
fn unescapeWfCheck(input: &[u8]) -> (r: bool)
    ensures
        r == spec_unescapeWf(input@),
{
    let mut i: usize = 0;
    proof {
        assert(input@.skip(0) =~= input@);
    }
    while i < input.len()
        invariant
            i <= input.len(),
            spec_unescapeWf(input@) == spec_unescapeWf(input@.skip(i as int)),
        decreases input.len() - i,
    {
        let ghost suffix = input@.skip(i as int);
        let b = input[i];
        assert(suffix[0] == b);
        let remaining = input.len() - i;
        let mut step: usize = 1;
        if b != 92 {
        } else if remaining >= 6 && input[i + 1] == 117 && isHexB(input[i + 2]) && isHexB(
            input[i + 3],
        ) && isHexB(input[i + 4]) && isHexB(input[i + 5]) {
            proof {
                assert(suffix[1] == input@[i + 1]);
                assert(suffix[2] == input@[i + 2]);
                assert(suffix[3] == input@[i + 3]);
                assert(suffix[4] == input@[i + 4]);
                assert(suffix[5] == input@[i + 5]);
                assert(crate::unescape::spec_unicodeEscapeAt(suffix));
            }
            let code: u32 = hexValB(input[i + 2]) * 0x1000 + hexValB(input[i + 3]) * 0x100
                + hexValB(input[i + 4]) * 16 + hexValB(input[i + 5]);
            assert(code == crate::unescape::spec_unicodeVal(suffix));
            let scalar = (code < 0xD800) || (0xE000 <= code && code <= 0x10FFFF);
            if !scalar {
                proof {
                    assert(!spec_unescapeWf(suffix));
                }
                return false;
            }
            step = 6;
        } else if remaining >= 4 && input[i + 1] == 120 && isHexB(input[i + 2]) && isHexB(
            input[i + 3],
        ) {
            proof {
                assert(suffix[1] == input@[i + 1]);
                assert(suffix[2] == input@[i + 2]);
                assert(suffix[3] == input@[i + 3]);
                assert(!crate::unescape::spec_unicodeEscapeAt(suffix));
                assert(crate::unescape::spec_hexEscapeAt(suffix));
            }
            step = 4;
        } else if remaining >= 4 && isOctalB(input[i + 1]) && isOctalB(input[i + 2]) && isOctalB(
            input[i + 3],
        ) {
            proof {
                assert(suffix[1] == input@[i + 1]);
                assert(suffix[2] == input@[i + 2]);
                assert(suffix[3] == input@[i + 3]);
                assert(!crate::unescape::spec_unicodeEscapeAt(suffix));
                assert(!crate::unescape::spec_hexEscapeAt(suffix));
                assert(crate::unescape::spec_octalEscapeAt(suffix));
            }
            let v: u32 = ((input[i + 1] - 48) as u32) * 64 + ((input[i + 2] - 48) as u32) * 8 + ((
            input[i + 3] - 48) as u32);
            assert(v == crate::unescape::spec_octalVal(suffix));
            if v > 255 {
                proof {
                    assert(!spec_unescapeWf(suffix));
                }
                return false;
            }
            step = 4;
        } else if remaining >= 2 {
            proof {
                assert(suffix[1] == input@[i + 1]);
                assert(!crate::unescape::spec_unicodeEscapeAt(suffix));
                assert(!crate::unescape::spec_hexEscapeAt(suffix));
                assert(!crate::unescape::spec_octalEscapeAt(suffix));
            }
            step = 2;
        } else {
            proof {
                assert(suffix.len() == 1);
                assert(!crate::unescape::spec_unicodeEscapeAt(suffix));
                assert(!crate::unescape::spec_hexEscapeAt(suffix));
                assert(!crate::unescape::spec_octalEscapeAt(suffix));
                assert(spec_unescapeWf(suffix));
                assert(input@.skip(input@.len() as int) =~= Seq::<u8>::empty());
            }
            return true;
        }
        proof {
            assert(suffix.skip(step as int) =~= input@.skip(i + step));
        }
        i += step;
    }
    proof {
        assert(input@.skip(input@.len() as int) =~= Seq::<u8>::empty());
    }
    true
}

fn isHexB(b: u8) -> (r: bool)
    ensures
        r == crate::unescape::spec_isHex(b),
{
    (48 <= b && b <= 57) || (97 <= b && b <= 102) || (65 <= b && b <= 70)
}

fn isOctalB(b: u8) -> (r: bool)
    ensures
        r == crate::unescape::spec_isOctal(b),
{
    48 <= b && b <= 55
}

fn hexValB(b: u8) -> (r: u32)
    requires
        crate::unescape::spec_isHex(b),
    ensures
        r == crate::unescape::spec_hexVal(b),
        r < 16,
{
    if 48 <= b && b <= 57 {
        (b - 48) as u32
    } else if 97 <= b && b <= 102 {
        (b - 87) as u32
    } else {
        (b - 55) as u32
    }
}

fn unescapeOrKeep(input: &[u8]) -> (r: Vec<u8>)
    ensures
        r@ == spec_unescapeOrKeep(input@),
{
    if unescapeWfCheck(input) {
        unescape(input)
    } else {
        vstd::slice::slice_to_vec(input)
    }
}

// ===== The tree-to-source translation =====
/// The children of a node, or nothing for a leaf.
pub open spec fn children_of(n: NodeV) -> Seq<NodeV> {
    match n.contents {
        ContentsV::Children(c) => c,
        ContentsV::Data(_) => Seq::empty(),
    }
}

/// The code a node emits, by node-name dispatch.
pub open spec fn spec_codeForNode(n: NodeV) -> Seq<u8>
    decreases n, 3int,
{
    if n.name == "Definition"@ {
        spec_definitionOutput(n)
    } else if n.name == "Expression"@ {
        spec_expressionOutput(n)
    } else if n.name == "Sequence"@ {
        spec_sequenceOutput(n)
    } else if n.name == "Literal"@ {
        spec_stringBasedRule(n, "lit"@)
    } else if n.name == "Class"@ {
        spec_classOutput(n)
    } else if n.name == "Suffix"@ {
        spec_suffixOutput(n)
    } else if n.name == "Prefix"@ {
        spec_prefixOutput(n)
    } else if n.name == "Primary"@ {
        spec_primaryOutput(n)
    } else if n.name == "DOT"@ {
        encode_utf8("&base::Dot"@)
    } else if n.name == "ARROW"@ {
        encode_utf8(" <- "@)
    } else if n.name == "SLASH"@ {
        encode_utf8(", "@)
    } else if n.name == "Spacing"@ || n.name == "EndOfLine"@ || n.name == "OPEN"@ || n.name
        == "CLOSE"@ {
        Seq::empty()
    } else {
        spec_codeForNodeContents(n)
    }
}

/// A leaf emits its bytes; a parent emits its children's code,
/// concatenated.
pub open spec fn spec_codeForNodeContents(n: NodeV) -> Seq<u8>
    decreases n, 0int,
{
    match n.contents {
        ContentsV::Data(d) => d,
        ContentsV::Children(c) => spec_codeForList(c),
    }
}

pub open spec fn spec_codeForList(c: Seq<NodeV>) -> Seq<u8>
    decreases c, 4int,
{
    if c.len() == 0 {
        Seq::empty()
    } else {
        spec_codeForNode(c[0]) + spec_codeForList(c.drop_first())
    }
}

/// The name of a definition's arrow, read from its second child.
pub open spec fn spec_arrowName(n: NodeV) -> Seq<char> {
    let c = children_of(n);
    if c.len() >= 2 && children_of(c[1]).len() >= 1 {
        children_of(c[1])[0].name
    } else {
        ""@
    }
}

/// A definition becomes a rule declaration; a fuse arrow additionally
/// wraps the right-hand side.
pub open spec fn spec_definitionOutput(n: NodeV) -> Seq<u8>
    decreases n, 2int,
{
    let c = children_of(n);
    let inner = if spec_arrowName(n) == "FUSEARROW"@ && c.len() >= 3 {
        spec_codeForNode(c[0]) + spec_codeForNode(c[1]) + encode_utf8("fuse!( "@)
            + spec_codeForNode(c[2]) + encode_utf8(" )"@)
    } else {
        spec_codeForNodeContents(n)
    };
    encode_utf8("rule!( "@) + inner + encode_utf8(" );\n"@)
}

/// Multiple slash-separated sequences become an ordered choice.
pub open spec fn spec_expressionOutput(n: NodeV) -> Seq<u8>
    decreases n, 2int,
{
    if children_of(n).len() > 1 {
        encode_utf8("or!( "@) + spec_codeForNodeContents(n) + encode_utf8(" )"@)
    } else {
        spec_codeForNodeContents(n)
    }
}

/// Multiple prefixes in sequence are joined with commas.
pub open spec fn spec_joinOutput(c: Seq<NodeV>) -> Seq<u8>
    decreases c, 4int,
{
    if c.len() == 0 {
        Seq::empty()
    } else if c.len() == 1 {
        spec_codeForNode(c[0])
    } else {
        spec_codeForNode(c[0]) + encode_utf8(", "@) + spec_joinOutput(c.drop_first())
    }
}

pub open spec fn spec_sequenceOutput(n: NodeV) -> Seq<u8>
    decreases n, 2int,
{
    let c = children_of(n);
    if c.len() > 1 {
        encode_utf8("seq!( "@) + spec_joinOutput(c) + encode_utf8(" )"@)
    } else {
        spec_codeForNodeContents(n)
    }
}

/// A suffix operator wraps its inner expression in the matching
/// combinator.
pub open spec fn spec_suffixOutput(n: NodeV) -> Seq<u8>
    decreases n, 2int,
{
    let c = children_of(n);
    if c.len() == 2 && (c[1].name == "QUESTION"@ || c[1].name == "STAR"@ || c[1].name
        == "PLUS"@) {
        let m = if c[1].name == "QUESTION"@ {
            "opt"@
        } else if c[1].name == "STAR"@ {
            "star"@
        } else {
            "plus"@
        };
        encode_utf8(m) + encode_utf8("!( "@) + spec_codeForNode(c[0]) + encode_utf8(" )"@)
    } else {
        spec_codeForNodeContents(n)
    }
}

/// A predicate or fuse sigil wraps its inner expression, under the
/// sigil's lowercased name.
pub open spec fn spec_prefixOutput(n: NodeV) -> Seq<u8>
    decreases n, 2int,
{
    let c = children_of(n);
    if c.len() == 2 {
        spec_asciiLower(encode_utf8(c[0].name)) + encode_utf8("!( "@) + spec_codeForNode(c[1])
            + encode_utf8(" )"@)
    } else {
        spec_codeForNodeContents(n)
    }
}

/// A primary that is a bare identifier is a reference to another rule.
pub open spec fn spec_primaryOutput(n: NodeV) -> Seq<u8>
    decreases n, 2int,
{
    let c = children_of(n);
    if c.len() == 1 && c[0].name == "Identifier"@ {
        encode_utf8("ex!( "@) + spec_codeForNode(c[0]) + encode_utf8(" )"@)
    } else {
        spec_codeForNodeContents(n)
    }
}

/// A literal or class: its quoted contents are decoded and re-escaped
/// into a target string literal handed to the named macro.
pub open spec fn spec_stringBasedRule(n: NodeV, rule_name: Seq<char>) -> Seq<u8>
    decreases n, 1int,
{
    let full = spec_codeForNodeContents(n);
    let inner = if full.len() >= 2 {
        full.subrange(1, full.len() - 1)
    } else {
        Seq::empty()
    };
    let content = spec_escapeLiteral(spec_unescapeOrKeep(inner));
    encode_utf8(rule_name) + encode_utf8("!( \""@) + content + encode_utf8("\" )"@)
}

/// A class additionally unescapes the meta-escapes for `[` and `]` back
/// to their literal form.
pub open spec fn spec_classOutput(n: NodeV) -> Seq<u8>
    decreases n, 2int,
{
    spec_replace(
        spec_replace(spec_stringBasedRule(n, "class"@), seq![92u8, 92u8, 93u8], seq![93u8]),
        seq![92u8, 92u8, 91u8],
        seq![91u8],
    )
}

/// Emits the code for one node of a parsed grammar tree.
pub fn codeForNode(node: &Node) -> (r: Vec<u8>)
    ensures
        r@ == spec_codeForNode(node@),
    decreases *node, 3int,
{
    if strEq(node.name, "Definition") {
        definitionOutput(node)
    } else if strEq(node.name, "Expression") {
        expressionOutput(node)
    } else if strEq(node.name, "Sequence") {
        sequenceOutput(node)
    } else if strEq(node.name, "Literal") {
        stringBasedRule(node, "lit")
    } else if strEq(node.name, "Class") {
        classOutput(node)
    } else if strEq(node.name, "Suffix") {
        suffixOutput(node)
    } else if strEq(node.name, "Prefix") {
        prefixOutput(node)
    } else if strEq(node.name, "Primary") {
        primaryOutput(node)
    } else if strEq(node.name, "DOT") {
        vstd::slice::slice_to_vec("&base::Dot".as_bytes())
    } else if strEq(node.name, "ARROW") {
        vstd::slice::slice_to_vec(" <- ".as_bytes())
    } else if strEq(node.name, "SLASH") {
        vstd::slice::slice_to_vec(", ".as_bytes())
    } else if strEq(node.name, "Spacing") || strEq(node.name, "EndOfLine") || strEq(
        node.name,
        "OPEN",
    ) || strEq(node.name, "CLOSE") {
        Vec::new()
    } else {
        codeForNodeContents(node)
    }
}

fn codeForNodeContents(node: &Node) -> (r: Vec<u8>)
    ensures
        r@ == spec_codeForNodeContents(node@),
    decreases *node, 0int,
{
    match &node.contents {
        NodeContents::Data(d) => vstd::slice::slice_to_vec(d.as_slice()),
        NodeContents::Children(children) => {
            let mut out: Vec<u8> = Vec::new();
            let mut i: usize = 0;
            proof {
                assert(spec_codeForNodeContents(node@) == spec_codeForList(
                    nodes_view(children@),
                ));
                crate::node::lemma_nodes_view_len(children@);
                assert(nodes_view(children@).skip(0) =~= nodes_view(children@));
            }
            while i < children.len()
                invariant
                    i <= children@.len(),
                    node.contents == NodeContents::Children(*children),
                    nodes_view(children@).len() == children@.len(),
                    spec_codeForList(nodes_view(children@)) =~= out@ + spec_codeForList(
                        nodes_view(children@).skip(i as int),
                    ),
                decreases children@.len() - i,
            {
                proof {
                    crate::node::lemma_children_decrease(*node, *children, i as int);
                    crate::node::lemma_nodes_view_index(children@, i as int);
                    assert(nodes_view(children@).skip(i as int)[0] == nodes_view(
                        children@,
                    )[i as int]);
                }
                let mut piece = codeForNode(&children[i]);
                out.append(&mut piece);
                proof {
                    assert(nodes_view(children@).skip(i as int).drop_first() =~= nodes_view(
                        children@,
                    ).skip(i + 1));
                }
                i += 1;
            }
            proof {
                assert(nodes_view(children@).skip(children@.len() as int) =~= Seq::<
                    NodeV,
                >::empty());
            }
            out
        },
    }
}

/// The vector of children, by reference, or none for a leaf.
fn childrenOf(node: &Node) -> (r: Option<&Vec<Node>>)
    ensures
        match r {
            Some(c) => node.contents == NodeContents::Children(*c) && node@.contents
                == ContentsV::Children(nodes_view(c@)) && children_of(node@) == nodes_view(c@),
            None => children_of(node@) == Seq::<NodeV>::empty() && (node@.contents matches
                ContentsV::Data(_)),
        },
{
    match &node.contents {
        NodeContents::Children(c) => Some(c),
        NodeContents::Data(_) => None,
    }
}

/// Whether a definition's arrow is the fuse arrow, so that its
/// right-hand side is additionally wrapped.
fn isFusedDefinition(node: &Node) -> (r: bool)
    ensures
        r == (spec_arrowName(node@) == "FUSEARROW"@ && children_of(node@).len() >= 3),
{
    match childrenOf(node) {
        Some(children) => {
            proof {
                crate::node::lemma_nodes_view_len(children@);
            }
            if children.len() >= 3 {
                proof {
                    crate::node::lemma_nodes_view_index(children@, 1);
                }
                match childrenOf(&children[1]) {
                    Some(arrow_children) => {
                        proof {
                            crate::node::lemma_nodes_view_len(arrow_children@);
                        }
                        if arrow_children.len() >= 1 {
                            proof {
                                crate::node::lemma_nodes_view_index(arrow_children@, 0);
                            }
                            let eq = strEq(arrow_children[0].name, "FUSEARROW");
                            proof {
                                assert(children_of(node@) == nodes_view(children@));
                                assert(children_of(node@).len() >= 3);
                                assert(children_of(node@)[1] == node_view(
                                    children@[1 as int],
                                ));
                                assert(children_of(node_view(children@[1 as int]))
                                    == nodes_view(arrow_children@));
                                assert(spec_arrowName(node@) == node_view(
                                    arrow_children@[0int],
                                ).name);
                                assert(node_view(arrow_children@[0int]).name
                                    == arrow_children@[0int].name@);
                            }
                            eq
                        } else {
                            proof {
                                reveal_strlit("");
                                reveal_strlit("FUSEARROW");
                                assert(spec_arrowName(node@) == ""@);
                                assert((""@).len() == 0);
                                assert(("FUSEARROW"@).len() == 9);
                                assert(spec_arrowName(node@) != "FUSEARROW"@);
                            }
                            false
                        }
                    },
                    None => {
                        proof {
                            reveal_strlit("");
                            reveal_strlit("FUSEARROW");
                            assert(spec_arrowName(node@) == ""@);
                            assert(spec_arrowName(node@) != "FUSEARROW"@);
                        }
                        false
                    },
                }
            } else {
                false
            }
        },
        None => false,
    }
}

fn definitionOutput(node: &Node) -> (r: Vec<u8>)
    ensures
        r@ == spec_definitionOutput(node@),
    decreases *node, 2int,
{
    let mut out: Vec<u8> = Vec::new();
    pushStr(&mut out, "rule!( ");
    if isFusedDefinition(node) {
        match childrenOf(node) {
            Some(children) => {
                proof {
                    crate::node::lemma_nodes_view_len(children@);
                    crate::node::lemma_nodes_view_index(children@, 0);
                    crate::node::lemma_nodes_view_index(children@, 1);
                    crate::node::lemma_nodes_view_index(children@, 2);
                    crate::node::lemma_children_decrease(*node, *children, 0);
                    crate::node::lemma_children_decrease(*node, *children, 1);
                    crate::node::lemma_children_decrease(*node, *children, 2);
                }
                let mut p0 = codeForNode(&children[0]);
                out.append(&mut p0);
                let mut p1 = codeForNode(&children[1]);
                out.append(&mut p1);
                pushStr(&mut out, "fuse!( ");
                let mut p2 = codeForNode(&children[2]);
                out.append(&mut p2);
                pushStr(&mut out, " )");
            },
            None => {
                proof {
                    assert(false);
                }
            },
        }
    } else {
        let mut inner = codeForNodeContents(node);
        out.append(&mut inner);
    }
    pushStr(&mut out, " );\n");
    proof {
        assert(out@ =~= spec_definitionOutput(node@));
    }
    out
}

fn expressionOutput(node: &Node) -> (r: Vec<u8>)
    ensures
        r@ == spec_expressionOutput(node@),
    decreases *node, 2int,
{
    let many = match childrenOf(node) {
        Some(children) => {
            proof {
                crate::node::lemma_nodes_view_len(children@);
            }
            children.len() > 1
        },
        None => false,
    };
    if many {
        let mut out: Vec<u8> = Vec::new();
        pushStr(&mut out, "or!( ");
        let mut inner = codeForNodeContents(node);
        out.append(&mut inner);
        pushStr(&mut out, " )");
        proof {
            assert(out@ =~= spec_expressionOutput(node@));
        }
        out
    } else {
        codeForNodeContents(node)
    }
}

fn sequenceOutput(node: &Node) -> (r: Vec<u8>)
    ensures
        r@ == spec_sequenceOutput(node@),
    decreases *node, 2int,
{
    match childrenOf(node) {
        Some(children) => {
            proof {
                crate::node::lemma_nodes_view_len(children@);
            }
            if children.len() > 1 {
                let mut out: Vec<u8> = Vec::new();
                pushStr(&mut out, "seq!( ");
                let ghost cv = nodes_view(children@);
                let ghost mid0 = out@;
                let ghost mut acc: Seq<u8> = Seq::empty();
                let mut i: usize = 0;
                proof {
                    lemma_joined_tail_is_join(cv, 0);
                    assert(cv.skip(0) =~= cv);
                    assert(out@ =~= mid0 + acc);
                }
                while i < children.len()
                    invariant
                        i <= children@.len(),
                        children@.len() > 1,
                        node.contents == NodeContents::Children(*children),
                        cv == nodes_view(children@),
                        cv.len() == children@.len(),
                        out@ =~= mid0 + acc,
                        spec_joinOutput(cv) =~= acc + joined_tail(cv, i as int),
                        mid0 == encode_utf8("seq!( "@),
                    decreases children@.len() - i,
                {
                    proof {
                        crate::node::lemma_children_decrease(*node, *children, i as int);
                        crate::node::lemma_nodes_view_index(children@, i as int);
                    }
                    let mut piece = codeForNode(&children[i]);
                    let ghost piece_v = piece@;
                    out.append(&mut piece);
                    if i + 1 < children.len() {
                        pushStr(&mut out, ", ");
                        proof {
                            acc = acc + piece_v + encode_utf8(", "@);
                            assert(out@ =~= mid0 + acc);
                        }
                    } else {
                        proof {
                            acc = acc + piece_v;
                            assert(out@ =~= mid0 + acc);
                        }
                    }
                    i += 1;
                }
                pushStr(&mut out, " )");
                proof {
                    assert(spec_joinOutput(cv) =~= acc);
                    assert(out@ =~= spec_sequenceOutput(node@));
                }
                out
            } else {
                codeForNodeContents(node)
            }
        },
        None => codeForNodeContents(node),
    }
}

/// The part of a comma join that position `i` onward contributes.
pub open spec fn joined_tail(c: Seq<NodeV>, i: int) -> Seq<u8>
    decreases c.len() - i,
    when 0 <= i <= c.len()
{
    if i >= c.len() {
        Seq::empty()
    } else if i == c.len() - 1 {
        spec_codeForNode(c[i])
    } else {
        spec_codeForNode(c[i]) + encode_utf8(", "@) + joined_tail(c, i + 1)
    }
}

proof fn lemma_joined_tail_is_join(c: Seq<NodeV>, i: int)
    requires
        0 <= i <= c.len(),
    ensures
        joined_tail(c, i) =~= spec_joinOutput(c.skip(i)),
    decreases c.len() - i,
{
    if i >= c.len() {
        assert(c.skip(i) =~= Seq::<NodeV>::empty());
    } else {
        lemma_joined_tail_is_join(c, i + 1);
        assert(c.skip(i)[0] == c[i]);
        assert(c.skip(i).drop_first() =~= c.skip(i + 1));
        assert(c.skip(i).len() == c.len() - i);
    }
}

fn suffixOutput(node: &Node) -> (r: Vec<u8>)
    ensures
        r@ == spec_suffixOutput(node@),
    decreases *node, 2int,
{
    match childrenOf(node) {
        Some(children) => {
            proof {
                crate::node::lemma_nodes_view_len(children@);
            }
            if children.len() == 2 {
                proof {
                    crate::node::lemma_nodes_view_index(children@, 0);
                    crate::node::lemma_nodes_view_index(children@, 1);
                }
                let m: &'static str = if strEq(children[1].name, "QUESTION") {
                    "opt"
                } else if strEq(children[1].name, "STAR") {
                    "star"
                } else if strEq(children[1].name, "PLUS") {
                    "plus"
                } else {
                    return codeForNodeContents(node);
                };
                proof {
                    crate::node::lemma_children_decrease(*node, *children, 0);
                }
                let mut out: Vec<u8> = Vec::new();
                pushStr(&mut out, m);
                pushStr(&mut out, "!( ");
                let mut inner = codeForNode(&children[0]);
                out.append(&mut inner);
                pushStr(&mut out, " )");
                proof {
                    assert(out@ =~= spec_suffixOutput(node@));
                }
                out
            } else {
                codeForNodeContents(node)
            }
        },
        None => codeForNodeContents(node),
    }
}

fn prefixOutput(node: &Node) -> (r: Vec<u8>)
    ensures
        r@ == spec_prefixOutput(node@),
    decreases *node, 2int,
{
    match childrenOf(node) {
        Some(children) => {
            proof {
                crate::node::lemma_nodes_view_len(children@);
            }
            if children.len() == 2 {
                proof {
                    crate::node::lemma_nodes_view_index(children@, 0);
                    crate::node::lemma_nodes_view_index(children@, 1);
                    crate::node::lemma_children_decrease(*node, *children, 1);
                }
                let mut out = asciiLower(children[0].name.as_bytes());
                pushStr(&mut out, "!( ");
                let mut inner = codeForNode(&children[1]);
                out.append(&mut inner);
                pushStr(&mut out, " )");
                proof {
                    assert(out@ =~= spec_prefixOutput(node@));
                }
                out
            } else {
                codeForNodeContents(node)
            }
        },
        None => codeForNodeContents(node),
    }
}

fn primaryOutput(node: &Node) -> (r: Vec<u8>)
    ensures
        r@ == spec_primaryOutput(node@),
    decreases *node, 2int,
{
    match childrenOf(node) {
        Some(children) => {
            proof {
                crate::node::lemma_nodes_view_len(children@);
            }
            if children.len() == 1 {
                proof {
                    crate::node::lemma_nodes_view_index(children@, 0);
                }
                if strEq(children[0].name, "Identifier") {
                    proof {
                        crate::node::lemma_children_decrease(*node, *children, 0);
                    }
                    let mut out: Vec<u8> = Vec::new();
                    pushStr(&mut out, "ex!( ");
                    let mut inner = codeForNode(&children[0]);
                    out.append(&mut inner);
                    pushStr(&mut out, " )");
                    proof {
                        assert(out@ =~= spec_primaryOutput(node@));
                    }
                    out
                } else {
                    codeForNodeContents(node)
                }
            } else {
                codeForNodeContents(node)
            }
        },
        None => codeForNodeContents(node),
    }
}

fn stringBasedRule(node: &Node, rule_name: &'static str) -> (r: Vec<u8>)
    ensures
        r@ == spec_stringBasedRule(node@, rule_name@),
    decreases *node, 1int,
{
    let full = codeForNodeContents(node);
    let mut inner: Vec<u8> = Vec::new();
    if full.len() >= 2 {
        let mut k: usize = 1;
        while k < full.len() - 1
            invariant
                full@.len() >= 2,
                1 <= k <= full@.len() - 1,
                inner@ =~= full@.subrange(1, k as int),
            decreases full@.len() - k,
        {
            inner.push(full[k]);
            k += 1;
        }
        proof {
            assert(inner@ =~= full@.subrange(1, full@.len() - 1));
        }
    }
    let decoded = unescapeOrKeep(inner.as_slice());
    let content = escapeLiteral(decoded.as_slice());
    let mut out: Vec<u8> = Vec::new();
    pushStr(&mut out, rule_name);
    pushStr(&mut out, "!( \"");
    let mut c = content;
    out.append(&mut c);
    pushStr(&mut out, "\" )");
    proof {
        assert(out@ =~= spec_stringBasedRule(node@, rule_name@));
    }
    out
}

fn classOutput(node: &Node) -> (r: Vec<u8>)
    ensures
        r@ == spec_classOutput(node@),
    decreases *node, 2int,
{
    let base = stringBasedRule(node, "class");
    let pat1: [u8; 3] = [92, 92, 93];
    let rep1: [u8; 1] = [93];
    let step1 = replaceAll(&base, pat1.as_slice(), rep1.as_slice());
    let pat2: [u8; 3] = [92, 92, 91];
    let rep2: [u8; 1] = [91];
    let step2 = replaceAll(&step1, pat2.as_slice(), rep2.as_slice());
    proof {
        assert(pat1@ =~= seq![92u8, 92u8, 93u8]);
        assert(rep1@ =~= seq![93u8]);
        assert(pat2@ =~= seq![92u8, 92u8, 91u8]);
        assert(rep2@ =~= seq![91u8]);
    }
    step2
}

// ===== The entry rule's name =====
/// The first node named `Identifier` in a pre-order walk, if any: in a
/// parsed grammar tree, the name of the first defined rule.
pub open spec fn spec_firstIdent(s: Seq<NodeV>) -> Option<NodeV>
    decreases s.len(),
{
    if s.len() == 0 {
        None
    } else if s[0].name == "Identifier"@ {
        Some(s[0])
    } else {
        spec_firstIdent(s.drop_first())
    }
}

/// Space bytes stripped from both ends.
pub open spec fn spec_trimSpaces(s: Seq<u8>) -> Seq<u8>
    decreases s.len(),
{
    if s.len() > 0 && s[0] == 32 {
        spec_trimSpaces(s.drop_first())
    } else if s.len() > 0 && s.last() == 32 {
        spec_trimSpaces(s.drop_last())
    } else {
        s
    }
}

fn trimSpaces(input: Vec<u8>) -> (r: Vec<u8>)
    ensures
        r@ == spec_trimSpaces(input@),
{
    let mut a: usize = 0;
    let mut b: usize = input.len();
    proof {
        assert(input@.subrange(0, input@.len() as int) =~= input@);
    }
    while a < b && input[a] == 32
        invariant
            a <= b,
            b == input@.len(),
            spec_trimSpaces(input@) == spec_trimSpaces(input@.subrange(a as int, b as int)),
        decreases b - a,
    {
        proof {
            assert(input@.subrange(a as int, b as int).drop_first() =~= input@.subrange(
                a + 1,
                b as int,
            ));
        }
        a += 1;
    }
    while b > a && input[b - 1] == 32
        invariant
            a <= b,
            b <= input@.len(),
            spec_trimSpaces(input@) == spec_trimSpaces(input@.subrange(a as int, b as int)),
            a < b ==> input@[a as int] != 32,
        decreases b,
    {
        proof {
            assert(input@.subrange(a as int, b as int).drop_last() =~= input@.subrange(
                a as int,
                b - 1,
            ));
        }
        b -= 1;
    }
    let mut out: Vec<u8> = Vec::new();
    let mut i: usize = a;
    while i < b
        invariant
            a <= i <= b,
            b <= input@.len(),
            out@ =~= input@.subrange(a as int, i as int),
        decreases b - i,
    {
        out.push(input[i]);
        i += 1;
    }
    proof {
        assert(out@ =~= input@.subrange(a as int, b as int));
        if a < b {
            assert(input@.subrange(a as int, b as int)[0] != 32);
            assert(input@.subrange(a as int, b as int).last() == input@[b - 1]);
        }
        assert(spec_trimSpaces(input@.subrange(a as int, b as int)) == input@.subrange(
            a as int,
            b as int,
        ));
    }
    out
}

/// The name of the first rule a grammar tree defines: the matched text of
/// the first `Identifier` node in pre-order, with surrounding spaces
/// stripped.  The generated parser's entry point carries this name.
pub fn nameOfFirstRule(root: &Node) -> (r: Option<Vec<u8>>)
    ensures
        match spec_firstIdent(crate::node::preorder(root@)) {
            Some(n) => r matches Some(v) && v@ == spec_trimSpaces(crate::node::nv_data(n)),
            None => r is None,
        },
{
    let mut it = root.preOrder();
    loop
        invariant
            spec_firstIdent(crate::node::preorder(root@)) == spec_firstIdent(it@),
        ensures
            match spec_firstIdent(crate::node::preorder(root@)) {
                Some(n) => it@.len() > 0 && it@[0] == n && it@[0].name == "Identifier"@,
                None => it@.len() == 0,
            },
        decreases it@.len(),
    {
        let ghost pend = it@;
        let probe = peekIsDone(&it);
        if probe {
            proof {
                assert(spec_firstIdent(it@) is None);
            }
            break ;
        }
        if peekHeadIsIdentifier(&it) {
            break ;
        }
        let _ = it.next();
        proof {
            assert(spec_firstIdent(pend) == spec_firstIdent(pend.drop_first()));
        }
    }
    match it.next() {
        Some(node) => Some(trimSpaces(node.matchedData())),
        None => None,
    }
}

/// Whether the traversal has nothing left to yield.
fn peekIsDone(it: &crate::node::PreOrderNodes) -> (r: bool)
    ensures
        r == (it@.len() == 0),
{
    proof {
        crate::node::lemma_pending_len(it.queue@);
    }
    it.queue.is_empty()
}

/// Whether the next node to be yielded is named `Identifier`.
fn peekHeadIsIdentifier(it: &crate::node::PreOrderNodes) -> (r: bool)
    requires
        it@.len() > 0,
    ensures
        r == (it@[0].name == "Identifier"@),
{
    proof {
        crate::node::lemma_pending_head(it.queue@);
    }
    let node = &it.queue[it.queue.len() - 1];
    strEq(node.name, "Identifier")
}

} // verus!
