//! The typed syntax-tree nodes a parse produces.
//!
//! A node carries the name of the rule that produced it (empty for the
//! anonymous leaves of primitive matchers), a half-open byte span
//! `[start, end)` into the original input, and either the matched bytes
//! themselves or a vector of child nodes.
use vstd::prelude::*;

verus! {

broadcast use vstd::std_specs::vec::group_vec_axioms, vstd::seq::group_seq_axioms;

/// What a node holds: the bytes a leaf matched, or the children of a
/// rule-level parent.
#[derive(Debug, PartialEq)]
pub enum NodeContents {
    /// The bytes this leaf node matched in the parse input.
    Data(Vec<u8>),
    /// The child nodes of a non-leaf node.
    Children(Vec<Node>),
}

/// One node of the syntax tree.
#[derive(Debug, PartialEq)]
pub struct Node {
    /// The name of the node; empty for anonymous leaves.
    pub name: &'static str,
    /// The (inclusive) start of the matched range, as a byte offset into the
    /// parse input.
    pub start: usize,
    /// The (exclusive) end of the matched range, as a byte offset into the
    /// parse input.
    pub end: usize,
    /// The contents of the node.
    pub contents: NodeContents,
}

/// The mathematical image of [`NodeContents`].
#[verifier::ext_equal]
pub enum ContentsV {
    Data(Seq<u8>),
    Children(Seq<NodeV>),
}

/// The mathematical image of a [`Node`].
#[verifier::ext_equal]
pub struct NodeV {
    pub name: Seq<char>,
    pub start: int,
    pub end: int,
    pub contents: ContentsV,
}

pub open spec fn node_view(n: Node) -> NodeV
    decreases n, 0int,
    via node_view_dec
{
    NodeV {
        name: n.name@,
        start: n.start as int,
        end: n.end as int,
        contents: match n.contents {
            NodeContents::Data(d) => ContentsV::Data(d@),
            NodeContents::Children(c) => ContentsV::Children(nodes_view(c@)),
        },
    }
}

#[via_fn]
proof fn node_view_dec(n: Node) {
    match n.contents {
        NodeContents::Children(c) => {
            assert(decreases_to!(n => c));
            assert(decreases_to!(c => c@));
        },
        _ => {},
    }
}

pub open spec fn nodes_view(s: Seq<Node>) -> Seq<NodeV>
    decreases s, 1int,
{
    if s.len() == 0 {
        Seq::empty()
    } else {
        seq![node_view(s[0])] + nodes_view(s.drop_first())
    }
}

impl View for Node {
    type V = NodeV;

    open spec fn view(&self) -> NodeV {
        node_view(*self)
    }
}

pub broadcast proof fn lemma_nodes_view_len(s: Seq<Node>)
    ensures
        (#[trigger] nodes_view(s)).len() == s.len(),
    decreases s.len(),
{
    if s.len() > 0 {
        lemma_nodes_view_len(s.drop_first());
    }
}

pub broadcast proof fn lemma_nodes_view_index(s: Seq<Node>, i: int)
    requires
        0 <= i < s.len(),
    ensures
        #[trigger] nodes_view(s)[i] == node_view(s[i]),
    decreases s.len(),
{
    lemma_nodes_view_len(s);
    if i > 0 {
        lemma_nodes_view_index(s.drop_first(), i - 1);
    }
}

pub broadcast proof fn lemma_nodes_view_push(s: Seq<Node>, n: Node)
    ensures
        nodes_view(#[trigger] s.push(n)) =~= nodes_view(s) + seq![node_view(n)],
    decreases s.len(),
{
    lemma_nodes_view_len(s);
    lemma_nodes_view_len(s.push(n));
    assert(s.push(n)[0] == if s.len() == 0 {
        n
    } else {
        s[0]
    });
    if s.len() == 0 {
        assert(s.push(n).drop_first() =~= Seq::<Node>::empty());
    } else {
        assert(s.push(n).drop_first() =~= s.drop_first().push(n));
        lemma_nodes_view_push(s.drop_first(), n);
        lemma_nodes_view_len(s.drop_first().push(n));
    }
}

pub broadcast proof fn lemma_nodes_view_concat(a: Seq<Node>, b: Seq<Node>)
    ensures
        nodes_view(#[trigger] (a + b)) =~= nodes_view(a) + nodes_view(b),
    decreases a.len(),
{
    if a.len() == 0 {
        assert(a + b =~= b);
    } else {
        assert((a + b).drop_first() =~= a.drop_first() + b);
        assert((a + b)[0] == a[0]);
        lemma_nodes_view_concat(a.drop_first(), b);
    }
}

/// The total byte length of the `Data` leaves under a node: how much input
/// the node accounts for.
pub open spec fn nv_data_len(n: NodeV) -> int
    decreases n, 0int,
{
    match n.contents {
        ContentsV::Data(d) => n.end - n.start,
        ContentsV::Children(c) => nvs_data_len(c),
    }
}

/// The total byte length of the `Data` leaves under a sequence of nodes.
pub open spec fn nvs_data_len(s: Seq<NodeV>) -> int
    decreases s, 1int,
{
    if s.len() == 0 {
        0
    } else {
        nv_data_len(s[0]) + nvs_data_len(s.drop_first())
    }
}

/// All bytes of the `Data` leaves beneath a node, concatenated in scan
/// order.
pub open spec fn nv_data(n: NodeV) -> Seq<u8>
    decreases n, 0int,
{
    match n.contents {
        ContentsV::Data(d) => d,
        ContentsV::Children(c) => nvs_data(c),
    }
}

pub open spec fn nvs_data(s: Seq<NodeV>) -> Seq<u8>
    decreases s, 1int,
{
    if s.len() == 0 {
        Seq::empty()
    } else {
        nv_data(s[0]) + nvs_data(s.drop_first())
    }
}

/// Well-formedness of a node whose `Data` leaves tile the input from
/// absolute offset `lo` onward, where `buf` is the unconsumed input that
/// begins at absolute offset `base`.
///
/// A `Data` leaf spans exactly its bytes, and those bytes are the slice of
/// the input at its span.  A `Children` node takes its span from its first
/// and last child (or `[0, 0)` when it has none), and its children tile the
/// same window in scan order.
pub open spec fn nv_ok(n: NodeV, buf: Seq<u8>, base: int, lo: int) -> bool
    decreases n, 0int,
{
    match n.contents {
        ContentsV::Data(d) => {
            &&& n.start == lo
            &&& n.end == lo + d.len()
            &&& base <= lo
            &&& n.end <= base + buf.len()
            &&& d == buf.subrange(lo - base, n.end - base)
        },
        ContentsV::Children(c) => {
            &&& nvs_ok(c, buf, base, lo)
            &&& if c.len() == 0 {
                n.start == 0 && n.end == 0
            } else {
                n.start == c[0].start && n.end == c[c.len() - 1].end
            }
        },
    }
}

/// Well-formedness of a sequence of sibling nodes whose `Data` leaves tile
/// the input contiguously from absolute offset `lo` onward.
pub open spec fn nvs_ok(s: Seq<NodeV>, buf: Seq<u8>, base: int, lo: int) -> bool
    decreases s, 1int,
{
    if s.len() == 0 {
        true
    } else {
        nv_ok(s[0], buf, base, lo) && nvs_ok(s.drop_first(), buf, base, lo + nv_data_len(s[0]))
    }
}

/// The parent node a named rule builds over the nodes its body produced.
/// When the body produced exactly one anonymous node, that node is renamed
/// in place instead of being wrapped.
pub open spec fn wrap_node(name: Seq<char>, nodes: Seq<NodeV>) -> NodeV {
    if nodes.len() == 1 && nodes[0].name.len() == 0 {
        NodeV { name, start: nodes[0].start, end: nodes[0].end, contents: nodes[0].contents }
    } else {
        NodeV {
            name,
            start: if nodes.len() == 0 {
                0
            } else {
                nodes[0].start
            },
            end: if nodes.len() == 0 {
                0
            } else {
                nodes[nodes.len() - 1].end
            },
            contents: ContentsV::Children(nodes),
        }
    }
}

impl Node {
    /// The node name if set, or `"<none>"` if unset.
    pub fn displayName(&self) -> (r: &'static str)
        ensures
            self@.name.len() > 0 ==> r@ == self@.name,
            self@.name.len() == 0 ==> r@ == "<none>"@,
    {
        if !self.name.is_empty() {
            self.name
        } else {
            "<none>"
        }
    }

    /// Creates a `Node` with an empty name.
    pub fn withoutName(start: usize, end: usize, contents: NodeContents) -> (r: Node)
        ensures
            r@ == (NodeV {
                name: ""@,
                start: start as int,
                end: end as int,
                contents: match contents {
                    NodeContents::Data(d) => ContentsV::Data(d@),
                    NodeContents::Children(c) => ContentsV::Children(nodes_view(c@)),
                },
            }),
    {
        Node { name: "", start, end, contents }
    }

    /// Creates a `Node` with the provided `name` over the given `children`,
    /// collapsing a single anonymous child into the new node.
    pub fn withChildren(name: &'static str, children: Vec<Node>) -> (r: Node)
        ensures
            r@ == wrap_node(name@, nodes_view(children@)),
    {
        proof {
            lemma_nodes_view_len(children@);
            if children@.len() > 0 {
                lemma_nodes_view_index(children@, 0);
                lemma_nodes_view_index(children@, children@.len() - 1);
            }
        }
        let mut children = children;
        if children.len() == 1 && children[0].name.is_empty() {
            match children.pop() {
                Some(child) => {
                    let mut child = child;
                    child.name = name;
                    return child;
                },
                None => {},
            }
        }
        let start: usize = if children.len() != 0 {
            children[0].start
        } else {
            0
        };
        let end: usize = if children.len() != 0 {
            children[children.len() - 1].end
        } else {
            0
        };
        Node { name, start, end, contents: NodeContents::Children(children) }
    }

    /// Concatenates and returns all `Data` bytes in the leaf nodes beneath
    /// this node.
    pub fn matchedData(&self) -> (r: Vec<u8>)
        ensures
            r@ == nv_data(self@),
        decreases *self,
    {
        match &self.contents {
            NodeContents::Data(x) => vstd::slice::slice_to_vec(x.as_slice()),
            NodeContents::Children(children) => {
                let mut out: Vec<u8> = Vec::new();
                let mut i: usize = 0;
                proof {
                    assert(nv_data(self@) == nvs_data(nodes_view(children@)));
                }
                while i < children.len()
                    invariant
                        i <= children.len(),
                        out@ =~= nvs_data(nodes_view(children@.subrange(0, i as int))),
                        nv_data(node_view(*self)) == nvs_data(nodes_view(children@)),
                        self.contents == NodeContents::Children(*children),
                    decreases children.len() - i,
                {
                    proof {
                        assert(decreases_to!(*self => self.contents));
                        assert(decreases_to!(self.contents => *children));
                        assert(decreases_to!(*children => children@));
                        assert(decreases_to!(children@ => children@[i as int]));
                    }
                    let mut d = children[i].matchedData();
                    out.append(&mut d);
                    proof {
                        let pre = children@.subrange(0, i as int);
                        let cur = children@[i as int];
                        assert(pre.push(cur) =~= children@.subrange(0, i + 1));
                        lemma_nodes_view_push(pre, cur);
                        lemma_nvs_data_push(nodes_view(pre), node_view(cur));
                        assert(nodes_view(pre).push(node_view(cur)) =~= nodes_view(pre) + seq![
                            node_view(cur),
                        ]);
                        assert(nodes_view(children@.subrange(0, i + 1)) == nodes_view(pre).push(
                            node_view(cur),
                        ));
                        assert(out@ =~= nvs_data(nodes_view(pre)) + nv_data(node_view(cur)));
                    }
                    i += 1;
                }
                proof {
                    assert(children@.subrange(0, children@.len() as int) =~= children@);
                }
                out
            },
        }
    }
}

proof fn lemma_nvs_data_push(s: Seq<NodeV>, n: NodeV)
    ensures
        nvs_data(s.push(n)) =~= nvs_data(s) + nv_data(n),
    decreases s.len(),
{
    assert(s.push(n)[0] == if s.len() == 0 {
        n
    } else {
        s[0]
    });
    if s.len() == 0 {
        assert(s.push(n).drop_first() =~= Seq::<NodeV>::empty());
        assert(nvs_data(s.push(n)) == nv_data(n) + nvs_data(Seq::<NodeV>::empty()));
    } else {
        assert(s.push(n).drop_first() =~= s.drop_first().push(n));
        lemma_nvs_data_push(s.drop_first(), n);
        assert(nvs_data(s.push(n)) == nv_data(s[0]) + nvs_data(s.drop_first().push(n)));
        assert(nvs_data(s.drop_first().push(n)) == nvs_data(s.drop_first()) + nv_data(n));
    }
}

/// A node strictly dominates each of its children in the termination
/// order.
pub broadcast proof fn lemma_children_decrease(n: Node, c: Vec<Node>, i: int)
    requires
        n.contents == NodeContents::Children(c),
        0 <= i < c@.len(),
    ensures
        #[trigger] decreases_to!(n => c@[i]),
{
    assert(decreases_to!(n => n.contents));
    assert(decreases_to!(n.contents => n.contents->Children_0));
    assert(decreases_to!(c => c@));
    assert(decreases_to!(c@ => c@[i]));
}

/// The pre-order traversal of a node: the node itself, then each child's
/// traversal, in order.
pub open spec fn preorder(n: NodeV) -> Seq<NodeV>
    decreases n, 0int,
{
    match n.contents {
        ContentsV::Data(_) => seq![n],
        ContentsV::Children(c) => seq![n] + preorders(c),
    }
}

pub open spec fn preorders(s: Seq<NodeV>) -> Seq<NodeV>
    decreases s, 1int,
{
    if s.len() == 0 {
        Seq::empty()
    } else {
        preorder(s[0]) + preorders(s.drop_first())
    }
}

/// The nodes a traversal still has to yield: the pre-order traversals of
/// the queued nodes, from the back of the queue forward.
pub open spec fn pending(q: Seq<NodeV>) -> Seq<NodeV>
    decreases q.len(),
{
    if q.len() == 0 {
        Seq::empty()
    } else {
        preorder(q.last()) + pending(q.drop_last())
    }
}

/// A pre-order walk over a node tree; [`PreOrderNodes::next`] yields the
/// nodes of [`preorder`] in order.
pub struct PreOrderNodes<'a> {
    pub queue: Vec<&'a Node>,
}

pub open spec fn queue_views(q: Seq<&Node>) -> Seq<NodeV>
    decreases q,
{
    if q.len() == 0 {
        Seq::empty()
    } else {
        seq![node_view(*q[0])] + queue_views(q.drop_first())
    }
}

pub proof fn lemma_queue_views_len(q: Seq<&Node>)
    ensures
        queue_views(q).len() == q.len(),
    decreases q.len(),
{
    if q.len() > 0 {
        lemma_queue_views_len(q.drop_first());
    }
}

pub proof fn lemma_queue_views_index(q: Seq<&Node>, i: int)
    requires
        0 <= i < q.len(),
    ensures
        queue_views(q)[i] == node_view(*q[i]),
    decreases q.len(),
{
    lemma_queue_views_len(q);
    if i > 0 {
        lemma_queue_views_index(q.drop_first(), i - 1);
    }
}

proof fn lemma_queue_views_push(q: Seq<&Node>, n: &Node)
    ensures
        queue_views(q.push(n)) =~= queue_views(q) + seq![node_view(*n)],
    decreases q.len(),
{
    lemma_queue_views_len(q);
    lemma_queue_views_len(q.push(n));
    assert(q.push(n)[0] == if q.len() == 0 {
        n
    } else {
        q[0]
    });
    if q.len() == 0 {
        assert(q.push(n).drop_first() =~= Seq::<&Node>::empty());
    } else {
        assert(q.push(n).drop_first() =~= q.drop_first().push(n));
        lemma_queue_views_push(q.drop_first(), n);
    }
}

/// Pushing one node onto the queue schedules its traversal before
/// everything already pending.
proof fn lemma_pending_push(q: Seq<NodeV>, n: NodeV)
    ensures
        pending(q.push(n)) =~= preorder(n) + pending(q),
    decreases q.len(),
{
    assert(q.push(n).last() == n);
    assert(q.push(n).drop_last() =~= q);
}

impl<'a> View for PreOrderNodes<'a> {
    type V = Seq<NodeV>;

    open spec fn view(&self) -> Seq<NodeV> {
        pending(queue_views(self.queue@))
    }
}

/// Pushing a node list in reverse order schedules their traversals in
/// order, before everything already pending.
proof fn lemma_pending_push_reversed(q: Seq<NodeV>, c: Seq<NodeV>)
    ensures
        pending(q + c.reverse()) =~= preorders(c) + pending(q),
    decreases c.len(),
{
    if c.len() == 0 {
        assert(q + c.reverse() =~= q);
    } else {
        let c0 = c[0];
        let rest = c.drop_first();
        assert(c.reverse() =~= rest.reverse().push(c0));
        assert(q + rest.reverse().push(c0) =~= (q + rest.reverse()).push(c0));
        lemma_pending_push(q + rest.reverse(), c0);
        lemma_pending_push_reversed(q, rest);
    }
}

impl<'a> PreOrderNodes<'a> {
    /// Yields the next node of the traversal, or `None` when it is done.
    pub fn next(&mut self) -> (r: Option<&'a Node>)
        ensures
            old(self)@.len() == 0 ==> r is None && final(self)@ =~= old(self)@,
            old(self)@.len() > 0 ==> (r matches Some(n) && n@ == old(self)@[0] && final(self)@
                =~= old(self)@.drop_first()),
    {
        proof {
            lemma_queue_views_len(self.queue@);
        }
        match self.queue.pop() {
            Some(node) => {
                proof {
                    assert(old(self).queue@ =~= self.queue@.push(node));
                    lemma_queue_views_push(self.queue@, node);
                    assert(queue_views(old(self).queue@) =~= queue_views(self.queue@).push(
                        node_view(*node),
                    ));
                    lemma_pending_push(queue_views(self.queue@), node_view(*node));
                }
                match &node.contents {
                    NodeContents::Children(x) => {
                        let ghost q0 = queue_views(self.queue@);
                        let mut i: usize = x.len();
                        proof {
                            lemma_nodes_view_len(x@);
                            assert(nodes_view(x@).skip(x@.len() as int) =~= Seq::<
                                NodeV,
                            >::empty());
                            assert(nodes_view(x@).skip(x@.len() as int).reverse() =~= Seq::<
                                NodeV,
                            >::empty());
                            assert(queue_views(self.queue@) =~= q0 + nodes_view(x@).skip(
                                x@.len() as int,
                            ).reverse());
                        }
                        while i > 0
                            invariant
                                i <= x@.len(),
                                nodes_view(x@).len() == x@.len(),
                                node.contents == NodeContents::Children(*x),
                                queue_views(self.queue@) =~= q0 + nodes_view(x@).skip(
                                    i as int,
                                ).reverse(),
                            decreases i,
                        {
                            i = i - 1;
                            let ghost preq = self.queue@;
                            let child: &'a Node = &x[i];
                            self.queue.push(child);
                            proof {
                                assert(self.queue@ =~= preq.push(child));
                                lemma_queue_views_push(preq, child);
                                lemma_nodes_view_index(x@, i as int);
                                assert(node_view(*child) == nodes_view(x@)[i as int]);
                                assert(nodes_view(x@).skip(i as int).reverse() =~= nodes_view(
                                    x@,
                                ).skip(i + 1).reverse().push(nodes_view(x@)[i as int]));
                                assert(queue_views(self.queue@) =~= (q0 + nodes_view(x@).skip(
                                    i + 1,
                                ).reverse()) + seq![node_view(*child)]);
                            }
                        }
                        proof {
                            assert(nodes_view(x@).skip(0) =~= nodes_view(x@));
                            lemma_pending_push_reversed(q0, nodes_view(x@));
                            assert(preorder(node_view(*node)) =~= seq![node_view(*node)]
                                + preorders(nodes_view(x@)));
                        }
                        Some(node)
                    },
                    NodeContents::Data(_) => {
                        proof {
                            assert(preorder(node_view(*node)) =~= seq![node_view(*node)]);
                        }
                        Some(node)
                    },
                }
            },
            None => None,
        }
    }
}

impl Node {
    /// Traverses the tree rooted at this node in pre-order, starting with
    /// the node itself.
    pub fn preOrder<'a>(&'a self) -> (r: PreOrderNodes<'a>)
        ensures
            r@ =~= preorder(self@),
    {
        let mut queue: Vec<&Node> = Vec::new();
        queue.push(self);
        proof {
            lemma_queue_views_push(Seq::empty(), self);
            assert(queue_views(queue@) =~= seq![node_view(*self)]);
            assert(queue_views(queue@).last() == node_view(*self));
            assert(queue_views(queue@).drop_last() =~= Seq::<NodeV>::empty());
            assert(pending(queue_views(queue@)) =~= preorder(node_view(*self)) + pending(
                Seq::<NodeV>::empty(),
            ));
        }
        PreOrderNodes { queue }
    }
}

/// A pre-order traversal yields at least its root.
pub proof fn lemma_preorder_nonempty(n: NodeV)
    ensures
        preorder(n).len() >= 1,
        preorder(n)[0] == n,
{
    match n.contents {
        ContentsV::Data(_) => {},
        ContentsV::Children(_) => {},
    }
}

/// A traversal is done exactly when its queue is empty.
pub proof fn lemma_pending_len(q: Seq<&Node>)
    ensures
        pending(queue_views(q)).len() == 0 <==> q.len() == 0,
{
    lemma_queue_views_len(q);
    if q.len() > 0 {
        let qs = queue_views(q);
        lemma_preorder_nonempty(qs.last());
    }
}

/// The next node a traversal yields is the view of the back of its queue.
pub proof fn lemma_pending_head(q: Seq<&Node>)
    requires
        q.len() > 0,
    ensures
        pending(queue_views(q)).len() > 0,
        pending(queue_views(q))[0] == node_view(*q[q.len() - 1]),
{
    lemma_queue_views_len(q);
    let qs = queue_views(q);
    lemma_queue_views_index(q, q.len() - 1);
    lemma_preorder_nonempty(qs.last());
}

/// The decimal digits of a non-negative number.
pub open spec fn spec_decimal(n: int) -> Seq<u8>
    recommends
        n >= 0,
    decreases n,
{
    if n < 10 {
        seq![(48 + if n >= 0 {
            n
        } else {
            0
        }) as u8]
    } else {
        spec_decimal(n / 10) + seq![(48 + n % 10) as u8]
    }
}

fn decimalBytes(n: usize) -> (r: Vec<u8>)
    ensures
        r@ == spec_decimal(n as int),
    decreases n,
{
    if n < 10 {
        let mut out: Vec<u8> = Vec::new();
        out.push(48 + (n as u8));
        proof {
            assert(out@ =~= spec_decimal(n as int));
        }
        out
    } else {
        let mut out = decimalBytes(n / 10);
        out.push(48 + ((n % 10) as u8));
        proof {
            assert(out@ =~= spec_decimal(n as int));
        }
        out
    }
}

/// A run of spaces.
pub open spec fn spec_indent(k: int) -> Seq<u8> {
    Seq::new(if k >= 0 {
        k as nat
    } else {
        0
    }, |i: int| 32u8)
}

/// One node per line, indented by depth: the display name, the
/// `[start, end>` span, and for a leaf its bytes between quotes.
pub open spec fn spec_format(n: NodeV, indent: int) -> Seq<u8>
    decreases n, 0int,
{
    let name_bytes = if n.name.len() > 0 {
        vstd::utf8::encode_utf8(n.name)
    } else {
        vstd::utf8::encode_utf8("<none>"@)
    };
    let head = spec_indent(indent) + name_bytes + vstd::utf8::encode_utf8(" ["@) + spec_decimal(
        n.start,
    ) + vstd::utf8::encode_utf8(", "@) + spec_decimal(n.end) + vstd::utf8::encode_utf8(">"@);
    match n.contents {
        ContentsV::Data(d) => head + vstd::utf8::encode_utf8(": \""@) + d
            + vstd::utf8::encode_utf8("\"\n"@),
        ContentsV::Children(c) => head + vstd::utf8::encode_utf8("\n"@) + spec_format_list(
            c,
            if indent < usize::MAX {
                indent + 1
            } else {
                indent
            },
        ),
    }
}

pub open spec fn spec_format_list(c: Seq<NodeV>, indent: int) -> Seq<u8>
    decreases c, 1int,
{
    if c.len() == 0 {
        Seq::empty()
    } else {
        spec_format(c[0], indent) + spec_format_list(c.drop_first(), indent)
    }
}

impl Node {
    /// Writes the tree dump of this node and everything beneath it.
    pub fn format(&self, indent_spaces: usize) -> (r: Vec<u8>)
        ensures
            r@ == spec_format(self@, indent_spaces as int),
        decreases *self, 0int,
    {
        let mut out: Vec<u8> = Vec::new();
        let mut i: usize = 0;
        while i < indent_spaces
            invariant
                i <= indent_spaces,
                out@ =~= spec_indent(indent_spaces as int).take(i as int),
            decreases indent_spaces - i,
        {
            out.push(32);
            proof {
                assert(out@ =~= spec_indent(indent_spaces as int).take(i + 1));
            }
            i += 1;
        }
        proof {
            assert(spec_indent(indent_spaces as int).take(indent_spaces as int) =~= spec_indent(
                indent_spaces as int,
            ));
        }
        let mut name = vstd::slice::slice_to_vec(self.displayName().as_bytes());
        out.append(&mut name);
        let mut open_bracket = vstd::slice::slice_to_vec(" [".as_bytes());
        out.append(&mut open_bracket);
        let mut start_digits = decimalBytes(self.start);
        out.append(&mut start_digits);
        let mut comma = vstd::slice::slice_to_vec(", ".as_bytes());
        out.append(&mut comma);
        let mut end_digits = decimalBytes(self.end);
        out.append(&mut end_digits);
        let mut close_bracket = vstd::slice::slice_to_vec(">".as_bytes());
        out.append(&mut close_bracket);
        match &self.contents {
            NodeContents::Data(d) => {
                let mut quote = vstd::slice::slice_to_vec(": \"".as_bytes());
                out.append(&mut quote);
                let mut data = vstd::slice::slice_to_vec(d.as_slice());
                out.append(&mut data);
                let mut endquote = vstd::slice::slice_to_vec("\"\n".as_bytes());
                out.append(&mut endquote);
                proof {
                    assert(out@ =~= spec_format(self@, indent_spaces as int));
                }
            },
            NodeContents::Children(children) => {
                let mut newline = vstd::slice::slice_to_vec("\n".as_bytes());
                out.append(&mut newline);
                let next_indent = if indent_spaces < usize::MAX {
                    indent_spaces + 1
                } else {
                    indent_spaces
                };
                let ghost cv = nodes_view(children@);
                let ghost mid = out@;
                let mut j: usize = 0;
                proof {
                    lemma_nodes_view_len(children@);
                    assert(cv.skip(0) =~= cv);
                }
                while j < children.len()
                    invariant
                        j <= children@.len(),
                        cv == nodes_view(children@),
                        cv.len() == children@.len(),
                        node_has_children(*self, *children),
                        next_indent == if indent_spaces < usize::MAX {
                            indent_spaces + 1
                        } else {
                            indent_spaces as int
                        },
                        spec_format_list(cv, next_indent as int) =~= out@.skip(
                            mid.len() as int,
                        ) + spec_format_list(cv.skip(j as int), next_indent as int),
                        mid.len() <= out@.len(),
                        out@.take(mid.len() as int) =~= mid,
                    decreases children@.len() - j,
                {
                    proof {
                        lemma_children_decrease(*self, *children, j as int);
                        lemma_nodes_view_index(children@, j as int);
                        assert(cv.skip(j as int)[0] == cv[j as int]);
                    }
                    let mut piece = children[j].format(next_indent);
                    out.append(&mut piece);
                    proof {
                        assert(cv.skip(j as int).drop_first() =~= cv.skip(j + 1));
                        assert(out@.skip(mid.len() as int) =~= (out@.take(
                            out@.len() - piece@.len(),
                        ).skip(mid.len() as int)) + piece@);
                        assert(out@.take(mid.len() as int) =~= mid);
                    }
                    j += 1;
                }
                proof {
                    assert(cv.skip(cv.len() as int) =~= Seq::<NodeV>::empty());
                    assert(out@ =~= mid + out@.skip(mid.len() as int));
                    assert(out@ =~= spec_format(self@, indent_spaces as int));
                }
            },
        }
        out
    }
}

/// The tie between a node and the vector its children live in.
pub open spec fn node_has_children(n: Node, c: Vec<Node>) -> bool {
    n.contents == NodeContents::Children(c)
}

} // verus!
