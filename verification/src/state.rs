//! The immutable cursor a parse threads through the matchers.
//!
//! A parse state borrows the unconsumed tail of the input together with the
//! absolute byte offset of that tail within the original input.  Matchers
//! never mutate a state; on success they return a new state whose offset is
//! advanced and whose input is a suffix of the old one.
use crate::node::{Node, NodeV, nodes_view, ContentsV};
use vstd::prelude::*;

verus! {

broadcast use vstd::std_specs::vec::group_vec_axioms, vstd::seq::group_seq_axioms;

/// The unconsumed input and its absolute position.
#[derive(Debug, Clone, PartialEq, Copy)]
pub struct ParseState<'a> {
    /// Unconsumed input: a suffix of the original input.
    pub input: &'a [u8],
    /// Byte offset of `input` from the start of the original input.
    pub offset: usize,
}

/// The mathematical image of a [`ParseState`].
#[verifier::ext_equal]
pub struct StateV {
    pub input: Seq<u8>,
    pub offset: int,
}

impl StateV {
    /// A state stays within machine limits: advancing to the end of the
    /// input cannot overflow a `usize` offset.
    pub open spec fn wf(self) -> bool {
        0 <= self.offset && self.offset + self.input.len() <= usize::MAX
    }

    /// The state after consuming `n` bytes.
    pub open spec fn advanced(self, n: int) -> StateV {
        StateV { input: self.input.subrange(n, self.input.len() as int), offset: self.offset + n }
    }
}

impl<'a> View for ParseState<'a> {
    type V = StateV;

    open spec fn view(&self) -> StateV {
        StateV { input: self.input@, offset: self.offset as int }
    }
}

impl<'a> ParseState<'a> {
    /// Machine-limit side of well-formedness, mirrored on the executable
    /// type.
    pub open spec fn wf(self) -> bool {
        self@.wf()
    }

    /// The state whose absolute offset is `new_offset`, carved from this
    /// one.
    pub fn advanceTo(&self, new_offset: usize) -> (r: ParseState<'a>)
        requires
            self.offset <= new_offset,
            new_offset - self.offset <= self.input@.len(),
        ensures
            r@ == self@.advanced(new_offset - self.offset),
    {
        ParseState {
            input: vstd::slice::slice_subrange(
                self.input,
                new_offset - self.offset,
                self.input.len(),
            ),
            offset: new_offset,
        }
    }

    /// The input bytes between this state's offset and `new_offset`.
    pub fn sliceTo(&self, new_offset: usize) -> (r: &'a [u8])
        requires
            self.offset <= new_offset,
            new_offset - self.offset <= self.input@.len(),
        ensures
            r@ == self.input@.subrange(0, new_offset - self.offset),
    {
        vstd::slice::slice_subrange(self.input, 0, new_offset - self.offset)
    }
}

/// The nodes one matcher application produced, together with the advanced
/// state.
pub struct ParseResult<'a> {
    pub nodes: Vec<Node>,
    pub parse_state: ParseState<'a>,
}

/// The mathematical image of a [`ParseResult`].
#[verifier::ext_equal]
pub struct ResultV {
    pub nodes: Seq<NodeV>,
    pub state: StateV,
}

impl<'a> View for ParseResult<'a> {
    type V = ResultV;

    open spec fn view(&self) -> ResultV {
        ResultV { nodes: nodes_view(self.nodes@), state: self.parse_state@ }
    }
}

/// The image of an optional parse result, the outcome every matcher
/// returns.
pub open spec fn outcome_view(r: Option<ParseResult>) -> Option<ResultV> {
    match r {
        Some(res) => Some(res@),
        None => None,
    }
}

impl<'a> ParseResult<'a> {
    /// A result carrying exactly one node.
    pub fn oneNode(node: Node, parse_state: ParseState<'a>) -> (r: ParseResult<'a>)
        ensures
            r@.nodes =~= seq![node@],
            r@.state == parse_state@,
    {
        let mut nodes: Vec<Node> = Vec::new();
        nodes.push(node);
        proof {
            crate::node::lemma_nodes_view_push(Seq::empty(), node);
        }
        ParseResult { nodes, parse_state }
    }

    /// A result carrying no nodes.
    pub fn fromParseState(parse_state: ParseState<'a>) -> (r: ParseResult<'a>)
        ensures
            r@.nodes =~= Seq::<NodeV>::empty(),
            r@.state == parse_state@,
    {
        ParseResult { nodes: Vec::new(), parse_state }
    }
}

impl<'a> ParseState<'a> {
    /// A result of one anonymous leaf spanning this state's offset up to
    /// `new_offset`, holding the bytes in between.
    pub fn offsetToResult(&self, new_offset: usize) -> (r: Option<ParseResult<'a>>)
        requires
            self.offset <= new_offset,
            new_offset - self.offset <= self.input@.len(),
        ensures
            r matches Some(res) && res@.nodes =~= seq![
                NodeV {
                    name: ""@,
                    start: self.offset as int,
                    end: new_offset as int,
                    contents: ContentsV::Data(
                        self.input@.subrange(0, new_offset - self.offset),
                    ),
                },
            ] && res@.state == self@.advanced(new_offset - self.offset),
    {
        let data = self.sliceTo(new_offset);
        let bytes = vstd::slice::slice_to_vec(data);
        let node = Node::withoutName(
            self.offset,
            new_offset,
            crate::node::NodeContents::Data(bytes),
        );
        Some(ParseResult::oneNode(node, self.advanceTo(new_offset)))
    }
}

} // verus!
