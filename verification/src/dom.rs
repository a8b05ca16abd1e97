//! The document model: lexical tokens, nodes, and the node arena.
//!
//! Nodes live in a single growable arena; a node's identity is its index in
//! that arena, assigned monotonically and never reused.  `doc_wf` captures
//! the tree shape: every non-root node has exactly one parent, appears
//! exactly once in that parent's child list, child indices always exceed the
//! parent's index (so the relation is acyclic), and void elements are
//! childless.

use vstd::prelude::*;


verus! {

/// Stable index of a node in the document arena.
pub type NodeId = usize;

/// A lexical token produced by the tokenizer.
#[derive(Debug, Clone, PartialEq, Eq)]
pub enum Token {
    StartTag { name: String },
    EndTag { name: String },
    Text(String),
}

/// Mathematical image of a `Token`.
pub enum TokenV {
    StartTag { name: Seq<char> },
    EndTag { name: Seq<char> },
    Text(Seq<char>),
}

impl View for Token {
    type V = TokenV;

    open spec fn view(&self) -> TokenV {
        match self {
            Token::StartTag { name } => TokenV::StartTag { name: name@ },
            Token::EndTag { name } => TokenV::EndTag { name: name@ },
            Token::Text(t) => TokenV::Text(t@),
        }
    }
}

impl DeepView for Token {
    type V = TokenV;

    open spec fn deep_view(&self) -> TokenV {
        self.view()
    }
}

/// Payload of an element node.
#[derive(Debug, Clone, PartialEq, Eq)]
pub struct ElementData {
    pub tag_name: String,
}

impl View for ElementData {
    type V = Seq<char>;

    open spec fn view(&self) -> Seq<char> {
        self.tag_name@
    }
}

/// What a node is: an element with a tag name, or a run of text.
#[derive(Debug, Clone, PartialEq, Eq)]
pub enum NodeKind {
    Element(ElementData),
    Text(String),
}

/// Mathematical image of a `NodeKind`.
pub enum NodeKindV {
    Element(Seq<char>),
    Text(Seq<char>),
}

impl View for NodeKind {
    type V = NodeKindV;

    open spec fn view(&self) -> NodeKindV {
        match self {
            NodeKind::Element(el) => NodeKindV::Element(el@),
            NodeKind::Text(t) => NodeKindV::Text(t@),
        }
    }
}

/// A node in the arena: its kind plus the tree bookkeeping.
#[derive(Debug, Clone, PartialEq, Eq)]
pub struct Node {
    pub parent: Option<NodeId>,
    pub children: Vec<NodeId>,
    pub kind: NodeKind,
}

/// Mathematical image of a `Node`.
pub struct NodeV {
    pub parent: Option<NodeId>,
    pub children: Seq<NodeId>,
    pub kind: NodeKindV,
}

impl View for Node {
    type V = NodeV;

    open spec fn view(&self) -> NodeV {
        NodeV { parent: self.parent, children: self.children@, kind: self.kind@ }
    }
}

impl DeepView for Node {
    type V = NodeV;

    open spec fn deep_view(&self) -> NodeV {
        self.view()
    }
}

/// A parsed document: the arena plus the index of the synthetic root.
#[derive(Debug, Clone, PartialEq, Eq)]
pub struct Document {
    pub root: NodeId,
    pub nodes: Vec<Node>,
}

/// Mathematical image of a `Document`.
pub struct DocV {
    pub root: NodeId,
    pub nodes: Seq<NodeV>,
}

impl View for Document {
    type V = DocV;

    open spec fn view(&self) -> DocV {
        DocV { root: self.root, nodes: self.nodes.deep_view() }
    }
}

/// The tag names that never receive children.
pub open spec fn is_void(name: Seq<char>) -> bool {
    ||| name == "br"@
    ||| name == "img"@
    ||| name == "meta"@
    ||| name == "link"@
    ||| name == "hr"@
    ||| name == "input"@
}

/// Executable test for the void-element tag names.
pub fn is_void_element(name: &str) -> (b: bool)
    ensures
        b == is_void(name@),
{
    crate::text::str_eq(name, "br") || crate::text::str_eq(name, "img") || crate::text::str_eq(
        name,
        "meta",
    ) || crate::text::str_eq(name, "link") || crate::text::str_eq(name, "hr")
        || crate::text::str_eq(name, "input")
}

/// The tag name of node `i`, or the empty sequence for a text node.
pub open spec fn tag_of(d: DocV, i: int) -> Seq<char> {
    match d.nodes[i].kind {
        NodeKindV::Element(name) => name,
        NodeKindV::Text(_) => Seq::empty(),
    }
}

/// The child list of node `i` is sorted, in range, and consistent with the
/// children's parent references.
pub open spec fn child_list_wf(d: DocV, i: int) -> bool {
    let ch = d.nodes[i].children;
    &&& forall|k: int|
        0 <= k < ch.len() ==> i < #[trigger] ch[k] < d.nodes.len() && d.nodes[ch[k] as int].parent
            == Some(i as NodeId)
    &&& forall|k1: int, k2: int| 0 <= k1 < k2 < ch.len() ==> ch[k1] < ch[k2]
}

/// Well-formedness of a document: a single tree rooted at index 0.
pub open spec fn doc_wf(d: DocV) -> bool {
    &&& d.root == 0
    &&& d.nodes.len() >= 1
    &&& d.nodes[0].parent is None
    &&& d.nodes[0].kind matches NodeKindV::Element(name) && name == "document"@
    &&& forall|i: int|
        1 <= i < d.nodes.len() ==> ((#[trigger] d.nodes[i].parent) matches Some(p) && p < i)
    &&& forall|i: int| 0 <= i < d.nodes.len() ==> #[trigger] child_list_wf(d, i)
    &&& forall|i: int|
        1 <= i < d.nodes.len() ==> #[trigger] d.nodes[(d.nodes[i].parent->0) as int].children.contains(
            i as NodeId,
        )
    &&& forall|i: int|
        0 <= i < d.nodes.len() && is_void(tag_of(d, i)) ==> (
        #[trigger] d.nodes[i].children).len() == 0
}

/// How many times `v` occurs in a child list.
pub open spec fn count_of(ch: Seq<NodeId>, v: NodeId) -> int
    decreases ch.len(),
{
    if ch.len() == 0 {
        0
    } else {
        (if ch[0] == v {
            1int
        } else {
            0int
        }) + count_of(ch.drop_first(), v)
    }
}

/// The tree invariant, spelled out: every non-root node is listed exactly
/// once in its parent's child list and in no other node's child list, and no
/// void element has children.
pub proof fn lemma_tree_invariant(d: DocV, i: int)
    requires
        doc_wf(d),
        1 <= i < d.nodes.len(),
    ensures
        d.nodes[i].parent matches Some(p) && count_of(d.nodes[p as int].children, i as NodeId) == 1,
        forall|q: int|
            0 <= q < d.nodes.len() && q != d.nodes[i].parent->0 ==> count_of(
                #[trigger] d.nodes[q].children,
                i as NodeId,
            ) == 0,
        forall|q: int|
            0 <= q < d.nodes.len() && is_void(tag_of(d, q)) ==> (
            #[trigger] d.nodes[q].children).len() == 0,
{
    let p = d.nodes[i].parent->0;
    let ch = d.nodes[p as int].children;
    assert(child_list_wf(d, p as int));
    assert(ch.contains(i as NodeId));
    let k = choose|k: int| 0 <= k < ch.len() && ch[k] == i as NodeId;
    assert(0 <= k < ch.len() && ch[k] == i as NodeId);
    lemma_sorted_count(ch, i as NodeId, k);
    assert forall|q: int|
        0 <= q < d.nodes.len() && q != d.nodes[i].parent->0 implies count_of(
        #[trigger] d.nodes[q].children,
        i as NodeId,
    ) == 0 by {
        assert(child_list_wf(d, q));
        let ch2 = d.nodes[q].children;
        assert forall|j: int| 0 <= j < ch2.len() implies ch2[j] != i as NodeId by {
            if ch2[j] == i as NodeId {
                assert(d.nodes[i].parent == Some(q as NodeId));
            }
        }
        lemma_absent_count(ch2, i as NodeId);
    }
}

/// In a strictly increasing list that holds `v` at position `k`, `v` is
/// counted exactly once.
proof fn lemma_sorted_count(ch: Seq<NodeId>, v: NodeId, k: int)
    requires
        forall|k1: int, k2: int| 0 <= k1 < k2 < ch.len() ==> ch[k1] < ch[k2],
        0 <= k < ch.len(),
        ch[k] == v,
    ensures
        count_of(ch, v) == 1,
    decreases ch.len(),
{
    let d = ch.drop_first();
    assert(forall|k1: int, k2: int| 0 <= k1 < k2 < d.len() ==> d[k1] < d[k2]);
    if k == 0 {
        assert(forall|j: int| 0 <= j < d.len() ==> d[j] != v);
        lemma_absent_count(d, v);
        assert(count_of(ch, v) == 1 + count_of(d, v));
    } else {
        lemma_sorted_count(d, v, k - 1);
        assert(ch[0] != v);
        assert(count_of(ch, v) == count_of(d, v));
    }
}

/// A value that occurs nowhere in a list is counted zero times.
proof fn lemma_absent_count(ch: Seq<NodeId>, v: NodeId)
    requires
        forall|j: int| 0 <= j < ch.len() ==> ch[j] != v,
    ensures
        count_of(ch, v) == 0,
    decreases ch.len(),
{
    if ch.len() > 0 {
        lemma_absent_count(ch.drop_first(), v);
    }
}

} // verus!
