//! The tree builder: consumes the token sequence and produces the document
//! arena.
//!
//! An explicit stack of open elements drives construction.  A start tag
//! creates a child of the stack's top and pushes it unless the tag is void;
//! an end tag pops open elements until one with the same name was popped
//! (force-closing intervening elements, which recovers from unbalanced
//! markup); text becomes a text node under the stack's top.  The builder is
//! proved to produce exactly `spec_parse` of the tokens, and the result is
//! proved well-formed (`doc_wf`).

use vstd::prelude::*;

use crate::dom::{
    child_list_wf, doc_wf, is_void, is_void_element, tag_of, DocV, Document, ElementData, Node,
    NodeId, NodeKind, NodeKindV, NodeV, Token, TokenV,
};

verus! {

/// The builder's state: the arena so far and the stack of open elements.
pub struct ParseState {
    pub nodes: Seq<NodeV>,
    pub stack: Seq<NodeId>,
}

/// The view of a token slice.
pub open spec fn token_views(ts: Seq<Token>) -> Seq<TokenV> {
    ts.map_values(|t: Token| t@)
}

/// The state before any token is consumed: the synthetic root, which is the
/// only open element.
pub open spec fn initial_state() -> ParseState {
    ParseState {
        nodes: seq![
            NodeV {
                parent: None,
                children: Seq::empty(),
                kind: NodeKindV::Element("document"@),
            },
        ],
        stack: seq![0 as NodeId],
    }
}

/// Pops open elements until the popped one carries `name`; the root is
/// never popped.  The result is what remains open.
pub open spec fn spec_pop_until(ns: Seq<NodeV>, stack: Seq<NodeId>, name: Seq<char>) -> Seq<
    NodeId,
>
    decreases stack.len(),
{
    if stack.len() <= 1 {
        stack
    } else {
        let top = stack.last();
        let matched = ns[top as int].kind matches NodeKindV::Element(t) && t == name;
        let rest = stack.drop_last();
        if matched {
            rest
        } else {
            spec_pop_until(ns, rest, name)
        }
    }
}

/// One token's effect on the builder's state.
pub open spec fn spec_step(st: ParseState, t: TokenV) -> ParseState {
    match t {
        TokenV::StartTag { name } => {
            let parent = if st.stack.len() > 0 {
                st.stack.last()
            } else {
                0 as NodeId
            };
            let id = st.nodes.len() as NodeId;
            let nodes = st.nodes.update(
                parent as int,
                NodeV {
                    parent: st.nodes[parent as int].parent,
                    children: st.nodes[parent as int].children.push(id),
                    kind: st.nodes[parent as int].kind,
                },
            ).push(NodeV { parent: Some(parent), children: Seq::empty(), kind: NodeKindV::Element(name) });
            let stack = if is_void(name) {
                st.stack
            } else {
                st.stack.push(id)
            };
            ParseState { nodes, stack }
        },
        TokenV::EndTag { name } => ParseState {
            nodes: st.nodes,
            stack: spec_pop_until(st.nodes, st.stack, name),
        },
        TokenV::Text(text) => {
            let parent = if st.stack.len() > 0 {
                st.stack.last()
            } else {
                0 as NodeId
            };
            let id = st.nodes.len() as NodeId;
            let nodes = st.nodes.update(
                parent as int,
                NodeV {
                    parent: st.nodes[parent as int].parent,
                    children: st.nodes[parent as int].children.push(id),
                    kind: st.nodes[parent as int].kind,
                },
            ).push(NodeV { parent: Some(parent), children: Seq::empty(), kind: NodeKindV::Text(text) });
            ParseState { nodes, stack: st.stack }
        },
    }
}

/// The state after consuming all of `toks`, starting from `st`.
pub open spec fn spec_parse_from(st: ParseState, toks: Seq<TokenV>) -> ParseState
    decreases toks.len(),
{
    if toks.len() == 0 {
        st
    } else {
        spec_parse_from(spec_step(st, toks.first()), toks.drop_first())
    }
}

/// The document built from a token sequence.
pub open spec fn spec_parse(toks: Seq<TokenV>) -> DocV {
    DocV { root: 0, nodes: spec_parse_from(initial_state(), toks).nodes }
}

/// The arena part of the builder's invariant, shared with `doc_wf`.
pub open spec fn nodes_wf(ns: Seq<NodeV>) -> bool {
    doc_wf(DocV { root: 0, nodes: ns })
}

/// The stack part of the builder's invariant: the root is at the bottom and
/// everything above it is a non-void element in the arena.
pub open spec fn stack_wf(ns: Seq<NodeV>, stack: Seq<NodeId>) -> bool {
    &&& stack.len() >= 1
    &&& stack[0] == 0
    &&& forall|k: int| 0 <= k < stack.len() ==> (#[trigger] stack[k]) < ns.len()
    &&& forall|k: int|
        1 <= k < stack.len() ==> ((#[trigger] ns[stack[k] as int].kind) matches NodeKindV::Element(
            t,
        ) && !is_void(t))
}

/// The full builder invariant.
pub open spec fn state_wf(st: ParseState) -> bool {
    nodes_wf(st.nodes) && stack_wf(st.nodes, st.stack)
}

/// The literal lengths of the distinguished tag names, so that the void
/// names can be told apart from other names without revealing them at every
/// use site.
pub proof fn lemma_tag_name_lens()
    ensures
        "br"@.len() == 2,
        "img"@.len() == 3,
        "meta"@.len() == 4,
        "link"@.len() == 4,
        "hr"@.len() == 2,
        "input"@.len() == 5,
        "document"@.len() == 8,
        "script"@.len() == 6,
        !is_void("document"@),
        !is_void("script"@),
        !is_void(Seq::<char>::empty()),
{
    reveal_strlit("br");
    reveal_strlit("img");
    reveal_strlit("meta");
    reveal_strlit("link");
    reveal_strlit("hr");
    reveal_strlit("input");
    reveal_strlit("document");
    reveal_strlit("script");
    assert(Seq::<char>::empty().len() == 0);
}

/// Appending a fresh childless node under a non-void parent keeps the arena
/// well-formed.
proof fn lemma_append_child(ns: Seq<NodeV>, parent: NodeId, kind: NodeKindV)
    requires
        nodes_wf(ns),
        ns.len() <= usize::MAX,
        parent < ns.len(),
        !is_void(tag_of(DocV { root: 0, nodes: ns }, parent as int)),
    ensures
        nodes_wf(
            ns.update(
                parent as int,
                NodeV {
                    parent: ns[parent as int].parent,
                    children: ns[parent as int].children.push(ns.len() as NodeId),
                    kind: ns[parent as int].kind,
                },
            ).push(NodeV { parent: Some(parent), children: Seq::empty(), kind }),
        ),
{
    let id = ns.len() as NodeId;
    let ns2 = ns.update(
        parent as int,
        NodeV {
            parent: ns[parent as int].parent,
            children: ns[parent as int].children.push(id),
            kind: ns[parent as int].kind,
        },
    ).push(NodeV { parent: Some(parent), children: Seq::empty(), kind });
    let d = DocV { root: 0, nodes: ns };
    let d2 = DocV { root: 0, nodes: ns2 };
    assert(ns2.len() == ns.len() + 1);
    assert forall|i: int| 0 <= i < ns2.len() implies #[trigger] child_list_wf(d2, i) by {
        if i < ns.len() {
            assert(child_list_wf(d, i));
            let ch = ns[i].children;
            if i == parent {
                let ch2 = ns2[i].children;
                assert(ch2 == ch.push(id));
                assert forall|k: int|
                    0 <= k < ch2.len() implies i < #[trigger] ch2[k] < ns2.len()
                    && ns2[ch2[k] as int].parent == Some(i as NodeId) by {
                    if k < ch.len() {
                        assert(ch2[k] == ch[k]);
                    }
                }
            } else {
                assert(ns2[i].children == ch);
                assert forall|k: int|
                    0 <= k < ch.len() implies i < #[trigger] ch[k] < ns2.len()
                    && ns2[ch[k] as int].parent == Some(i as NodeId) by {
                    assert(ch[k] < ns.len());
                }
            }
        } else {
            assert(ns2[i].children == Seq::<NodeId>::empty());
        }
    }
    assert forall|i: int|
        1 <= i < ns2.len() implies #[trigger] ns2[(ns2[i].parent->0) as int].children.contains(
        i as NodeId,
    ) by {
        if i < ns.len() {
            let p = (ns[i].parent->0) as int;
            assert(ns[p].children.contains(i as NodeId));
            let w = choose|w: int| 0 <= w < ns[p].children.len() && ns[p].children[w] == i as NodeId;
            if p == parent {
                assert(ns2[p].children[w] == i as NodeId);
            } else {
                assert(ns2[p].children[w] == i as NodeId);
            }
        } else {
            assert(ns2[parent as int].children.last() == id);
        }
    }
    assert forall|i: int|
        0 <= i < ns2.len() && is_void(tag_of(d2, i)) implies (#[trigger] ns2[i].children).len()
        == 0 by {
        if i < ns.len() {
            assert(tag_of(d2, i) == tag_of(d, i));
            if i == parent {
            } else {
                assert(ns2[i].children == ns[i].children);
            }
        }
    }
}

/// Popping open elements preserves the stack invariant: the result is a
/// prefix of the stack and the root stays at the bottom.
proof fn lemma_pop_until_wf(ns: Seq<NodeV>, stack: Seq<NodeId>, name: Seq<char>)
    requires
        stack_wf(ns, stack),
    ensures
        stack_wf(ns, spec_pop_until(ns, stack, name)),
        spec_pop_until(ns, stack, name).len() <= stack.len(),
    decreases stack.len(),
{
    if stack.len() <= 1 {
    } else {
        let rest = stack.drop_last();
        assert(stack_wf(ns, rest));
        let top = stack.last();
        let matched = ns[top as int].kind matches NodeKindV::Element(t) && t == name;
        if !matched {
            lemma_pop_until_wf(ns, rest, name);
        }
    }
}

/// One builder step preserves the invariant.
proof fn lemma_step_wf(st: ParseState, t: TokenV)
    requires
        state_wf(st),
        st.nodes.len() <= usize::MAX,
    ensures
        state_wf(spec_step(st, t)),
{
    lemma_tag_name_lens();
    match t {
        TokenV::StartTag { name } => {
            let parent = st.stack.last();
            let id = st.nodes.len() as NodeId;
            if st.stack.len() == 1 {
                assert(parent == 0);
                assert(!is_void(tag_of(DocV { root: 0, nodes: st.nodes }, parent as int)));
            } else {
                assert(st.nodes[parent as int].kind matches NodeKindV::Element(tg) && !is_void(
                    tg,
                ));
            }
            lemma_append_child(st.nodes, parent, NodeKindV::Element(name));
            let st2 = spec_step(st, t);
            assert forall|k: int| 0 <= k < st2.stack.len() implies (#[trigger] st2.stack[k])
                < st2.nodes.len() by {
                if k < st.stack.len() {
                    assert(st2.stack[k] == st.stack[k]);
                }
            }
            assert forall|k: int|
                1 <= k < st2.stack.len() implies ((
            #[trigger] st2.nodes[st2.stack[k] as int].kind) matches NodeKindV::Element(tg)
                && !is_void(tg)) by {
                if k < st.stack.len() {
                    assert(st2.stack[k] == st.stack[k]);
                    assert(st2.nodes[st.stack[k] as int].kind == st.nodes[st.stack[k] as int].kind);
                } else {
                    assert(st2.stack[k] == id);
                    assert(st2.nodes[id as int].kind == NodeKindV::Element(name));
                }
            }
        },
        TokenV::EndTag { name } => {
            lemma_pop_until_wf(st.nodes, st.stack, name);
        },
        TokenV::Text(text) => {
            let parent = st.stack.last();
            if st.stack.len() == 1 {
                assert(parent == 0);
            } else {
                assert(st.nodes[parent as int].kind matches NodeKindV::Element(tg) && !is_void(
                    tg,
                ));
            }
            lemma_append_child(st.nodes, parent, NodeKindV::Text(text));
            let st2 = spec_step(st, t);
            assert forall|k: int| 0 <= k < st2.stack.len() implies (#[trigger] st2.stack[k])
                < st2.nodes.len() by {
                assert(st2.stack[k] == st.stack[k]);
            }
            assert forall|k: int|
                1 <= k < st2.stack.len() implies ((
            #[trigger] st2.nodes[st2.stack[k] as int].kind) matches NodeKindV::Element(tg)
                && !is_void(tg)) by {
                assert(st2.stack[k] == st.stack[k]);
                assert(st2.nodes[st.stack[k] as int].kind == st.nodes[st.stack[k] as int].kind);
            }
        },
    }
}

/// Consuming one more token is one more step.
proof fn lemma_parse_from_snoc(st: ParseState, s: Seq<TokenV>, t: TokenV)
    ensures
        spec_parse_from(st, s.push(t)) == spec_step(spec_parse_from(st, s), t),
    decreases s.len(),
{
    if s.len() == 0 {
        assert(s.push(t).drop_first() =~= s);
        assert(s.push(t).first() == t);
        assert(spec_parse_from(st, s) == st);
        assert(spec_parse_from(st, s.push(t)) == spec_parse_from(spec_step(st, t), s));
    } else {
        assert(s.push(t).drop_first() =~= s.drop_first().push(t));
        assert(s.push(t).first() == s.first());
        lemma_parse_from_snoc(spec_step(st, s.first()), s.drop_first(), t);
        assert(spec_parse_from(st, s.push(t)) == spec_parse_from(
            spec_step(st, s.first()),
            s.drop_first().push(t),
        ));
        assert(spec_parse_from(st, s) == spec_parse_from(spec_step(st, s.first()), s.drop_first()));
    }
}

/// The initial state is well-formed.
proof fn lemma_initial_wf()
    ensures
        state_wf(initial_state()),
{
    lemma_tag_name_lens();
    let st = initial_state();
    assert(st.nodes[0].children =~= Seq::<NodeId>::empty());
    assert forall|i: int| 0 <= i < st.nodes.len() implies #[trigger] child_list_wf(
        DocV { root: 0, nodes: st.nodes },
        i,
    ) by {}
}

/// Builds the document for a token sequence.
pub fn parse_document(tokens: &[Token]) -> (doc: Document)
    ensures
        doc@ == spec_parse(token_views(tokens@)),
        doc_wf(doc@),
{
    let mut nodes: Vec<Node> = Vec::new();
    nodes.push(
        Node {
            parent: None,
            children: Vec::new(),
            kind: NodeKind::Element(ElementData { tag_name: "document".to_owned() }),
        },
    );
    let root: NodeId = 0;
    let mut stack: Vec<NodeId> = Vec::new();
    stack.push(root);
    let ghost tv = token_views(tokens@);
    proof {
        assert(nodes.deep_view() =~= initial_state().nodes);
        assert(stack@ =~= initial_state().stack);
        assert(tv.take(0) =~= Seq::<TokenV>::empty());
        lemma_initial_wf();
        assert(spec_parse_from(initial_state(), tv.take(0)) == initial_state());
    }
    let mut idx: usize = 0;
    while idx < tokens.len()
        invariant
            tv == token_views(tokens@),
            idx <= tokens@.len(),
            nodes.deep_view() == spec_parse_from(initial_state(), tv.take(idx as int)).nodes,
            stack@ == spec_parse_from(initial_state(), tv.take(idx as int)).stack,
            state_wf(spec_parse_from(initial_state(), tv.take(idx as int))),
        decreases tokens@.len() - idx,
    {
        let ghost st = spec_parse_from(initial_state(), tv.take(idx as int));
        let ghost pre_nodes = nodes.deep_view();
        proof {
            assert(tv.take(idx + 1) =~= tv.take(idx as int).push(tv[idx as int]));
            lemma_parse_from_snoc(initial_state(), tv.take(idx as int), tv[idx as int]);
            vstd::std_specs::vec::axiom_spec_len(&nodes);
            assert(st.nodes.len() <= usize::MAX);
            lemma_step_wf(st, tv[idx as int]);
        }
        match &tokens[idx] {
            Token::StartTag { name } => {
                let parent = if stack.len() > 0 {
                    stack[stack.len() - 1]
                } else {
                    root
                };
                let node_id = nodes.len();
                nodes.push(
                    Node {
                        parent: Some(parent),
                        children: Vec::new(),
                        kind: NodeKind::Element(ElementData { tag_name: name.clone() }),
                    },
                );
                proof {
                    assert(nodes.deep_view() =~= pre_nodes.push(
                        NodeV {
                            parent: Some(parent),
                            children: Seq::empty(),
                            kind: NodeKindV::Element(name@),
                        },
                    ));
                }
                nodes[parent].children.push(node_id);
                proof {
                    let st2 = spec_step(st, tv[idx as int]);
                    assert(nodes.deep_view() =~= st2.nodes);
                }
                if !is_void_element(name.as_str()) {
                    stack.push(node_id);
                }
                proof {
                    let st2 = spec_step(st, tv[idx as int]);
                    assert(stack@ =~= st2.stack);
                }
            },
            Token::EndTag { name } => {
                let ghost stack0 = stack@;
                let mut matched = false;
                while stack.len() > 1 && !matched
                    invariant
                        stack_wf(nodes.deep_view(), stack@),
                        nodes.deep_view() == st.nodes,
                        matched ==> spec_pop_until(st.nodes, stack0, name@) == stack@,
                        !matched ==> spec_pop_until(st.nodes, stack0, name@) == spec_pop_until(
                            st.nodes,
                            stack@,
                            name@,
                        ),
                    decreases stack@.len(),
                {
                    let node_id = stack[stack.len() - 1];
                    let should_pop = match &nodes[node_id].kind {
                        NodeKind::Element(el) => el.tag_name == *name,
                        NodeKind::Text(_) => false,
                    };
                    let ghost before = stack@;
                    stack.pop();
                    proof {
                        assert(stack@ =~= before.drop_last());
                        assert(stack_wf(nodes.deep_view(), stack@));
                    }
                    if should_pop {
                        matched = true;
                    }
                }
                proof {
                    let st2 = spec_step(st, tv[idx as int]);
                    if !matched {
                        assert(spec_pop_until(st.nodes, stack@, name@) == stack@);
                    }
                    assert(stack@ == st2.stack);
                    assert(nodes.deep_view() == st2.nodes);
                }
            },
            Token::Text(text) => {
                let parent = if stack.len() > 0 {
                    stack[stack.len() - 1]
                } else {
                    root
                };
                let node_id = nodes.len();
                nodes.push(
                    Node {
                        parent: Some(parent),
                        children: Vec::new(),
                        kind: NodeKind::Text(text.clone()),
                    },
                );
                proof {
                    assert(nodes.deep_view() =~= pre_nodes.push(
                        NodeV {
                            parent: Some(parent),
                            children: Seq::empty(),
                            kind: NodeKindV::Text(text@),
                        },
                    ));
                }
                nodes[parent].children.push(node_id);
                proof {
                    let st2 = spec_step(st, tv[idx as int]);
                    assert(nodes.deep_view() =~= st2.nodes);
                    assert(stack@ == st2.stack);
                }
            },
        }
        idx = idx + 1;
    }
    proof {
        assert(tv.take(tokens@.len() as int) =~= tv);
    }
    let doc = Document { root, nodes };
    proof {
        assert(doc@.nodes == spec_parse(tv).nodes);
        assert(nodes_wf(doc@.nodes));
        assert(doc_wf(DocV { root: 0, nodes: doc@.nodes }));
        assert(doc@ == DocV { root: 0, nodes: doc@.nodes });
    }
    doc
}

} // verus!
