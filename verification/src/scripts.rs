//! The script collector: walks the arena in index order and extracts the
//! raw text content of `script` elements.
//!
//! One snippet is produced per `script` element whose concatenated
//! direct-text-child content is non-blank; concatenation preserves child
//! order and never alters whitespace.

use vstd::prelude::*;

use crate::dom::{doc_wf, DocV, Document, NodeId, NodeKind, NodeKindV};
use crate::text::{is_blank, str_eq};

verus! {

/// The extracted code of one `script` element.
#[derive(Debug, PartialEq, Eq)]
pub struct ScriptSnippet {
    pub node_id: NodeId,
    pub code: String,
}

impl Clone for ScriptSnippet {
    /// The copy carries the same node and the same code.
    fn clone(&self) -> (r: Self)
        ensures
            r@ == self@,
    {
        ScriptSnippet { node_id: self.node_id, code: self.code.clone() }
    }
}

/// Mathematical image of a `ScriptSnippet`.
pub struct ScriptSnippetV {
    pub node_id: NodeId,
    pub code: Seq<char>,
}

impl View for ScriptSnippet {
    type V = ScriptSnippetV;

    open spec fn view(&self) -> ScriptSnippetV {
        ScriptSnippetV { node_id: self.node_id, code: self.code@ }
    }
}

impl DeepView for ScriptSnippet {
    type V = ScriptSnippetV;

    open spec fn deep_view(&self) -> ScriptSnippetV {
        self.view()
    }
}

/// The concatenated content of the text nodes among `ch`, from index `k`.
pub open spec fn spec_script_text(d: DocV, ch: Seq<NodeId>, k: int) -> Seq<char>
    decreases ch.len() - k,
    when 0 <= k <= ch.len()
{
    if k >= ch.len() {
        Seq::empty()
    } else {
        (match d.nodes[ch[k] as int].kind {
            NodeKindV::Text(t) => t,
            NodeKindV::Element(_) => Seq::empty(),
        }) + spec_script_text(d, ch, k + 1)
    }
}

/// Whether node `i` is a `script` element.
pub open spec fn is_script_node(d: DocV, i: int) -> bool {
    d.nodes[i].kind matches NodeKindV::Element(tag) && tag == "script"@
}

/// The snippets contributed by nodes `i` and onward, in index order.
pub open spec fn spec_scripts_from(d: DocV, i: int) -> Seq<ScriptSnippetV>
    decreases d.nodes.len() - i,
    when 0 <= i <= d.nodes.len()
{
    if i >= d.nodes.len() {
        Seq::empty()
    } else {
        let code = spec_script_text(d, d.nodes[i].children, 0);
        (if is_script_node(d, i) && !is_blank(code) {
            seq![ScriptSnippetV { node_id: i as NodeId, code }]
        } else {
            Seq::empty()
        }) + spec_scripts_from(d, i + 1)
    }
}

/// All snippets of the document.
pub open spec fn spec_scripts(d: DocV) -> Seq<ScriptSnippetV> {
    spec_scripts_from(d, 0)
}

/// Collects the snippets of every `script` element with non-blank content.
pub fn collect_scripts(document: &Document) -> (snippets: Vec<ScriptSnippet>)
    requires
        doc_wf(document@),
    ensures
        snippets.deep_view() == spec_scripts(document@),
{
    let mut snippets: Vec<ScriptSnippet> = Vec::new();
    let n = document.nodes.len();
    let mut i: usize = 0;
    proof {
        assert(snippets.deep_view() =~= Seq::<ScriptSnippetV>::empty());
        assert(spec_scripts(document@) == snippets.deep_view() + spec_scripts_from(document@, 0));
    }
    while i < n
        invariant
            doc_wf(document@),
            n == document@.nodes.len(),
            i <= n,
            spec_scripts(document@) == snippets.deep_view() + spec_scripts_from(
                document@,
                i as int,
            ),
        decreases n - i,
    {
        let ghost pre = snippets.deep_view();
        let is_script = match &document.nodes[i].kind {
            NodeKind::Element(el) => str_eq(el.tag_name.as_str(), "script"),
            NodeKind::Text(_) => false,
        };
        if is_script {
            let mut combined = String::new();
            let n_children = document.nodes[i].children.len();
            let mut k: usize = 0;
            proof {
                assert(crate::dom::child_list_wf(document@, i as int));
                assert(combined@ =~= Seq::<char>::empty());
                assert(spec_script_text(document@, document@.nodes[i as int].children, 0)
                    =~= combined@ + spec_script_text(
                    document@,
                    document@.nodes[i as int].children,
                    0,
                ));
            }
            while k < n_children
                invariant
                    doc_wf(document@),
                    i < n == document@.nodes.len(),
                    n_children == document@.nodes[i as int].children.len(),
                    k <= n_children,
                    crate::dom::child_list_wf(document@, i as int),
                    spec_script_text(document@, document@.nodes[i as int].children, 0)
                        == combined@ + spec_script_text(
                        document@,
                        document@.nodes[i as int].children,
                        k as int,
                    ),
                decreases n_children - k,
            {
                let child = document.nodes[i].children[k];
                let ghost ch = document@.nodes[i as int].children;
                proof {
                    assert(ch[k as int] == child && child < document@.nodes.len());
                }
                let ghost before = combined@;
                match &document.nodes[child].kind {
                    NodeKind::Text(text) => {
                        combined.append(text.as_str());
                    },
                    NodeKind::Element(_) => {},
                }
                k = k + 1;
                proof {
                    assert(spec_script_text(document@, ch, k - 1) == (match document@.nodes[
                        child as int].kind {
                        NodeKindV::Text(t) => t,
                        NodeKindV::Element(_) => Seq::<char>::empty(),
                    }) + spec_script_text(document@, ch, k as int));
                    assert(spec_script_text(document@, ch, 0) =~= combined@ + spec_script_text(
                        document@,
                        ch,
                        k as int,
                    ));
                }
            }
            proof {
                assert(spec_script_text(
                    document@,
                    document@.nodes[i as int].children,
                    n_children as int,
                ) =~= Seq::<char>::empty());
                assert(combined@ =~= spec_script_text(
                    document@,
                    document@.nodes[i as int].children,
                    0,
                ));
            }
            let cv = crate::text::chars_of(combined.as_str());
            if !crate::text::blank_chars(&cv) {
                snippets.push(ScriptSnippet { node_id: i, code: combined });
                proof {
                    assert(snippets.deep_view() =~= pre + seq![
                        ScriptSnippetV {
                            node_id: i as NodeId,
                            code: spec_script_text(
                                document@,
                                document@.nodes[i as int].children,
                                0,
                            ),
                        },
                    ]);
                }
            }
        }
        i = i + 1;
        proof {
            assert(spec_scripts(document@) =~= snippets.deep_view() + spec_scripts_from(
                document@,
                i as int,
            ));
        }
    }
    proof {
        assert(spec_scripts_from(document@, n as int) =~= Seq::<ScriptSnippetV>::empty());
        assert(snippets.deep_view() =~= spec_scripts(document@));
    }
    snippets
}

} // verus!
