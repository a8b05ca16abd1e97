//! The layout engine: assigns each renderable node a rectangle in viewport
//! space.
//!
//! A depth-first pre-order walk of the tree carries a vertical cursor.
//! Element boxes are indented by depth and sized by a fixed per-tag height;
//! non-blank text gets a fixed-height box; script subtrees are skipped; once
//! the cursor reaches the viewport height, no further boxes are emitted.
//! All arithmetic saturates.  The walk is proved to produce exactly
//! `spec_layout`, boxes are proved to come out in non-decreasing `y` order,
//! and every box is proved to start above the viewport's bottom edge.

use vstd::prelude::*;

use crate::dom::{doc_wf, DocV, Document, NodeId, NodeKindV};
use crate::text::is_blank;

verus! {

/// A positioned rectangle for one node.
#[derive(Debug, Clone, Copy, PartialEq, Eq)]
pub struct LayoutBox {
    pub node_id: NodeId,
    pub x: u32,
    pub y: u32,
    pub width: u32,
    pub height: u32,
}

/// The ordered list of boxes, in the order they were produced.
#[derive(Debug, Clone, PartialEq, Eq)]
pub struct LayoutTree {
    pub boxes: Vec<LayoutBox>,
}

impl View for LayoutTree {
    type V = Seq<LayoutBox>;

    open spec fn view(&self) -> Seq<LayoutBox> {
        self.boxes@
    }
}

/// Saturating addition on `u32`.
pub open spec fn sat_add(a: u32, b: u32) -> u32 {
    if a + b > u32::MAX {
        u32::MAX
    } else {
        (a + b) as u32
    }
}

/// Saturating subtraction on `u32`.
pub open spec fn sat_sub(a: u32, b: u32) -> u32 {
    if a >= b {
        (a - b) as u32
    } else {
        0
    }
}

/// Saturating multiplication on `u32`.
pub open spec fn sat_mul(a: u32, b: u32) -> u32 {
    if a * b > u32::MAX {
        u32::MAX
    } else {
        (a * b) as u32
    }
}

/// Executable saturating addition.
pub fn sat_add_exec(a: u32, b: u32) -> (r: u32)
    ensures
        r == sat_add(a, b),
{
    if a > u32::MAX - b {
        u32::MAX
    } else {
        a + b
    }
}

/// Executable saturating subtraction.
pub fn sat_sub_exec(a: u32, b: u32) -> (r: u32)
    ensures
        r == sat_sub(a, b),
{
    if a >= b {
        a - b
    } else {
        0
    }
}

/// Executable saturating multiplication.
pub fn sat_mul_exec(a: u32, b: u32) -> (r: u32)
    ensures
        r == sat_mul(a, b),
{
    if b != 0 && a > u32::MAX / b {
        proof {
            assert(a * b > u32::MAX) by (nonlinear_arith)
                requires
                    b != 0,
                    a > u32::MAX / b,
                    u32::MAX / b == u32::MAX as int / b as int,
            ;
        }
        u32::MAX
    } else {
        proof {
            if b != 0 {
                assert(a * b <= u32::MAX) by (nonlinear_arith)
                    requires
                        b != 0,
                        a <= u32::MAX / b,
                        u32::MAX / b == u32::MAX as int / b as int,
                ;
            } else {
                assert(a * b == 0) by (nonlinear_arith)
                    requires
                        b == 0,
                ;
            }
        }
        a * b
    }
}

/// The fixed height of an element box, by tag name.
pub open spec fn spec_element_height(tag: Seq<char>) -> u32 {
    if tag == "html"@ || tag == "body"@ {
        26
    } else if tag == "h1"@ {
        44
    } else if tag == "h2"@ {
        38
    } else if tag == "p"@ {
        26
    } else if tag == "div"@ {
        30
    } else if tag == "section"@ {
        34
    } else {
        24
    }
}

/// Executable per-tag height lookup.
pub fn element_height(tag_name: &str) -> (h: u32)
    ensures
        h == spec_element_height(tag_name@),
{
    if crate::text::str_eq(tag_name, "html") || crate::text::str_eq(tag_name, "body") {
        26
    } else if crate::text::str_eq(tag_name, "h1") {
        44
    } else if crate::text::str_eq(tag_name, "h2") {
        38
    } else if crate::text::str_eq(tag_name, "p") {
        26
    } else if crate::text::str_eq(tag_name, "div") {
        30
    } else if crate::text::str_eq(tag_name, "section") {
        34
    } else {
        24
    }
}

/// The boxes and final cursor for the subtree rooted at node `id`.
pub open spec fn spec_layout_node(
    d: DocV,
    id: int,
    depth: u32,
    cursor: u32,
    vw: u32,
    vh: u32,
) -> (Seq<LayoutBox>, u32)
    decreases d.nodes.len() - id, d.nodes[id].children.len() + 1,
        when doc_wf(d) && 0 <= id < d.nodes.len()
{
    if cursor >= vh {
        (Seq::empty(), cursor)
    } else {
        match d.nodes[id].kind {
            NodeKindV::Element(tag) => {
                if tag == "script"@ {
                    (Seq::empty(), cursor)
                } else {
                    let x = sat_add(8, sat_mul(depth, 12));
                    let width = if sat_sub(vw, sat_add(x, 8)) >= 8 {
                        sat_sub(vw, sat_add(x, 8))
                    } else {
                        8
                    };
                    let height = spec_element_height(tag);
                    let b = LayoutBox { node_id: id as NodeId, x, y: cursor, width, height };
                    let c2 = sat_add(sat_add(cursor, height), 6);
                    let r = spec_layout_children(d, id, 0, sat_add(depth, 1), c2, vw, vh);
                    (seq![b] + r.0, r.1)
                }
            },
            NodeKindV::Text(text) => {
                if is_blank(text) {
                    (Seq::empty(), cursor)
                } else {
                    let x = sat_add(12, sat_mul(depth, 12));
                    let width = if sat_sub(vw, sat_add(x, 8)) >= 8 {
                        sat_sub(vw, sat_add(x, 8))
                    } else {
                        8
                    };
                    (
                        seq![LayoutBox { node_id: id as NodeId, x, y: cursor, width, height: 18 }],
                        sat_add(cursor, 24),
                    )
                }
            },
        }
    }
}

/// The boxes and final cursor for the children of `parent` from index `k`
/// on, laid out as siblings.
pub open spec fn spec_layout_children(
    d: DocV,
    parent: int,
    k: int,
    depth: u32,
    cursor: u32,
    vw: u32,
    vh: u32,
) -> (Seq<LayoutBox>, u32)
    decreases d.nodes.len() - parent, d.nodes[parent].children.len() - k,
        when doc_wf(d) && 0 <= parent < d.nodes.len() && 0 <= k
            <= d.nodes[parent].children.len()
    via spec_layout_children_dec
{
    if k >= d.nodes[parent].children.len() {
        (Seq::empty(), cursor)
    } else {
        let c = d.nodes[parent].children[k] as int;
        let r1 = spec_layout_node(d, c, depth, cursor, vw, vh);
        let r2 = spec_layout_children(d, parent, k + 1, depth, r1.1, vw, vh);
        (r1.0 + r2.0, r2.1)
    }
}

#[via_fn]
proof fn spec_layout_children_dec(
    d: DocV,
    parent: int,
    k: int,
    depth: u32,
    cursor: u32,
    vw: u32,
    vh: u32,
) {
    assert(crate::dom::child_list_wf(d, parent));
}

/// The whole document's layout: the root's children, starting at cursor 8.
pub open spec fn spec_layout(d: DocV, vw: u32, vh: u32) -> Seq<LayoutBox> {
    spec_layout_children(d, 0, 0, 0, 8, vw, vh).0
}

/// The cursor only moves down, every box starts at or below the entry
/// cursor and strictly above the viewport's bottom edge, boxes come out in
/// non-decreasing `y` order, and no box starts below the final cursor.
pub proof fn lemma_layout_node_props(d: DocV, id: int, depth: u32, cursor: u32, vw: u32, vh: u32)
    requires
        doc_wf(d),
        0 <= id < d.nodes.len(),
    ensures
        ({
            let r = spec_layout_node(d, id, depth, cursor, vw, vh);
            &&& r.1 >= cursor
            &&& forall|j: int|
                0 <= j < r.0.len() ==> cursor <= (#[trigger] r.0[j]).y < vh && r.0[j].y <= r.1
                    && r.0[j].node_id < d.nodes.len()
            &&& forall|j1: int, j2: int| 0 <= j1 < j2 < r.0.len() ==> r.0[j1].y <= r.0[j2].y
        }),
    decreases d.nodes.len() - id, d.nodes[id].children.len() + 1,
{
    let r = spec_layout_node(d, id, depth, cursor, vw, vh);
    if cursor >= vh {
    } else {
        match d.nodes[id].kind {
            NodeKindV::Element(tag) => {
                if tag == "script"@ {
                } else {
                    let height = spec_element_height(tag);
                    let c2 = sat_add(sat_add(cursor, height), 6);
                    lemma_layout_children_props(d, id, 0, sat_add(depth, 1), c2, vw, vh);
                }
            },
            NodeKindV::Text(_) => {},
        }
    }
}

/// The sibling-walk counterpart of `lemma_layout_node_props`.
pub proof fn lemma_layout_children_props(
    d: DocV,
    parent: int,
    k: int,
    depth: u32,
    cursor: u32,
    vw: u32,
    vh: u32,
)
    requires
        doc_wf(d),
        0 <= parent < d.nodes.len(),
        0 <= k <= d.nodes[parent].children.len(),
    ensures
        ({
            let r = spec_layout_children(d, parent, k, depth, cursor, vw, vh);
            &&& r.1 >= cursor
            &&& forall|j: int|
                0 <= j < r.0.len() ==> cursor <= (#[trigger] r.0[j]).y < vh && r.0[j].y <= r.1
                    && r.0[j].node_id < d.nodes.len()
            &&& forall|j1: int, j2: int| 0 <= j1 < j2 < r.0.len() ==> r.0[j1].y <= r.0[j2].y
        }),
    decreases d.nodes.len() - parent, d.nodes[parent].children.len() - k,
{
    if k >= d.nodes[parent].children.len() {
    } else {
        assert(crate::dom::child_list_wf(d, parent));
        let c = d.nodes[parent].children[k] as int;
        let r1 = spec_layout_node(d, c, depth, cursor, vw, vh);
        lemma_layout_node_props(d, c, depth, cursor, vw, vh);
        lemma_layout_children_props(d, parent, k + 1, depth, r1.1, vw, vh);
        let r2 = spec_layout_children(d, parent, k + 1, depth, r1.1, vw, vh);
        let r = spec_layout_children(d, parent, k, depth, cursor, vw, vh);
        assert forall|j: int| 0 <= j < r.0.len() implies cursor <= (#[trigger] r.0[j]).y < vh
            && r.0[j].y <= r.1 && r.0[j].node_id < d.nodes.len() by {
            if j < r1.0.len() {
                assert(r.0[j] == r1.0[j]);
            } else {
                assert(r.0[j] == r2.0[j - r1.0.len()]);
            }
        }
        assert forall|j1: int, j2: int| 0 <= j1 < j2 < r.0.len() implies r.0[j1].y
            <= r.0[j2].y by {
            if j1 < r1.0.len() {
                assert(r.0[j1] == r1.0[j1]);
            } else {
                assert(r.0[j1] == r2.0[j1 - r1.0.len()]);
            }
            if j2 < r1.0.len() {
                assert(r.0[j2] == r1.0[j2]);
            } else {
                assert(r.0[j2] == r2.0[j2 - r1.0.len()]);
            }
        }
    }
}

/// Lays out the subtree rooted at `node_id`, appending its boxes, and
/// returns the advanced cursor.
fn layout_node(
    doc: &Document,
    node_id: NodeId,
    depth: u32,
    cursor_y: u32,
    viewport_width: u32,
    viewport_height: u32,
    boxes: &mut Vec<LayoutBox>,
) -> (out: u32)
    requires
        doc_wf(doc@),
        node_id < doc@.nodes.len(),
    ensures
        ({
            let r = spec_layout_node(
                doc@,
                node_id as int,
                depth,
                cursor_y,
                viewport_width,
                viewport_height,
            );
            final(boxes)@ == old(boxes)@ + r.0 && out == r.1
        }),
    decreases doc@.nodes.len() - node_id,
{
    let ghost r = spec_layout_node(
        doc@,
        node_id as int,
        depth,
        cursor_y,
        viewport_width,
        viewport_height,
    );
    if cursor_y >= viewport_height {
        proof {
            assert(boxes@ =~= boxes@ + r.0);
        }
        return cursor_y;
    }
    match &doc.nodes[node_id].kind {
        crate::dom::NodeKind::Element(el) => {
            if crate::text::str_eq(el.tag_name.as_str(), "script") {
                proof {
                    assert(boxes@ =~= boxes@ + r.0);
                }
                return cursor_y;
            }
            let x = sat_add_exec(8, sat_mul_exec(depth, 12));
            let w0 = sat_sub_exec(viewport_width, sat_add_exec(x, 8));
            let width = if w0 >= 8 {
                w0
            } else {
                8
            };
            let height = element_height(el.tag_name.as_str());
            let b = LayoutBox { node_id, x, y: cursor_y, width, height };
            boxes.push(b);
            let ghost pre = boxes@;
            let mut cursor = sat_add_exec(sat_add_exec(cursor_y, height), 6);
            let d2 = sat_add_exec(depth, 1);
            let ghost c2v = cursor;
            let ghost full = spec_layout_children(
                doc@,
                node_id as int,
                0,
                d2,
                cursor,
                viewport_width,
                viewport_height,
            );
            let n_children = doc.nodes[node_id].children.len();
            let mut k: usize = 0;
            proof {
                assert(full.0 =~= Seq::<LayoutBox>::empty() + full.0);
                assert(boxes@ =~= pre + Seq::<LayoutBox>::empty());
            }
            while k < n_children
                invariant
                    doc_wf(doc@),
                    node_id < doc@.nodes.len(),
                    n_children == doc@.nodes[node_id as int].children.len(),
                    k <= n_children,
                    full == spec_layout_children(
                        doc@,
                        node_id as int,
                        0,
                        d2,
                        c2v,
                        viewport_width,
                        viewport_height,
                    ),
                    ({
                        let rem = spec_layout_children(
                            doc@,
                            node_id as int,
                            k as int,
                            d2,
                            cursor,
                            viewport_width,
                            viewport_height,
                        );
                        full.0 == boxes@.skip(pre.len() as int) + rem.0 && full.1 == rem.1
                            && boxes@.len() >= pre.len() && boxes@.take(pre.len() as int) == pre
                    }),
                decreases n_children - k,
            {
                let ghost rem = spec_layout_children(
                    doc@,
                    node_id as int,
                    k as int,
                    d2,
                    cursor,
                    viewport_width,
                    viewport_height,
                );
                let child = doc.nodes[node_id].children[k];
                proof {
                    assert(crate::dom::child_list_wf(doc@, node_id as int));
                    assert(doc@.nodes[node_id as int].children[k as int] == child);
                }
                let ghost before = boxes@;
                let ghost c0 = cursor;
                cursor = layout_node(
                    doc,
                    child,
                    d2,
                    cursor,
                    viewport_width,
                    viewport_height,
                    boxes,
                );
                k = k + 1;
                proof {
                    let r1 = spec_layout_node(
                        doc@,
                        child as int,
                        d2,
                        c0,
                        viewport_width,
                        viewport_height,
                    );
                    let rem2 = spec_layout_children(
                        doc@,
                        node_id as int,
                        k as int,
                        d2,
                        cursor,
                        viewport_width,
                        viewport_height,
                    );
                    assert(rem.0 == r1.0 + rem2.0 && rem.1 == rem2.1);
                    assert(boxes@.skip(pre.len() as int) =~= before.skip(pre.len() as int)
                        + r1.0);
                    assert(full.0 =~= boxes@.skip(pre.len() as int) + rem2.0);
                    assert(boxes@.take(pre.len() as int) =~= pre);
                }
            }
            proof {
                let remn = spec_layout_children(
                    doc@,
                    node_id as int,
                    n_children as int,
                    d2,
                    cursor,
                    viewport_width,
                    viewport_height,
                );
                assert(remn.0 =~= Seq::<LayoutBox>::empty());
                assert(full.0 =~= boxes@.skip(pre.len() as int));
                assert(r.0 == seq![b] + full.0);
                assert(r.1 == full.1);
                assert(boxes@ =~= pre + boxes@.skip(pre.len() as int));
                assert(boxes@ =~= old(boxes)@ + r.0);
            }
            cursor
        },
        crate::dom::NodeKind::Text(text) => {
            let blank = {
                let tv = crate::text::chars_of(text.as_str());
                crate::text::blank_chars(&tv)
            };
            if !blank {
                let x = sat_add_exec(12, sat_mul_exec(depth, 12));
                let w0 = sat_sub_exec(viewport_width, sat_add_exec(x, 8));
                let width = if w0 >= 8 {
                    w0
                } else {
                    8
                };
                boxes.push(LayoutBox { node_id, x, y: cursor_y, width, height: 18 });
                proof {
                    assert(boxes@ =~= old(boxes)@ + r.0);
                }
                sat_add_exec(cursor_y, 24)
            } else {
                proof {
                    assert(boxes@ =~= boxes@ + r.0);
                }
                cursor_y
            }
        },
    }
}

/// Lays out a whole document for the given viewport.
pub fn layout_document(document: &Document, viewport_width: u32, viewport_height: u32) -> (tree:
    LayoutTree)
    requires
        doc_wf(document@),
    ensures
        tree@ == spec_layout(document@, viewport_width, viewport_height),
        forall|j: int|
            0 <= j < tree@.len() ==> (#[trigger] tree@[j]).y < viewport_height
                && tree@[j].node_id < document@.nodes.len(),
        forall|j1: int, j2: int| 0 <= j1 < j2 < tree@.len() ==> tree@[j1].y <= tree@[j2].y,
{
    let mut boxes: Vec<LayoutBox> = Vec::new();
    let ghost full = spec_layout_children(document@, 0, 0, 0, 8, viewport_width, viewport_height);
    let n_children = document.nodes[0].children.len();
    let mut cursor_y: u32 = 8;
    let mut k: usize = 0;
    proof {
        assert(boxes@ =~= Seq::<LayoutBox>::empty());
        assert(full.0 =~= Seq::<LayoutBox>::empty() + full.0);
    }
    while k < n_children
        invariant
            doc_wf(document@),
            n_children == document@.nodes[0].children.len(),
            k <= n_children,
            full == spec_layout_children(document@, 0, 0, 0, 8, viewport_width, viewport_height),
            ({
                let rem = spec_layout_children(
                    document@,
                    0,
                    k as int,
                    0,
                    cursor_y,
                    viewport_width,
                    viewport_height,
                );
                full.0 == boxes@ + rem.0 && full.1 == rem.1
            }),
        decreases n_children - k,
    {
        let ghost rem = spec_layout_children(
            document@,
            0,
            k as int,
            0,
            cursor_y,
            viewport_width,
            viewport_height,
        );
        let child = document.nodes[0].children[k];
        proof {
            assert(crate::dom::child_list_wf(document@, 0));
            assert(document@.nodes[0].children[k as int] == child);
        }
        let ghost before = boxes@;
        cursor_y = layout_node(
            document,
            child,
            0,
            cursor_y,
            viewport_width,
            viewport_height,
            &mut boxes,
        );
        k = k + 1;
        proof {
            let rem2 = spec_layout_children(
                document@,
                0,
                k as int,
                0,
                cursor_y,
                viewport_width,
                viewport_height,
            );
            assert(full.0 =~= boxes@ + rem2.0);
        }
    }
    proof {
        assert(full.0 =~= boxes@);
        lemma_layout_children_props(document@, 0, 0, 0, 8, viewport_width, viewport_height);
    }
    LayoutTree { boxes }
}

} // verus!
