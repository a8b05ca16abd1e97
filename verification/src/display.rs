//! The display-list builder: turns a document and its layout into an
//! ordered list of paint primitives.
//!
//! The first command is always the full-viewport background fill.  Each
//! layout box then contributes a fill in a fixed per-tag color and, when a
//! label applies, a text command inset 4px from the box's top-left corner.
//! Element labels are `<tag>`; text labels are the whitespace-condensed
//! content, truncated to 64 characters with a `...` suffix.

use vstd::prelude::*;

use crate::dom::{DocV, Document, NodeId, NodeKind, NodeKindV};
use crate::layout::{sat_add, sat_add_exec, LayoutBox, LayoutTree};
use crate::text::{
    first_space, is_space, is_space_char, lemma_first_space, lemma_first_space_is, str_eq,
};

verus! {

/// A primitive paint instruction.
#[derive(Debug, Clone, PartialEq, Eq)]
pub enum DisplayCommand {
    FillRect { x: u32, y: u32, width: u32, height: u32, color: [u8; 4] },
    DrawText { x: u32, y: u32, text: String, color: [u8; 4] },
}

/// Mathematical image of a `DisplayCommand`.
pub enum DisplayCommandV {
    FillRect { x: u32, y: u32, width: u32, height: u32, color: Seq<u8> },
    DrawText { x: u32, y: u32, text: Seq<char>, color: Seq<u8> },
}

impl View for DisplayCommand {
    type V = DisplayCommandV;

    open spec fn view(&self) -> DisplayCommandV {
        match self {
            DisplayCommand::FillRect { x, y, width, height, color } => DisplayCommandV::FillRect {
                x: *x,
                y: *y,
                width: *width,
                height: *height,
                color: color@,
            },
            DisplayCommand::DrawText { x, y, text, color } => DisplayCommandV::DrawText {
                x: *x,
                y: *y,
                text: text@,
                color: color@,
            },
        }
    }
}

impl DeepView for DisplayCommand {
    type V = DisplayCommandV;

    open spec fn deep_view(&self) -> DisplayCommandV {
        self.view()
    }
}

/// One rendered frame: the viewport and its ordered paint commands.
#[derive(Debug, Clone, PartialEq, Eq)]
pub struct DisplayList {
    pub viewport_width: u32,
    pub viewport_height: u32,
    pub commands: Vec<DisplayCommand>,
}

/// Mathematical image of a `DisplayList`.
pub struct DisplayListV {
    pub viewport_width: u32,
    pub viewport_height: u32,
    pub commands: Seq<DisplayCommandV>,
}

impl View for DisplayList {
    type V = DisplayListV;

    open spec fn view(&self) -> DisplayListV {
        DisplayListV {
            viewport_width: self.viewport_width,
            viewport_height: self.viewport_height,
            commands: self.commands.deep_view(),
        }
    }
}

/// An RGBA color as a byte sequence.
pub open spec fn rgba(r: u8, g: u8, b: u8, a: u8) -> Seq<u8> {
    seq![r, g, b, a]
}

/// The fill color of a node's box, by kind and tag name.
pub open spec fn spec_color(d: DocV, id: int) -> Seq<u8> {
    match d.nodes[id].kind {
        NodeKindV::Element(tag) => {
            if tag == "html"@ {
                rgba(233, 237, 248, 255)
            } else if tag == "body"@ {
                rgba(236, 241, 251, 255)
            } else if tag == "header"@ || tag == "footer"@ {
                rgba(195, 212, 250, 255)
            } else if tag == "main"@ || tag == "article"@ || tag == "section"@ || tag
                == "aside"@ {
                rgba(206, 221, 250, 255)
            } else if tag == "nav"@ {
                rgba(187, 206, 249, 255)
            } else if tag == "h1"@ {
                rgba(169, 192, 248, 255)
            } else if tag == "h2"@ || tag == "h3"@ {
                rgba(179, 201, 248, 255)
            } else if tag == "p"@ || tag == "li"@ || tag == "td"@ || tag == "th"@ {
                rgba(217, 228, 251, 255)
            } else {
                rgba(210, 224, 250, 255)
            }
        },
        NodeKindV::Text(_) => rgba(244, 246, 252, 255),
    }
}

/// The whitespace-separated words of a text run.
pub open spec fn spec_words(s: Seq<char>) -> Seq<Seq<char>>
    decreases s.len(),
    via spec_words_dec
{
    if s.len() == 0 {
        Seq::empty()
    } else if is_space(s[0]) {
        spec_words(s.drop_first())
    } else {
        let e = first_space(s);
        seq![s.take(e)] + spec_words(s.skip(e))
    }
}

#[via_fn]
proof fn spec_words_dec(s: Seq<char>) {
    lemma_first_space(s);
}

/// Words joined with single spaces.
pub open spec fn spec_join(ws: Seq<Seq<char>>) -> Seq<char>
    decreases ws.len(),
{
    if ws.len() == 0 {
        Seq::empty()
    } else if ws.len() == 1 {
        ws[0]
    } else {
        ws[0] + seq![' '] + spec_join(ws.drop_first())
    }
}

/// A text run with its whitespace runs condensed to single spaces and its
/// ends trimmed.
pub open spec fn spec_condense(s: Seq<char>) -> Seq<char> {
    spec_join(spec_words(s))
}

/// Truncation to at most `max` characters, with a `...` suffix when the
/// text was longer.
pub open spec fn spec_truncate(s: Seq<char>, max: int) -> Seq<char> {
    if s.len() <= max {
        s
    } else {
        let keep = if max >= 3 {
            max - 3
        } else {
            0
        };
        s.take(keep) + "..."@
    }
}

/// The label drawn over a node's box, if any.
pub open spec fn spec_label(d: DocV, id: int) -> Option<Seq<char>> {
    match d.nodes[id].kind {
        NodeKindV::Element(tag) => Some(seq!['<'] + tag + seq!['>']),
        NodeKindV::Text(t) => {
            let c = spec_condense(t);
            if c.len() == 0 {
                None
            } else {
                Some(spec_truncate(c, 64))
            }
        },
    }
}

/// The commands contributed by one layout box.
pub open spec fn spec_box_commands(d: DocV, b: LayoutBox) -> Seq<DisplayCommandV> {
    seq![
        DisplayCommandV::FillRect {
            x: b.x,
            y: b.y,
            width: b.width,
            height: b.height,
            color: spec_color(d, b.node_id as int),
        },
    ] + match spec_label(d, b.node_id as int) {
        Some(l) => seq![
            DisplayCommandV::DrawText {
                x: sat_add(b.x, 4),
                y: sat_add(b.y, 4),
                text: l,
                color: rgba(18, 24, 45, 255),
            },
        ],
        None => Seq::empty(),
    }
}

/// The commands contributed by a list of layout boxes, in order.
pub open spec fn spec_box_list_commands(d: DocV, boxes: Seq<LayoutBox>) -> Seq<DisplayCommandV>
    decreases boxes.len(),
{
    if boxes.len() == 0 {
        Seq::empty()
    } else {
        spec_box_commands(d, boxes[0]) + spec_box_list_commands(d, boxes.drop_first())
    }
}

/// The background fill that always opens the list.
pub open spec fn spec_background(vw: u32, vh: u32) -> DisplayCommandV {
    DisplayCommandV::FillRect { x: 0, y: 0, width: vw, height: vh, color: rgba(245, 245, 248, 255) }
}

/// The full display list for a document and its layout.
pub open spec fn spec_display_list(d: DocV, boxes: Seq<LayoutBox>, vw: u32, vh: u32) -> DisplayListV {
    DisplayListV {
        viewport_width: vw,
        viewport_height: vh,
        commands: seq![spec_background(vw, vh)] + spec_box_list_commands(d, boxes),
    }
}

/// Executable per-node fill color lookup.
fn color_for_node(document: &Document, node_id: NodeId) -> (c: [u8; 4])
    requires
        node_id < document@.nodes.len(),
    ensures
        c@ == spec_color(document@, node_id as int),
{
    let c: [u8; 4] = match &document.nodes[node_id].kind {
        NodeKind::Element(el) => {
            let t = el.tag_name.as_str();
            if str_eq(t, "html") {
                [233, 237, 248, 255]
            } else if str_eq(t, "body") {
                [236, 241, 251, 255]
            } else if str_eq(t, "header") || str_eq(t, "footer") {
                [195, 212, 250, 255]
            } else if str_eq(t, "main") || str_eq(t, "article") || str_eq(t, "section") || str_eq(
                t,
                "aside",
            ) {
                [206, 221, 250, 255]
            } else if str_eq(t, "nav") {
                [187, 206, 249, 255]
            } else if str_eq(t, "h1") {
                [169, 192, 248, 255]
            } else if str_eq(t, "h2") || str_eq(t, "h3") {
                [179, 201, 248, 255]
            } else if str_eq(t, "p") || str_eq(t, "li") || str_eq(t, "td") || str_eq(t, "th") {
                [217, 228, 251, 255]
            } else {
                [210, 224, 250, 255]
            }
        },
        NodeKind::Text(_) => [244, 246, 252, 255],
    };
    proof {
        assert(c@ =~= spec_color(document@, node_id as int));
    }
    c
}

/// Appending a word to a non-empty join inserts one separating space.
proof fn lemma_join_snoc(ws: Seq<Seq<char>>, w: Seq<char>)
    requires
        ws.len() >= 1,
    ensures
        spec_join(ws.push(w)) == spec_join(ws) + seq![' '] + w,
    decreases ws.len(),
{
    if ws.len() == 1 {
        assert(ws.push(w)[0] == ws[0]);
        assert(ws.push(w).drop_first() =~= seq![w]);
        assert(spec_join(seq![w]) == w);
        assert(spec_join(ws.push(w)) == ws[0] + seq![' '] + w);
    } else {
        assert(ws.push(w).drop_first() =~= ws.drop_first().push(w));
        lemma_join_snoc(ws.drop_first(), w);
        assert(ws.push(w)[0] == ws[0]);
        assert((ws[0] + seq![' ']) + (spec_join(ws.drop_first()) + seq![' '] + w) =~= ((ws[0]
            + seq![' ']) + spec_join(ws.drop_first())) + seq![' '] + w);
    }
}

/// Condenses the whitespace of `v` into single spaces, trimming both ends.
fn condense_chars(v: &Vec<char>) -> (out: String)
    ensures
        out@ == spec_condense(v@),
{
    let n = v.len();
    let mut out = String::new();
    let ghost mut ws: Seq<Seq<char>> = Seq::empty();
    let mut i: usize = 0;
    proof {
        assert(v@.skip(0) =~= v@);
        assert(spec_words(v@) == ws + spec_words(v@.skip(0)));
    }
    while i < n
        invariant
            i <= n == v@.len(),
            spec_words(v@) == ws + spec_words(v@.skip(i as int)),
            out@ == spec_join(ws),
            ws.len() == 0 <==> out@.len() == 0,
            forall|k: int| 0 <= k < ws.len() ==> (#[trigger] ws[k]).len() > 0,
        decreases n - i,
    {
        if is_space_char(v[i]) {
            proof {
                let rem = v@.skip(i as int);
                assert(rem[0] == v@[i as int]);
                assert(rem.drop_first() =~= v@.skip(i + 1));
                assert(spec_words(rem) == spec_words(v@.skip(i + 1)));
            }
            i = i + 1;
        } else {
            let start = i;
            let mut e = i;
            while e < n && !is_space_char(v[e])
                invariant
                    i <= e <= n == v@.len(),
                    forall|k: int| i <= k < e ==> !is_space(v@[k]),
                decreases n - e,
            {
                e = e + 1;
            }
            let ghost rem = v@.skip(i as int);
            let ghost w = v@.subrange(i as int, e as int);
            proof {
                assert(rem[0] == v@[i as int]);
                assert forall|k: int| 0 <= k < e - i implies !is_space(rem[k]) by {
                    assert(rem[k] == v@[i + k]);
                }
                if e < n {
                    assert(rem[e - i] == v@[e as int]);
                }
                lemma_first_space_is(rem, e - i);
                assert(rem.take(e - i) =~= w);
                assert(rem.skip(e - i) =~= v@.skip(e as int));
                assert(spec_words(rem) == seq![w] + spec_words(v@.skip(e as int)));
            }
            if out.as_str().unicode_len() > 0 {
                out.push(' ');
            }
            let ghost out_before = out@;
            let mut t = start;
            while t < e
                invariant
                    start <= t <= e <= v@.len(),
                    out@ =~= out_before + v@.subrange(start as int, t as int),
                decreases e - t,
            {
                out.push(v[t]);
                t = t + 1;
                proof {
                    assert(out@ =~= out_before + v@.subrange(start as int, t as int));
                }
            }
            proof {
                if ws.len() == 0 {
                    assert(spec_join(seq![w]) == w);
                    assert(ws.push(w) =~= seq![w]);
                    assert(out@ =~= w);
                } else {
                    lemma_join_snoc(ws, w);
                    assert(out@ =~= spec_join(ws) + seq![' '] + w);
                }
                ws = ws.push(w);
                assert(out@ == spec_join(ws));
                assert(ws + spec_words(v@.skip(e as int)) =~= (ws.drop_last() + seq![w])
                    + spec_words(v@.skip(e as int)));
                assert((ws.drop_last() + seq![w]) + spec_words(v@.skip(e as int)) =~=
                    ws.drop_last() + (seq![w] + spec_words(v@.skip(e as int))));
                assert(ws.drop_last() =~= ws.subrange(0, ws.len() - 1));
                assert(w.len() > 0);
            }
            i = e;
        }
    }
    proof {
        assert(v@.skip(n as int) =~= Seq::<char>::empty());
        assert(spec_words(Seq::<char>::empty()) =~= Seq::<Seq<char>>::empty());
        assert(ws + spec_words(v@.skip(n as int)) =~= ws);
    }
    out
}

/// Truncates `text` to at most `max_chars` characters, appending `...` when
/// the text was longer.
pub fn truncate_text(text: &str, max_chars: usize) -> (out: String)
    ensures
        out@ == spec_truncate(text@, max_chars as int),
        text@.len() > max_chars && max_chars >= 3 ==> out@.len() == max_chars && out@.skip(
            max_chars - 3,
        ) == "..."@,
{
    let n = text.unicode_len();
    if n <= max_chars {
        return text.to_owned();
    }
    let keep = if max_chars >= 3 {
        max_chars - 3
    } else {
        0
    };
    let mut out = String::new();
    let mut t: usize = 0;
    while t < keep
        invariant
            t <= keep,
            keep <= n == text@.len(),
            out@ =~= text@.take(t as int),
        decreases keep - t,
    {
        out.push(text.get_char(t));
        t = t + 1;
        proof {
            assert(out@ =~= text@.take(t as int));
        }
    }
    out.push('.');
    out.push('.');
    out.push('.');
    proof {
        reveal_strlit("...");
        assert("..."@ =~= seq!['.', '.', '.']);
        assert(out@ =~= text@.take(keep as int) + "..."@);
    }
    out
}

/// Executable per-node label lookup.
fn label_for_node(document: &Document, node_id: NodeId) -> (r: Option<String>)
    requires
        node_id < document@.nodes.len(),
    ensures
        match r {
            Some(s) => spec_label(document@, node_id as int) == Some(s@),
            None => spec_label(document@, node_id as int) is None,
        },
{
    match &document.nodes[node_id].kind {
        NodeKind::Element(el) => {
            let mut out = String::new();
            out.push('<');
            out.append(el.tag_name.as_str());
            out.push('>');
            proof {
                assert(out@ =~= seq!['<'] + el.tag_name@ + seq!['>']);
            }
            Some(out)
        },
        NodeKind::Text(text) => {
            let tv = crate::text::chars_of(text.as_str());
            let condensed = condense_chars(&tv);
            if condensed.as_str().unicode_len() == 0 {
                None
            } else {
                Some(truncate_text(condensed.as_str(), 64))
            }
        },
    }
}

/// Builds the display list for a document and its layout.
pub fn build_display_list(
    document: &Document,
    layout: &LayoutTree,
    viewport_width: u32,
    viewport_height: u32,
) -> (list: DisplayList)
    requires
        forall|j: int|
            0 <= j < layout@.len() ==> (#[trigger] layout@[j]).node_id < document@.nodes.len(),
    ensures
        list@ == spec_display_list(document@, layout@, viewport_width, viewport_height),
        list@.commands.len() >= 1,
        list@.commands[0] == spec_background(viewport_width, viewport_height),
{
    let mut commands: Vec<DisplayCommand> = Vec::new();
    commands.push(
        DisplayCommand::FillRect {
            x: 0,
            y: 0,
            width: viewport_width,
            height: viewport_height,
            color: [245, 245, 248, 255],
        },
    );
    let ghost bg = commands.deep_view();
    proof {
        assert(bg =~= seq![spec_background(viewport_width, viewport_height)]);
        assert(layout@.skip(0) =~= layout@);
        assert(spec_box_list_commands(document@, layout@) == Seq::<DisplayCommandV>::empty()
            + spec_box_list_commands(document@, layout@.skip(0)));
    }
    let n = layout.boxes.len();
    let mut k: usize = 0;
    while k < n
        invariant
            n == layout@.len(),
            k <= n,
            forall|j: int|
                0 <= j < layout@.len() ==> (#[trigger] layout@[j]).node_id
                    < document@.nodes.len(),
            bg == seq![spec_background(viewport_width, viewport_height)],
            commands.deep_view() =~= bg + spec_box_list_commands(document@, layout@.take(k as int)),
        decreases n - k,
    {
        let ghost pre = commands.deep_view();
        let b = layout.boxes[k];
        let color = color_for_node(document, b.node_id);
        commands.push(
            DisplayCommand::FillRect { x: b.x, y: b.y, width: b.width, height: b.height, color },
        );
        match label_for_node(document, b.node_id) {
            Some(label) => {
                let ghost lv = label@;
                commands.push(
                    DisplayCommand::DrawText {
                        x: sat_add_exec(b.x, 4),
                        y: sat_add_exec(b.y, 4),
                        text: label,
                        color: [18, 24, 45, 255],
                    },
                );
                proof {
                    assert(commands.deep_view() =~= pre + spec_box_commands(document@, b));
                }
            },
            None => {
                proof {
                    assert(spec_box_commands(document@, b) =~= seq![
                        DisplayCommandV::FillRect {
                            x: b.x,
                            y: b.y,
                            width: b.width,
                            height: b.height,
                            color: spec_color(document@, b.node_id as int),
                        },
                    ]);
                    assert(commands.deep_view() =~= pre + spec_box_commands(document@, b));
                }
            },
        }
        k = k + 1;
        proof {
            lemma_box_list_commands_snoc(document@, layout@.take(k as int));
            assert(layout@.take(k as int).drop_last() =~= layout@.take(k - 1));
            assert(layout@.take(k as int).last() == layout@[k - 1]);
            assert(commands.deep_view() =~= bg + spec_box_list_commands(
                document@,
                layout@.take(k as int),
            ));
        }
    }
    proof {
        assert(layout@.take(n as int) =~= layout@);
    }
    let list = DisplayList { viewport_width, viewport_height, commands };
    proof {
        assert(list@.commands =~= seq![spec_background(viewport_width, viewport_height)]
            + spec_box_list_commands(document@, layout@));
    }
    list
}

/// Processing one more box appends that box's commands.
proof fn lemma_box_list_commands_snoc(d: DocV, boxes: Seq<LayoutBox>)
    requires
        boxes.len() >= 1,
    ensures
        spec_box_list_commands(d, boxes) == spec_box_list_commands(d, boxes.drop_last())
            + spec_box_commands(d, boxes.last()),
    decreases boxes.len(),
{
    if boxes.len() == 1 {
        assert(boxes.drop_first() =~= Seq::<LayoutBox>::empty());
        assert(boxes.drop_last() =~= Seq::<LayoutBox>::empty());
        assert(spec_box_list_commands(d, Seq::<LayoutBox>::empty())
            == Seq::<DisplayCommandV>::empty());
        assert(spec_box_list_commands(d, boxes) == spec_box_commands(d, boxes[0])
            + Seq::<DisplayCommandV>::empty());
        assert(spec_box_commands(d, boxes[0]) + Seq::<DisplayCommandV>::empty() =~=
            spec_box_commands(d, boxes[0]));
        assert(Seq::<DisplayCommandV>::empty() + spec_box_commands(d, boxes[0]) =~=
            spec_box_commands(d, boxes[0]));
    } else {
        lemma_box_list_commands_snoc(d, boxes.drop_first());
        assert(boxes.drop_first().drop_last() =~= boxes.drop_last().drop_first());
        assert(boxes.drop_first().last() == boxes.last());
        assert(boxes.drop_last()[0] == boxes[0]);
        assert(spec_box_list_commands(d, boxes.drop_last()) == spec_box_commands(d, boxes[0])
            + spec_box_list_commands(d, boxes.drop_last().drop_first()));
        assert(spec_box_commands(d, boxes[0]) + (spec_box_list_commands(
            d,
            boxes.drop_last().drop_first(),
        ) + spec_box_commands(d, boxes.last())) =~= (spec_box_commands(d, boxes[0])
            + spec_box_list_commands(d, boxes.drop_last().drop_first())) + spec_box_commands(
            d,
            boxes.last(),
        ));
    }
}

} // verus!
