//! The pipeline entry point: raw markup in, a full render bundle out.
//!
//! Every stage's result is pinned by its specification as a function of the
//! input text and the viewport alone, so two invocations on equal inputs
//! produce equal tokens, trees, layouts, display lists, and scripts.

use vstd::prelude::*;

use crate::display::{build_display_list, spec_background, spec_display_list, DisplayList};
use crate::dom::{doc_wf, Document, Token};
use crate::layout::{layout_document, spec_layout, LayoutTree};
use crate::scripts::{collect_scripts, spec_scripts, ScriptSnippet};
use crate::tokenizer::{spec_tokenize, tokenize};
use crate::tree::{parse_document, spec_parse, token_views};

verus! {

/// The document the pipeline builds for an input text.
pub open spec fn spec_pipeline_doc(input: Seq<char>) -> crate::dom::DocV {
    spec_parse(spec_tokenize(input))
}

/// The layout the pipeline builds for an input text and viewport.
pub open spec fn spec_pipeline_layout(input: Seq<char>, vw: u32, vh: u32) -> Seq<
    crate::layout::LayoutBox,
> {
    spec_layout(spec_pipeline_doc(input), vw, vh)
}

/// The display list the pipeline builds for an input text and viewport.
pub open spec fn spec_pipeline_display(input: Seq<char>, vw: u32, vh: u32) -> crate::display::DisplayListV {
    spec_display_list(
        spec_pipeline_doc(input),
        spec_pipeline_layout(input, vw, vh),
        vw,
        vh,
    )
}

/// Everything one pipeline invocation produces.
#[derive(Debug, Clone, PartialEq, Eq)]
pub struct RenderOutput {
    pub tokens: Vec<Token>,
    pub document: Document,
    pub layout: LayoutTree,
    pub display_list: DisplayList,
    pub scripts: Vec<ScriptSnippet>,
}

/// Runs the whole pipeline: tokenize, build the tree, lay it out, build the
/// display list, and collect scripts.
///
/// Each field of the result is determined by `input`, `viewport_width` and
/// `viewport_height` alone, the document tree is well-formed, layout boxes
/// come out in non-decreasing `y` order and start above the viewport's
/// bottom edge, and the first display command is the full-viewport
/// background fill.
pub fn render_document(input: &str, viewport_width: u32, viewport_height: u32) -> (out:
    RenderOutput)
    ensures
        out.tokens.deep_view() == spec_tokenize(input@),
        out.document@ == spec_parse(spec_tokenize(input@)),
        doc_wf(out.document@),
        out.layout@ == spec_layout(out.document@, viewport_width, viewport_height),
        out.display_list@ == spec_display_list(
            out.document@,
            out.layout@,
            viewport_width,
            viewport_height,
        ),
        out.scripts.deep_view() == spec_scripts(out.document@),
        forall|j: int|
            0 <= j < out.layout@.len() ==> (#[trigger] out.layout@[j]).y < viewport_height,
        forall|j1: int, j2: int|
            0 <= j1 < j2 < out.layout@.len() ==> out.layout@[j1].y <= out.layout@[j2].y,
        out.display_list@.commands.len() >= 1,
        out.display_list@.commands[0] == spec_background(viewport_width, viewport_height),
{
    let tokens = tokenize(input);
    let document = parse_document(tokens.as_slice());
    proof {
        assert(token_views(tokens@) =~= tokens.deep_view());
    }
    let layout = layout_document(&document, viewport_width, viewport_height);
    let display_list = build_display_list(&document, &layout, viewport_width, viewport_height);
    let scripts = collect_scripts(&document);
    RenderOutput { tokens, document, layout, display_list, scripts }
}

} // verus!
