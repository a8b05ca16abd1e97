//! Renderer-facing types and the document-scene glue: the pattern the
//! renderer can show, the plain rectangle and text primitives handed to the
//! painter, the conversion from display commands to those primitives, and
//! the hash used for golden-frame regression checks.

use vstd::prelude::*;

use crate::display::{DisplayCommand, DisplayCommandV};
use crate::engine::{render_document, RenderOutput};
use crate::script_host::{ScriptHost, StubScriptHost};

verus! {

/// A built-in test pattern the renderer can show instead of a document.
#[derive(Debug, Clone, Copy, PartialEq, Eq)]
pub enum Pattern {
    Gradient,
    Solid,
    Rects,
}

/// The pattern named by a command-line value, if any.
pub open spec fn spec_pattern_parse(s: Seq<char>) -> Option<Pattern> {
    if s == "gradient"@ {
        Some(Pattern::Gradient)
    } else if s == "solid"@ {
        Some(Pattern::Solid)
    } else if s == "rects"@ {
        Some(Pattern::Rects)
    } else {
        None
    }
}

/// The pattern after `self` in the cycling order.
pub open spec fn spec_pattern_next(p: Pattern) -> Pattern {
    match p {
        Pattern::Gradient => Pattern::Solid,
        Pattern::Solid => Pattern::Rects,
        Pattern::Rects => Pattern::Gradient,
    }
}

impl Pattern {
    /// Parses a pattern name.
    pub fn parse(input: &str) -> (r: Option<Pattern>)
        ensures
            r == spec_pattern_parse(input@),
    {
        if crate::text::str_eq(input, "gradient") {
            Some(Pattern::Gradient)
        } else if crate::text::str_eq(input, "solid") {
            Some(Pattern::Solid)
        } else if crate::text::str_eq(input, "rects") {
            Some(Pattern::Rects)
        } else {
            None
        }
    }

    /// Cycles to the next pattern.
    pub fn next(self) -> (r: Pattern)
        ensures
            r == spec_pattern_next(self),
    {
        match self {
            Pattern::Gradient => Pattern::Solid,
            Pattern::Solid => Pattern::Rects,
            Pattern::Rects => Pattern::Gradient,
        }
    }
}

/// A solid rectangle for the painter, in signed pixel coordinates.
#[derive(Debug, Clone, Copy, PartialEq, Eq)]
pub struct DrawRect {
    pub x: i32,
    pub y: i32,
    pub width: i32,
    pub height: i32,
    pub color: [u8; 4],
}

/// Mathematical image of a `DrawRect`.
pub struct DrawRectV {
    pub x: i32,
    pub y: i32,
    pub width: i32,
    pub height: i32,
    pub color: Seq<u8>,
}

impl View for DrawRect {
    type V = DrawRectV;

    open spec fn view(&self) -> DrawRectV {
        DrawRectV {
            x: self.x,
            y: self.y,
            width: self.width,
            height: self.height,
            color: self.color@,
        }
    }
}

impl DeepView for DrawRect {
    type V = DrawRectV;

    open spec fn deep_view(&self) -> DrawRectV {
        self.view()
    }
}

/// A text run for the painter, in signed pixel coordinates.
#[derive(Debug, Clone, PartialEq, Eq)]
pub struct DrawText {
    pub x: i32,
    pub y: i32,
    pub text: String,
    pub color: [u8; 4],
    pub scale: u32,
}

/// The rectangles of the fill commands among `cmds`, in order, with each
/// coordinate cast to a signed pixel offset; text commands contribute none.
pub open spec fn spec_rects_of(cmds: Seq<DisplayCommandV>) -> Seq<DrawRectV>
    decreases cmds.len(),
{
    if cmds.len() == 0 {
        Seq::empty()
    } else {
        (match cmds[0] {
            DisplayCommandV::FillRect { x, y, width, height, color } => seq![
                DrawRectV {
                    x: x as i32,
                    y: y as i32,
                    width: width as i32,
                    height: height as i32,
                    color,
                },
            ],
            DisplayCommandV::DrawText { .. } => Seq::empty(),
        }) + spec_rects_of(cmds.drop_first())
    }
}

/// Converts the fill commands of a display list into painter rectangles.
pub fn display_commands_to_rects(commands: &[DisplayCommand]) -> (rects: Vec<DrawRect>)
    ensures
        rects.deep_view() == spec_rects_of(commands.deep_view()),
{
    let mut rects: Vec<DrawRect> = Vec::new();
    let n = commands.len();
    let mut k: usize = 0;
    let ghost cv = commands.deep_view();
    proof {
        assert(rects.deep_view() =~= Seq::<DrawRectV>::empty());
        assert(cv.skip(0) =~= cv);
        assert(rects.deep_view() + spec_rects_of(cv.skip(0)) =~= spec_rects_of(cv));
    }
    while k < n
        invariant
            k <= n == commands@.len(),
            cv == commands.deep_view(),
            cv.len() == n,
            spec_rects_of(cv) == rects.deep_view() + spec_rects_of(cv.skip(k as int)),
        decreases n - k,
    {
        let ghost pre = rects.deep_view();
        let ghost rem = cv.skip(k as int);
        proof {
            assert(rem[0] == cv[k as int]);
            assert(rem.drop_first() =~= cv.skip(k + 1));
        }
        match vstd::slice::slice_index_get(commands, k) {
            DisplayCommand::FillRect { x, y, width, height, color } => {
                rects.push(
                    DrawRect {
                        x: *x as i32,
                        y: *y as i32,
                        width: *width as i32,
                        height: *height as i32,
                        color: *color,
                    },
                );
                proof {
                    assert(cv[k as int] == commands@[k as int].deep_view());
                    assert(spec_rects_of(rem) == seq![
                        DrawRectV {
                            x: *x as i32,
                            y: *y as i32,
                            width: *width as i32,
                            height: *height as i32,
                            color: color@,
                        },
                    ] + spec_rects_of(cv.skip(k + 1)));
                    assert(rects.deep_view() + spec_rects_of(cv.skip(k + 1)) =~= pre
                        + spec_rects_of(rem));
                }
            },
            DisplayCommand::DrawText { .. } => {
                proof {
                    assert(spec_rects_of(rem) == Seq::<DrawRectV>::empty() + spec_rects_of(
                        cv.skip(k + 1),
                    ));
                    assert(rects.deep_view() + spec_rects_of(cv.skip(k + 1)) =~= pre
                        + spec_rects_of(rem));
                }
            },
        }
        k = k + 1;
    }
    proof {
        assert(cv.skip(n as int) =~= Seq::<DisplayCommandV>::empty());
        assert(rects.deep_view() =~= spec_rects_of(cv));
    }
    rects
}

/// A document prepared for the painter: the markup it came from and the
/// rectangles of its display list.
#[derive(Debug, Clone)]
pub struct DocumentScene {
    pub html: String,
    pub rects: Vec<DrawRect>,
}

/// Runs the pipeline on `html`, hands the collected scripts to the stub
/// host, and keeps the display list's rectangles for the painter.
pub fn build_document_scene(html: &str, width: u32, height: u32) -> (scene: DocumentScene)
    ensures
        scene.html@ == html@,
        ({
            let out = crate::engine::spec_pipeline_display(html@, width, height);
            scene.rects.deep_view() == spec_rects_of(out.commands)
        }),
{
    let output: RenderOutput = render_document(html, width, height);
    let mut host = StubScriptHost::default();
    let _ = host.execute(output.scripts.as_slice());
    let cs = output.display_list.commands.as_slice();
    let rects = display_commands_to_rects(cs);
    proof {
        assert(cs.deep_view() =~= output.display_list@.commands);
    }
    DocumentScene { html: html.to_owned(), rects }
}

/// The 64-bit FNV-1a hash value of a byte prefix.
pub open spec fn spec_fnv1a64(bytes: Seq<u8>) -> u64
    decreases bytes.len(),
{
    if bytes.len() == 0 {
        0xcbf29ce484222325u64
    } else {
        vstd::wrapping::u64_specs::wrapping_mul(
            spec_fnv1a64(bytes.drop_last()) ^ (bytes.last() as u64),
            0x100000001b3u64,
        )
    }
}

/// The 64-bit FNV-1a hash of a byte buffer, as used for golden-frame
/// regression checks.
pub fn fnv1a64(bytes: &[u8]) -> (h: u64)
    ensures
        h == spec_fnv1a64(bytes@),
{
    let mut hash: u64 = 0xcbf29ce484222325;
    let n = bytes.len();
    let mut k: usize = 0;
    proof {
        assert(bytes@.take(0) =~= Seq::<u8>::empty());
    }
    while k < n
        invariant
            k <= n == bytes@.len(),
            hash == spec_fnv1a64(bytes@.take(k as int)),
        decreases n - k,
    {
        let b = *vstd::slice::slice_index_get(bytes, k);
        hash = hash ^ (b as u64);
        hash = hash.wrapping_mul(0x100000001b3);
        k = k + 1;
        proof {
            assert(bytes@.take(k as int).drop_last() =~= bytes@.take(k - 1));
            assert(bytes@.take(k as int).last() == bytes@[k - 1]);
        }
    }
    proof {
        assert(bytes@.take(n as int) =~= bytes@);
    }
    hash
}

} // verus!
