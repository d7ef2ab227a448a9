//! The backend calls that rendering a command stream comes down to.
use vstd::prelude::*;

use crate::color::Color;
use crate::geometry::{BoundingBox, CornerRadii};
use crate::markup::{SegmentView, StyledSegment, segments_view};
use crate::text::TextConfig;

verus! {

/// An active scissor rectangle, in whole pixels.
#[derive(Clone, Copy, Debug, PartialEq, Eq, Structural)]
pub struct ClipRect {
    pub x: i32,
    pub y: i32,
    pub width: u32,
    pub height: u32,
}

/// One call into the graphics backend.
#[derive(Clone, Debug, PartialEq)]
pub enum DrawOp {
    /// A solid axis-aligned rectangle covering `[x, x + width) x [y, y + height)`.
    FillRect { x: i64, y: i64, width: i64, height: i64, color: Color },
    /// A solid disk; it covers the pixels whose centres lie strictly inside it.
    FillDisk { cx: i64, cy: i64, radius: i64, color: Color },
    /// The outline of the rectangle `(x, y, width, height)`, stroked with
    /// `thickness` centred on its edges.
    OutlineRect { x: i64, y: i64, width: i64, height: i64, thickness: i64, color: Color },
    /// A ring segment about `(cx, cy)` from `radius` out to `radius +
    /// thickness`, starting at `start_degrees` and sweeping `sweep_degrees`,
    /// rasterised with `points` segments.
    Arc {
        cx: i64,
        cy: i64,
        radius: i64,
        start_degrees: i64,
        sweep_degrees: i64,
        thickness: i64,
        points: u8,
        color: Color,
    },
    /// A rounded rectangle drawn through an off-screen alpha mask: the mask is
    /// built from `corner_mask` with the outer clip lifted, tinted with
    /// `color`, and `clip` is put back afterwards.
    MaskedRect { bounds: BoundingBox, radii: CornerRadii, color: Color, clip: Option<ClipRect> },
    /// An image scaled to `bounds`.
    Image { bounds: BoundingBox, image_id: u32, tint: Color },
    /// An image scaled to `bounds` whose alpha is multiplied by the corner
    /// mask (see `apply_mask`), restoring `clip` afterwards.
    MaskedImage {
        bounds: BoundingBox,
        radii: CornerRadii,
        image_id: u32,
        tint: Color,
        clip: Option<ClipRect>,
    },
    /// The segments of a run, drawn from the left edge of `bounds` on its
    /// bottom line, each character moved by its styles' animation at
    /// `elapsed_ms` since the run was first drawn; `char_offset` is the
    /// running character index the run's first character takes.
    StyledText {
        bounds: BoundingBox,
        config: TextConfig,
        segments: Vec<StyledSegment>,
        elapsed_ms: u64,
        char_offset: u64,
    },
    /// A run drawn verbatim in its configured colour.
    PlainText { bounds: BoundingBox, config: TextConfig, text: String },
    /// Sets the scissor region, or clears it.
    SetClip { clip: Option<ClipRect> },
    /// Hands the command's payload to the application's own handler.
    Custom { bounds: BoundingBox, payload: u64 },
}

/// A draw op as values.
pub enum OpView {
    StyledText {
        bounds: BoundingBox,
        config: TextConfig,
        segments: Seq<SegmentView>,
        elapsed_ms: u64,
        char_offset: u64,
    },
    PlainText { bounds: BoundingBox, config: TextConfig, text: Seq<char> },
    /// Any op that holds no text.
    Other(DrawOp),
}

impl View for DrawOp {
    type V = OpView;

    open spec fn view(&self) -> OpView {
        match *self {
            DrawOp::StyledText { bounds, config, segments, elapsed_ms, char_offset } => OpView::StyledText {
                bounds,
                config,
                segments: segments_view(segments@),
                elapsed_ms,
                char_offset,
            },
            DrawOp::PlainText { bounds, config, text } => OpView::PlainText { bounds, config, text: text@ },
            _ => OpView::Other(*self),
        }
    }
}

pub open spec fn ops_view(ops: Seq<DrawOp>) -> Seq<OpView> {
    ops.map_values(|op: DrawOp| op@)
}

/// Whether `op` paints the pixel whose top-left corner is `(px, py)`.
pub open spec fn covers(op: DrawOp, px: int, py: int) -> bool {
    match op {
        DrawOp::FillRect { x, y, width, height, .. } => x <= px < x + width && y <= py < y
            + height,
        DrawOp::FillDisk { cx, cy, radius, .. } => {
            let dx = 2 * px + 1 - 2 * cx;
            let dy = 2 * py + 1 - 2 * cy;
            dx * dx + dy * dy < 4 * radius * radius
        },
        _ => false,
    }
}

/// Whether some op of `ops` paints the pixel `(px, py)`.
pub open spec fn painted(ops: Seq<DrawOp>, px: int, py: int) -> bool {
    exists|i: int| 0 <= i < ops.len() && #[trigger] covers(ops[i], px, py)
}

} // verus!
