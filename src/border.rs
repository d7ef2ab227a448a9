//! Stroked outlines of boxes, with per-edge widths and rounded corners.
use vstd::prelude::*;

use crate::color::Color;
use crate::draw::DrawOp;
use crate::geometry::{BoundingBox, CornerRadii, fill, max, optional};

verus! {

/// One stroke width per edge, in pixels.
#[derive(Clone, Copy, Debug, PartialEq, Eq, Structural)]
pub struct BorderWidths {
    pub top: u16,
    pub left: u16,
    pub bottom: u16,
    pub right: u16,
}

impl BorderWidths {
    pub open spec fn uniform(self) -> bool {
        self.left == self.right && self.left == self.top && self.left == self.bottom
    }

    pub fn is_uniform(&self) -> (r: bool)
        ensures
            r == self.uniform(),
    {
        self.left == self.right && self.left == self.top && self.left == self.bottom
    }
}

/// Device pixels per layout point.
pub const PIXELS_PER_POINT: u32 = 2;

/// Segments used to rasterise a quarter arc: a quarter of the circumference
/// through the outer edge of the stroke, in device pixels, with pi taken as
/// 355/113 and the quotient rounded down; never fewer than five and at most
/// what a byte holds.
pub open spec fn spec_arc_points(radius: int, stroke: int, scale: int) -> int {
    let n = (355 * (radius + stroke)) / (scale * 226);
    if n < 5 {
        5
    } else if n > 255 {
        255
    } else {
        n
    }
}

pub fn arc_points(radius: u32, stroke: u16, scale: u32) -> (n: u8)
    requires
        scale > 0,
    ensures
        n as int == spec_arc_points(radius as int, stroke as int, scale as int),
{
    let num: u64 = 355 * (radius as u64 + stroke as u64);
    let s: u64 = scale as u64;
    assert(s * 226 <= 0xffff_ffff * 226) by (nonlinear_arith)
        requires s <= 0xffff_ffff;
    let den: u64 = s * 226;
    let n: u64 = num / den;
    if n < 5 {
        5
    } else if n > 255 {
        255
    } else {
        n as u8
    }
}

/// The point count grows with the radius, for a fixed stroke and scale, and
/// is never below five.
pub proof fn lemma_arc_points_monotone(r1: int, r2: int, stroke: int, scale: int)
    requires
        0 <= r1 <= r2,
        0 <= stroke,
        scale > 0,
    ensures
        spec_arc_points(r1, stroke, scale) <= spec_arc_points(r2, stroke, scale),
        spec_arc_points(r1, stroke, scale) >= 5,
{
    let d = scale * 226;
    assert(355 * (r1 + stroke) <= 355 * (r2 + stroke));
    vstd::arithmetic::div_mod::lemma_div_is_ordered(355 * (r1 + stroke), 355 * (r2 + stroke), d);
}

pub open spec fn arc(cx: int, cy: int, r: int, start: int, thickness: int, scale: int, color: Color) -> DrawOp {
    DrawOp::Arc {
        cx: cx as i64,
        cy: cy as i64,
        radius: r as i64,
        start_degrees: start as i64,
        sweep_degrees: 90,
        thickness: thickness as i64,
        points: spec_arc_points(r, thickness, scale) as u8,
        color,
    }
}

/// The ops that stroke the outline of `bb`. With square corners and equal
/// widths it is one outlined rectangle; with square corners otherwise, one
/// band per edge, lying outside the box and as thick as that edge's width,
/// with butt ends. With rounded corners the bands run only along the straight
/// part of each edge, and each rounded corner gets a quarter arc of its
/// radius, stroked at the larger width of its two edges.
pub open spec fn spec_border_ops(bb: BoundingBox, bw: BorderWidths, cr: CornerRadii, color: Color, scale: int) -> Seq<DrawOp> {
    let (x, y, w, h) = (bb.x as int, bb.y as int, bb.width as int, bb.height as int);
    let (t, l, b, r) = (bw.top as int, bw.left as int, bw.bottom as int, bw.right as int);
    let (tl, tr, bl, br) = (
        cr.top_left as int,
        cr.top_right as int,
        cr.bottom_left as int,
        cr.bottom_right as int,
    );
    if cr.all_zero() {
        if bw.uniform() {
            seq![
                DrawOp::OutlineRect {
                    x: x as i64,
                    y: y as i64,
                    width: w as i64,
                    height: h as i64,
                    thickness: l as i64,
                    color,
                },
            ]
        } else {
            seq![
                fill(x, y - t, w, t, color),
                fill(x - l, y, l, h, color),
                fill(x, y + h, w, b, color),
                fill(x + w, y, r, h, color),
            ]
        }
    } else {
        seq![
            fill(x + tl, y - t, w - tl - tr, t, color),
            fill(x - l, y + tl, l, h - tl - bl, color),
            fill(x + bl, y + h, w - bl - br, b, color),
            fill(x + w, y + tr, r, h - tr - br, color),
        ] + optional(tl > 0, arc(x + tl, y + tl, tl, 180, max(l, t), scale, color)) + optional(
            tr > 0,
            arc(x + w - tr, y + tr, tr, 270, max(t, r), scale, color),
        ) + optional(bl > 0, arc(x + bl, y + h - bl, bl, 90, max(l, b), scale, color)) + optional(
            br > 0,
            arc(x + w - br, y + h - br, br, 0, max(b, r), scale, color),
        )
    }
}

fn max_u16(a: u16, b: u16) -> (r: u16)
    ensures
        r == max(a as int, b as int),
{
    if a >= b {
        a
    } else {
        b
    }
}

/// Strokes the outline of `bb` in `color`; `scale` is the device pixels per
/// point, which sizes the arcs.
pub fn border_ops(bb: &BoundingBox, bw: &BorderWidths, cr: &CornerRadii, color: Color, scale: u32) -> (ops: Vec<DrawOp>)
    requires
        scale > 0,
    ensures
        ops@ == spec_border_ops(*bb, *bw, *cr, color, scale as int),
{
    let (x, y, w, h) = (bb.x as i64, bb.y as i64, bb.width as i64, bb.height as i64);
    let (t, l, b, r) = (bw.top as i64, bw.left as i64, bw.bottom as i64, bw.right as i64);
    let mut ops: Vec<DrawOp> = Vec::new();
    if cr.is_zero() {
        if bw.is_uniform() {
            ops.push(DrawOp::OutlineRect { x, y, width: w, height: h, thickness: l, color });
        } else {
            ops.push(DrawOp::FillRect { x, y: y - t, width: w, height: t, color });
            ops.push(DrawOp::FillRect { x: x - l, y, width: l, height: h, color });
            ops.push(DrawOp::FillRect { x, y: y + h, width: w, height: b, color });
            ops.push(DrawOp::FillRect { x: x + w, y, width: r, height: h, color });
        }
    } else {
        let (tl, tr, bl, br) = (
            cr.top_left as i64,
            cr.top_right as i64,
            cr.bottom_left as i64,
            cr.bottom_right as i64,
        );
        ops.push(DrawOp::FillRect { x: x + tl, y: y - t, width: w - tl - tr, height: t, color });
        ops.push(DrawOp::FillRect { x: x - l, y: y + tl, width: l, height: h - tl - bl, color });
        ops.push(DrawOp::FillRect { x: x + bl, y: y + h, width: w - bl - br, height: b, color });
        ops.push(DrawOp::FillRect { x: x + w, y: y + tr, width: r, height: h - tr - br, color });
        if tl > 0 {
            let s = max_u16(bw.left, bw.top);
            let points = arc_points(cr.top_left, s, scale);
            ops.push(DrawOp::Arc { cx: x + tl, cy: y + tl, radius: tl, start_degrees: 180, sweep_degrees: 90, thickness: s as i64, points, color });
        }
        if tr > 0 {
            let s = max_u16(bw.top, bw.right);
            let points = arc_points(cr.top_right, s, scale);
            ops.push(DrawOp::Arc { cx: x + w - tr, cy: y + tr, radius: tr, start_degrees: 270, sweep_degrees: 90, thickness: s as i64, points, color });
        }
        if bl > 0 {
            let s = max_u16(bw.left, bw.bottom);
            let points = arc_points(cr.bottom_left, s, scale);
            ops.push(DrawOp::Arc { cx: x + bl, cy: y + h - bl, radius: bl, start_degrees: 90, sweep_degrees: 90, thickness: s as i64, points, color });
        }
        if br > 0 {
            let s = max_u16(bw.bottom, bw.right);
            let points = arc_points(cr.bottom_right, s, scale);
            ops.push(DrawOp::Arc { cx: x + w - br, cy: y + h - br, radius: br, start_degrees: 0, sweep_degrees: 90, thickness: s as i64, points, color });
        }
    }
    assert(ops@ =~= spec_border_ops(*bb, *bw, *cr, color, scale as int));
    ops
}

/// Equal widths and square corners give one outlined rectangle of that
/// width around the box, and nothing else.
pub proof fn lemma_uniform_square_border(bb: BoundingBox, bw: BorderWidths, cr: CornerRadii, color: Color, scale: int)
    requires
        bw.uniform(),
        cr.all_zero(),
    ensures
        spec_border_ops(bb, bw, cr, color, scale) == seq![
            DrawOp::OutlineRect {
                x: bb.x as i64,
                y: bb.y as i64,
                width: bb.width as i64,
                height: bb.height as i64,
                thickness: bw.top as i64,
                color,
            },
        ],
{
}

} // verus!
