//! Rounded rectangles: the band-and-disk decomposition of an opaque fill, and
//! the alpha mask used where that decomposition cannot express the fill.
use vstd::prelude::*;

use crate::color::{Color, image_tint, masked_alpha, spec_image_tint, spec_masked_alpha, white};
use crate::draw::{ClipRect, DrawOp, covers, painted};

verus! {

/// An axis-aligned box in destination pixels.
#[derive(Clone, Copy, Debug, PartialEq, Eq, Structural)]
pub struct BoundingBox {
    pub x: i32,
    pub y: i32,
    pub width: u32,
    pub height: u32,
}

/// One radius per corner, in pixels.
#[derive(Clone, Copy, Debug, PartialEq, Eq, Structural)]
pub struct CornerRadii {
    pub top_left: u32,
    pub top_right: u32,
    pub bottom_left: u32,
    pub bottom_right: u32,
}

pub open spec fn max(a: int, b: int) -> int {
    if a >= b {
        a
    } else {
        b
    }
}

impl CornerRadii {
    pub open spec fn all_zero(self) -> bool {
        self.top_left == 0 && self.top_right == 0 && self.bottom_left == 0 && self.bottom_right
            == 0
    }

    /// Every radius is at most half of the shorter side of a `w` by `h` box.
    pub open spec fn fit(self, w: int, h: int) -> bool {
        &&& 2 * self.top_left <= w && 2 * self.top_left <= h
        &&& 2 * self.top_right <= w && 2 * self.top_right <= h
        &&& 2 * self.bottom_left <= w && 2 * self.bottom_left <= h
        &&& 2 * self.bottom_right <= w && 2 * self.bottom_right <= h
    }

    pub fn is_zero(&self) -> (r: bool)
        ensures
            r == self.all_zero(),
    {
        self.top_left == 0 && self.top_right == 0 && self.bottom_left == 0 && self.bottom_right
            == 0
    }
}

pub open spec fn fill(x: int, y: int, w: int, h: int, color: Color) -> DrawOp {
    DrawOp::FillRect { x: x as i64, y: y as i64, width: w as i64, height: h as i64, color }
}

pub open spec fn disk(cx: int, cy: int, r: int, color: Color) -> DrawOp {
    DrawOp::FillDisk { cx: cx as i64, cy: cy as i64, radius: r as i64, color }
}

pub open spec fn optional(c: bool, op: DrawOp) -> Seq<DrawOp> {
    if c {
        seq![op]
    } else {
        seq![]
    }
}

/// The bands and disks of a `w` by `h` rounded rectangle at `(x, y)`: each
/// edge band runs between its two corners and stops short of the opposite
/// edge by the larger radius there; each rounded corner gets a disk of its
/// radius, centred that far in from both of its edges.
pub open spec fn rounded_pieces(x: int, y: int, w: int, h: int, cr: CornerRadii, color: Color) -> Seq<
    DrawOp,
> {
    let (tl, tr, bl, br) = (
        cr.top_left as int,
        cr.top_right as int,
        cr.bottom_left as int,
        cr.bottom_right as int,
    );
    optional(tl > 0 || tr > 0, fill(x + tl, y, w - tl - tr, h - max(bl, br), color))
        + optional(tl > 0 || bl > 0, fill(x, y + tl, w - max(tr, br), h - tl - bl, color))
        + optional(bl > 0 || br > 0, fill(x + bl, y + max(tl, tr), w - bl - br, h - max(tl, tr), color))
        + optional(tr > 0 || br > 0, fill(x + max(tl, bl), y + tr, w - max(tl, bl), h - tr - br, color))
        + optional(tl > 0, disk(x + tl, y + tl, tl, color))
        + optional(tr > 0, disk(x + w - tr, y + tr, tr, color))
        + optional(bl > 0, disk(x + bl, y + h - bl, bl, color))
        + optional(br > 0, disk(x + w - br, y + h - br, br, color))
}

/// The area of a `w` by `h` box at `(x, y)` with its corners rounded: the
/// pixels of the box, less those in a corner's radius-sized square whose
/// centre lies outside that corner's circle.
pub open spec fn in_rounded_area(x: int, y: int, w: int, h: int, cr: CornerRadii, px: int, py: int) -> bool {
    let (tl, tr, bl, br) = (
        cr.top_left as int,
        cr.top_right as int,
        cr.bottom_left as int,
        cr.bottom_right as int,
    );
    &&& x <= px < x + w && y <= py < y + h
    &&& (px < x + tl && py < y + tl) ==> covers(disk(x + tl, y + tl, tl, white()), px, py)
    &&& (px >= x + w - tr && py < y + tr) ==> covers(disk(x + w - tr, y + tr, tr, white()), px, py)
    &&& (px < x + bl && py >= y + h - bl) ==> covers(disk(x + bl, y + h - bl, bl, white()), px, py)
    &&& (px >= x + w - br && py >= y + h - br) ==> covers(disk(x + w - br, y + h - br, br, white()), px, py)
}

fn max_u32(a: u32, b: u32) -> (r: u32)
    ensures
        r == max(a as int, b as int),
{
    if a >= b {
        a
    } else {
        b
    }
}

/// Appends the pieces of `rounded_pieces` at `(x, y)`.
fn push_rounded_pieces(ops: &mut Vec<DrawOp>, x: i64, y: i64, w: u32, h: u32, cr: &CornerRadii, color: Color)
    requires
        -0x1_0000_0000 <= x <= 0x1_0000_0000,
        -0x1_0000_0000 <= y <= 0x1_0000_0000,
    ensures
        final(ops)@ == old(ops)@ + rounded_pieces(x as int, y as int, w as int, h as int, *cr, color),
{
    let ghost start = ops@;
    let (tl, tr, bl, br) = (
        cr.top_left as i64,
        cr.top_right as i64,
        cr.bottom_left as i64,
        cr.bottom_right as i64,
    );
    let (w, h) = (w as i64, h as i64);
    let max_bottom = max_u32(cr.bottom_left, cr.bottom_right) as i64;
    let max_top = max_u32(cr.top_left, cr.top_right) as i64;
    let max_left = max_u32(cr.top_left, cr.bottom_left) as i64;
    let max_right = max_u32(cr.top_right, cr.bottom_right) as i64;
    if tl > 0 || tr > 0 {
        ops.push(DrawOp::FillRect { x: x + tl, y, width: w - tl - tr, height: h - max_bottom, color });
    }
    if tl > 0 || bl > 0 {
        ops.push(DrawOp::FillRect { x, y: y + tl, width: w - max_right, height: h - tl - bl, color });
    }
    if bl > 0 || br > 0 {
        ops.push(
            DrawOp::FillRect { x: x + bl, y: y + max_top, width: w - bl - br, height: h - max_top, color },
        );
    }
    if tr > 0 || br > 0 {
        ops.push(
            DrawOp::FillRect { x: x + max_left, y: y + tr, width: w - max_left, height: h - tr - br, color },
        );
    }
    if tl > 0 {
        ops.push(DrawOp::FillDisk { cx: x + tl, cy: y + tl, radius: tl, color });
    }
    if tr > 0 {
        ops.push(DrawOp::FillDisk { cx: x + w - tr, cy: y + tr, radius: tr, color });
    }
    if bl > 0 {
        ops.push(DrawOp::FillDisk { cx: x + bl, cy: y + h - bl, radius: bl, color });
    }
    if br > 0 {
        ops.push(DrawOp::FillDisk { cx: x + w - br, cy: y + h - br, radius: br, color });
    }
    assert(ops@ =~= start + rounded_pieces(x as int, y as int, w as int, h as int, *cr, color));
}

/// The ops that fill a rounded rectangle.
pub open spec fn spec_rectangle_ops(bb: BoundingBox, cr: CornerRadii, color: Color, clip: Option<ClipRect>) -> Seq<DrawOp> {
    if cr.all_zero() {
        seq![fill(bb.x as int, bb.y as int, bb.width as int, bb.height as int, color)]
    } else if color.a == 255 {
        rounded_pieces(bb.x as int, bb.y as int, bb.width as int, bb.height as int, cr, color)
    } else {
        seq![DrawOp::MaskedRect { bounds: bb, radii: cr, color, clip }]
    }
}

/// Fills `bb` with `color`, its corners rounded by `cr`: a plain rectangle
/// when no corner is rounded, bands and disks when the colour is opaque, and
/// otherwise a fill through an alpha mask, which overdraw would spoil.
pub fn rectangle_ops(bb: &BoundingBox, cr: &CornerRadii, color: Color, clip: Option<ClipRect>) -> (ops: Vec<DrawOp>)
    ensures
        ops@ == spec_rectangle_ops(*bb, *cr, color, clip),
{
    let mut ops: Vec<DrawOp> = Vec::new();
    if cr.is_zero() {
        ops.push(DrawOp::FillRect { x: bb.x as i64, y: bb.y as i64, width: bb.width as i64, height: bb.height as i64, color });
    } else if color.is_opaque() {
        push_rounded_pieces(&mut ops, bb.x as i64, bb.y as i64, bb.width, bb.height, cr, color);
    } else {
        ops.push(DrawOp::MaskedRect { bounds: *bb, radii: *cr, color, clip });
    }
    assert(ops@ =~= spec_rectangle_ops(*bb, *cr, color, clip));
    ops
}

/// The shape of a rounded rectangle of `bb`'s size, in opaque white, drawn at
/// the origin of an off-screen surface: its alpha is the mask.
pub fn corner_mask(bb: &BoundingBox, cr: &CornerRadii) -> (ops: Vec<DrawOp>)
    ensures
        ops@ == rounded_pieces(0, 0, bb.width as int, bb.height as int, *cr, white()),
{
    let mut ops: Vec<DrawOp> = Vec::new();
    push_rounded_pieces(&mut ops, 0, 0, bb.width, bb.height, cr, Color { r: 255, g: 255, b: 255, a: 255 });
    assert(ops@ =~= rounded_pieces(0, 0, bb.width as int, bb.height as int, *cr, white()));
    ops
}

/// The ops that draw image `image_id` scaled to `bb`, its corners rounded by
/// `cr`. A fully transparent black `background` means no tint.
pub open spec fn spec_image_ops(bb: BoundingBox, cr: CornerRadii, image_id: u32, background: Color, clip: Option<ClipRect>) -> Seq<DrawOp> {
    let tint = spec_image_tint(background);
    if cr.all_zero() {
        seq![DrawOp::Image { bounds: bb, image_id, tint }]
    } else {
        seq![DrawOp::MaskedImage { bounds: bb, radii: cr, image_id, tint, clip }]
    }
}

/// Draws an image into `bb`: directly when no corner is rounded, else with
/// its alpha multiplied by the corner mask, since a texture cannot be split
/// into bands and disks.
pub fn image_ops(bb: &BoundingBox, cr: &CornerRadii, image_id: u32, background: Color, clip: Option<ClipRect>) -> (ops: Vec<DrawOp>)
    ensures
        ops@ == spec_image_ops(*bb, *cr, image_id, background, clip),
{
    let tint = image_tint(background);
    let mut ops: Vec<DrawOp> = Vec::new();
    if cr.is_zero() {
        ops.push(DrawOp::Image { bounds: *bb, image_id, tint });
    } else {
        ops.push(DrawOp::MaskedImage { bounds: *bb, radii: *cr, image_id, tint, clip });
    }
    assert(ops@ =~= spec_image_ops(*bb, *cr, image_id, background, clip));
    ops
}

/// RGBA bytes `content` after masking by the RGBA bytes `mask`: each
/// pixel's alpha becomes the masked alpha, colour channels stay.
pub open spec fn masked_pixels(content: Seq<u8>, mask: Seq<u8>) -> Seq<u8> {
    Seq::new(
        content.len(),
        |j: int|
            if j % 4 == 3 && j < content.len() - content.len() % 4 {
                spec_masked_alpha(content[j], mask[j]) as u8
            } else {
                content[j]
            },
    )
}

/// Multiplies the alpha of each whole RGBA pixel of `content` by that of the
/// pixel at the same place in `mask`, a surface of the same size.
pub fn apply_mask(content: &mut Vec<u8>, mask: &Vec<u8>)
    requires
        old(content).len() <= mask.len(),
    ensures
        final(content)@ == masked_pixels(old(content)@, mask@),
{
    let ghost orig = content@;
    let n = content.len() / 4;
    let mut i: usize = 0;
    while i < n
        invariant
            n == orig.len() / 4,
            i <= n,
            content.len() == orig.len(),
            orig.len() <= mask.len(),
            forall|j: int|
                0 <= j < orig.len() ==> #[trigger] content@[j] == if j % 4 == 3 && j < 4 * i {
                    spec_masked_alpha(orig[j], mask@[j]) as u8
                } else {
                    orig[j]
                },
        decreases n - i,
    {
        let k = 4 * i + 3;
        let a = masked_alpha(content[k], mask[k]);
        content.set(k, a);
        i = i + 1;
    }
    assert(content@ =~= masked_pixels(orig, mask@));
}

/// Whether `(u, v)` lies strictly inside the circle of radius `r` about
/// `(cu, cv)`.
pub open spec fn in_disk(u: int, v: int, cu: int, cv: int, r: int) -> bool {
    (u - cu) * (u - cu) + (v - cv) * (v - cv) < r * r
}

/// The rounded area in doubled coordinates relative to the box: pixel
/// centres are odd, the box is `2w` by `2h` and `tl` ... `br` are diameters.
pub open spec fn area_doubled(u: int, v: int, w: int, h: int, tl: int, tr: int, bl: int, br: int) -> bool {
    &&& 0 < u < 2 * w && 0 < v < 2 * h
    &&& (u < tl && v < tl) ==> in_disk(u, v, tl, tl, tl)
    &&& (u > 2 * w - tr && v < tr) ==> in_disk(u, v, 2 * w - tr, tr, tr)
    &&& (u < bl && v > 2 * h - bl) ==> in_disk(u, v, bl, 2 * h - bl, bl)
    &&& (u > 2 * w - br && v > 2 * h - br) ==> in_disk(u, v, 2 * w - br, 2 * h - br, br)
}

proof fn lemma_in_disk_mirror(u: int, v: int, cu: int, cv: int, r: int, k: int, l: int)
    ensures
        in_disk(u, v, cu, cv, r) == in_disk(k - u, v, k - cu, cv, r),
        in_disk(u, v, cu, cv, r) == in_disk(u, l - v, cu, l - cv, r),
        in_disk(u, v, cu, cv, r) == in_disk(v, u, cv, cu, r),
{
    assert((k - u - (k - cu)) * (k - u - (k - cu)) == (u - cu) * (u - cu)) by (nonlinear_arith);
    assert((l - v - (l - cv)) * (l - v - (l - cv)) == (v - cv) * (v - cv)) by (nonlinear_arith);
}

/// The rounded area is the same seen in a mirror across the vertical
/// centre line, with left and right corners swapped.
proof fn lemma_area_mirror_x(u: int, v: int, w: int, h: int, tl: int, tr: int, bl: int, br: int)
    ensures
        area_doubled(u, v, w, h, tl, tr, bl, br) == area_doubled(2 * w - u, v, w, h, tr, tl, br, bl),
{
    let k = 2 * w;
    lemma_in_disk_mirror(u, v, tl, tl, tl, k, 0);
    lemma_in_disk_mirror(u, v, 2 * w - tr, tr, tr, k, 0);
    lemma_in_disk_mirror(u, v, bl, 2 * h - bl, bl, k, 0);
    lemma_in_disk_mirror(u, v, 2 * w - br, 2 * h - br, br, k, 0);
}

/// The rounded area is the same seen in a mirror across the horizontal
/// centre line, with top and bottom corners swapped.
proof fn lemma_area_mirror_y(u: int, v: int, w: int, h: int, tl: int, tr: int, bl: int, br: int)
    ensures
        area_doubled(u, v, w, h, tl, tr, bl, br) == area_doubled(u, 2 * h - v, w, h, bl, br, tl, tr),
{
    let l = 2 * h;
    lemma_in_disk_mirror(u, v, tl, tl, tl, 0, l);
    lemma_in_disk_mirror(u, v, 2 * w - tr, tr, tr, 0, l);
    lemma_in_disk_mirror(u, v, bl, 2 * h - bl, bl, 0, l);
    lemma_in_disk_mirror(u, v, 2 * w - br, 2 * h - br, br, 0, l);
}

/// A point of the top-left corner's disk lies in the rounded area.
proof fn lemma_top_left_disk_in_area(u: int, v: int, w: int, h: int, tl: int, tr: int, bl: int, br: int)
    requires
        0 < tl,
        0 <= tr,
        0 <= bl,
        0 <= br,
        tl <= w && tl <= h && tr <= w && tr <= h && bl <= w && bl <= h && br <= w && br <= h,
        in_disk(u, v, tl, tl, tl),
    ensures
        area_doubled(u, v, w, h, tl, tr, bl, br),
{
    assert((v - tl) * (v - tl) >= 0) by (nonlinear_arith);
    assert((u - tl) * (u - tl) >= 0) by (nonlinear_arith);
    lemma_square_bound(u - tl, tl);
    lemma_square_bound(v - tl, tl);
    if u > 2 * w - tr && v < tr {
        lemma_neighbour_corner(u, v, tl, tr, w);
    }
    if u < bl && v > 2 * h - bl {
        lemma_in_disk_mirror(u, v, tl, tl, tl, 0, 0);
        lemma_neighbour_corner(v, u, tl, bl, h);
        lemma_in_disk_mirror(v, u, 2 * h - bl, bl, bl, 0, 0);
    }
    if u > 2 * w - br && v > 2 * h - br {
        lemma_opposite_corner(u, v, tl, br, w, h);
    }
}

/// A point of any corner's disk lies in the rounded area.
proof fn lemma_disks_in_area(u: int, v: int, w: int, h: int, tl: int, tr: int, bl: int, br: int)
    requires
        0 <= tl && 0 <= tr && 0 <= bl && 0 <= br,
        tl <= w && tl <= h && tr <= w && tr <= h && bl <= w && bl <= h && br <= w && br <= h,
        (0 < tl && in_disk(u, v, tl, tl, tl)) || (0 < tr && in_disk(u, v, 2 * w - tr, tr, tr)) || (0
            < bl && in_disk(u, v, bl, 2 * h - bl, bl)) || (0 < br && in_disk(
            u,
            v,
            2 * w - br,
            2 * h - br,
            br,
        )),
    ensures
        area_doubled(u, v, w, h, tl, tr, bl, br),
{
    let (k, l) = (2 * w, 2 * h);
    if 0 < tl && in_disk(u, v, tl, tl, tl) {
        lemma_top_left_disk_in_area(u, v, w, h, tl, tr, bl, br);
    } else if 0 < tr && in_disk(u, v, 2 * w - tr, tr, tr) {
        lemma_in_disk_mirror(u, v, 2 * w - tr, tr, tr, k, l);
        lemma_top_left_disk_in_area(k - u, v, w, h, tr, tl, br, bl);
        lemma_area_mirror_x(u, v, w, h, tl, tr, bl, br);
    } else if 0 < bl && in_disk(u, v, bl, 2 * h - bl, bl) {
        lemma_in_disk_mirror(u, v, bl, 2 * h - bl, bl, k, l);
        lemma_top_left_disk_in_area(u, l - v, w, h, bl, br, tl, tr);
        lemma_area_mirror_y(u, v, w, h, tl, tr, bl, br);
    } else {
        lemma_in_disk_mirror(u, v, 2 * w - br, 2 * h - br, br, k, l);
        lemma_in_disk_mirror(k - u, v, br, 2 * h - br, br, k, l);
        lemma_top_left_disk_in_area(k - u, l - v, w, h, br, bl, tr, tl);
        lemma_area_mirror_y(k - u, v, w, h, tr, tl, br, bl);
        lemma_area_mirror_x(u, v, w, h, tl, tr, bl, br);
    }
}

proof fn lemma_square_bound(z: int, r: int)
    requires
        0 <= r,
        z * z < r * r,
    ensures
        -r < z < r,
{
    if z >= r {
        assert(z * z >= r * r) by (nonlinear_arith)
            requires
                z >= r,
                r >= 0,
        ;
    }
    if z <= -r {
        assert(z * z >= r * r) by (nonlinear_arith)
            requires
                z <= -r,
                r >= 0,
        ;
    }
}

proof fn lemma_power_difference(u: int, v: int, a: int, b: int, c: int)
    ensures
        ((u - a) * (u - a) + (v - a) * (v - a) - a * a) - ((u - c) * (u - c) + (v - b) * (v - b) - b
            * b) == (c - a) * (c - a) + 2 * (c - a) * (u - c) + 2 * (b - a) * v,
{
    assert((u - a) * (u - a) - (u - c) * (u - c) == (c - a) * (2 * u - a - c)) by (nonlinear_arith);
    assert((v - a) * (v - a) - (v - b) * (v - b) - a * a + b * b == 2 * (b - a) * v)
        by (nonlinear_arith);
    assert((c - a) * (2 * u - a - c) == (c - a) * (c - a) + 2 * (c - a) * (u - c))
        by (nonlinear_arith);
}

/// In doubled coordinates, with a box `w` wide: a point strictly inside the
/// circle of radius `a` touching the top and left edges, lying in the square
/// of side `b` at the top right corner, is strictly inside the circle of
/// radius `b` touching the top and right edges.
proof fn lemma_neighbour_corner(u: int, v: int, a: int, b: int, w: int)
    requires
        0 <= a <= w,
        0 < b <= w,
        u >= 2 * w - b,
        0 <= v <= b,
        in_disk(u, v, a, a, a),
    ensures
        in_disk(u, v, 2 * w - b, b, b),
{
    let c = 2 * w - b;
    let s = u - c;
    let pa = (u - a) * (u - a) + (v - a) * (v - a) - a * a;
    let pb = (u - c) * (u - c) + (v - b) * (v - b) - b * b;
    assert(pa < 0);
    if s >= v {
        let l = (c - a) * (c - a) + 2 * (c - a) * s + 2 * (b - a) * v;
        lemma_power_difference(u, v, a, b, c);
        assert(l >= 0) by (nonlinear_arith)
            requires
                l == (c - a) * (c - a) + 2 * (c - a) * s + 2 * (b - a) * v,
                c >= a,
                c >= 2 * a - b,
                s >= v,
                v >= 0,
        ;
    } else {
        assert(pb < 0) by (nonlinear_arith)
            requires
                pb == (u - c) * (u - c) + (v - b) * (v - b) - b * b,
                s == u - c,
                0 <= s < v,
                v <= b,
        ;
    }
}

/// In doubled coordinates, with a box `w` by `h`: a point strictly inside the
/// circle of radius `a` touching the top and left edges, lying in the square
/// of side `d` at the bottom right corner, is strictly inside the circle of
/// radius `d` touching the bottom and right edges.
proof fn lemma_opposite_corner(u: int, v: int, a: int, d: int, w: int, h: int)
    requires
        0 <= a <= w,
        a <= h,
        0 < d <= w,
        d <= h,
        u >= 2 * w - d,
        v >= 2 * h - d,
        in_disk(u, v, a, a, a),
    ensures
        in_disk(u, v, 2 * w - d, 2 * h - d, d),
{
    let c = 2 * w - d;
    let e = 2 * h - d;
    let s = u - c;
    let t = v - e;
    let pa = (u - a) * (u - a) + (v - a) * (v - a) - a * a;
    let pd = (u - c) * (u - c) + (v - e) * (v - e) - d * d;
    assert(pa < 0);
    if s + t >= d {
        let m = if c <= e {
            c - a
        } else {
            e - a
        };
        let l = (c - a) * (c - a) + (e - a) * (e - a) - a * a + d * d + 2 * ((c - a) * s + (e - a) * t);
        assert(pa - pd == l) by (nonlinear_arith)
            requires
                pa == (u - a) * (u - a) + (v - a) * (v - a) - a * a,
                pd == (u - c) * (u - c) + (v - e) * (v - e) - d * d,
                s == u - c,
                t == v - e,
                l == (c - a) * (c - a) + (e - a) * (e - a) - a * a + d * d + 2 * ((c - a) * s + (e - a) * t),
        ;
        assert((c - a) * s + (e - a) * t >= m * d) by (nonlinear_arith)
            requires
                0 <= m <= c - a,
                m <= e - a,
                s >= 0,
                t >= 0,
                s + t >= d,
        ;
        assert((c - a) * (c - a) + (e - a) * (e - a) >= 2 * m * m) by (nonlinear_arith)
            requires
                0 <= m <= c - a,
                m <= e - a,
        ;
        assert((m + d) * (m + d) >= a * a) by (nonlinear_arith)
            requires
                m + d >= a,
                a >= 0,
        ;
        assert(l >= 0) by (nonlinear_arith)
            requires
                l == (c - a) * (c - a) + (e - a) * (e - a) - a * a + d * d + 2 * ((c - a) * s + (e - a) * t),
                (c - a) * s + (e - a) * t >= m * d,
                (c - a) * (c - a) + (e - a) * (e - a) >= 2 * m * m,
                (m + d) * (m + d) >= a * a,
                m >= 0,
        ;
    } else {
        assert(pd < 0) by (nonlinear_arith)
            requires
                pd == (u - c) * (u - c) + (v - e) * (v - e) - d * d,
                s == u - c,
                t == v - e,
                s >= 0,
                t >= 0,
                s + t < d,
        ;
    }
}

proof fn lemma_painted_append(a: Seq<DrawOp>, b: Seq<DrawOp>, px: int, py: int)
    ensures
        painted(a + b, px, py) == (painted(a, px, py) || painted(b, px, py)),
{
    let ab = a + b;
    if painted(ab, px, py) {
        let i = choose|i: int| 0 <= i < ab.len() && #[trigger] covers(ab[i], px, py);
        if i >= a.len() {
            assert(b[i - a.len()] == ab[i]);
        }
    }
    if painted(b, px, py) {
        let i = choose|i: int| 0 <= i < b.len() && #[trigger] covers(b[i], px, py);
        assert(ab[i + a.len()] == b[i]);
    }
    if painted(a, px, py) {
        let i = choose|i: int| 0 <= i < a.len() && #[trigger] covers(a[i], px, py);
        assert(ab[i] == a[i]);
    }
}

proof fn lemma_painted_optional(c: bool, op: DrawOp, px: int, py: int)
    ensures
        painted(optional(c, op), px, py) == (c && covers(op, px, py)),
{
    if c {
        assert(optional(c, op)[0] == op);
    }
}

/// With no corner rounded, a fill paints exactly the pixels of its box.
pub proof fn lemma_square_fill_is_plain_rectangle(bb: BoundingBox, cr: CornerRadii, color: Color, clip: Option<ClipRect>, px: int, py: int)
    requires
        cr.all_zero(),
    ensures
        spec_rectangle_ops(bb, cr, color, clip) == seq![fill(bb.x as int, bb.y as int, bb.width as int, bb.height as int, color)],
        painted(spec_rectangle_ops(bb, cr, color, clip), px, py) == (bb.x <= px < bb.x + bb.width
            && bb.y <= py < bb.y + bb.height),
{
    let ops = spec_rectangle_ops(bb, cr, color, clip);
    assert(ops[0] == fill(bb.x as int, bb.y as int, bb.width as int, bb.height as int, color));
    if covers(ops[0], px, py) {
        assert(painted(ops, px, py));
    }
}

/// An opaque fill with rounded corners, each radius at most half the
/// shorter side, paints exactly the pixels of the rounded area: its bands
/// and disks leave no gap and reach no pixel outside it. (Pieces do overlap:
/// a pixel may be painted more than once.)
pub proof fn lemma_opaque_fill_covers_rounded_area(bb: BoundingBox, cr: CornerRadii, color: Color, clip: Option<ClipRect>, px: int, py: int)
    requires
        !cr.all_zero(),
        color.a == 255,
        cr.fit(bb.width as int, bb.height as int),
    ensures
        painted(spec_rectangle_ops(bb, cr, color, clip), px, py) == in_rounded_area(
            bb.x as int,
            bb.y as int,
            bb.width as int,
            bb.height as int,
            cr,
            px,
            py,
        ),
{
    let (x, y, w, h) = (bb.x as int, bb.y as int, bb.width as int, bb.height as int);
    let (tl, tr, bl, br) = (
        cr.top_left as int,
        cr.top_right as int,
        cr.bottom_left as int,
        cr.bottom_right as int,
    );
    let u = 2 * (px - x) + 1;
    let v = 2 * (py - y) + 1;
    assert(4 * tl * tl == (2 * tl) * (2 * tl)) by (nonlinear_arith);
    assert(4 * tr * tr == (2 * tr) * (2 * tr)) by (nonlinear_arith);
    assert(4 * bl * bl == (2 * bl) * (2 * bl)) by (nonlinear_arith);
    assert(4 * br * br == (2 * br) * (2 * br)) by (nonlinear_arith);
    let d_tl = covers(disk(x + tl, y + tl, tl, color), px, py);
    let d_tr = covers(disk(x + w - tr, y + tr, tr, color), px, py);
    let d_bl = covers(disk(x + bl, y + h - bl, bl, color), px, py);
    let d_br = covers(disk(x + w - br, y + h - br, br, color), px, py);
    assert(d_tl == in_disk(u, v, 2 * tl, 2 * tl, 2 * tl));
    assert(d_tr == in_disk(u, v, 2 * w - 2 * tr, 2 * tr, 2 * tr));
    assert(d_bl == in_disk(u, v, 2 * bl, 2 * h - 2 * bl, 2 * bl));
    assert(d_br == in_disk(u, v, 2 * w - 2 * br, 2 * h - 2 * br, 2 * br));
    assert(in_rounded_area(x, y, w, h, cr, px, py) == area_doubled(u, v, w, h, 2 * tl, 2 * tr, 2 * bl, 2 * br));
    let b_top = optional(tl > 0 || tr > 0, fill(x + tl, y, w - tl - tr, h - max(bl, br), color));
    let b_left = optional(tl > 0 || bl > 0, fill(x, y + tl, w - max(tr, br), h - tl - bl, color));
    let b_bottom = optional(bl > 0 || br > 0, fill(x + bl, y + max(tl, tr), w - bl - br, h - max(tl, tr), color));
    let b_right = optional(tr > 0 || br > 0, fill(x + max(tl, bl), y + tr, w - max(tl, bl), h - tr - br, color));
    let c_tl = optional(tl > 0, disk(x + tl, y + tl, tl, color));
    let c_tr = optional(tr > 0, disk(x + w - tr, y + tr, tr, color));
    let c_bl = optional(bl > 0, disk(x + bl, y + h - bl, bl, color));
    let c_br = optional(br > 0, disk(x + w - br, y + h - br, br, color));
    let s1 = b_top + b_left;
    let s2 = s1 + b_bottom;
    let s3 = s2 + b_right;
    let s4 = s3 + c_tl;
    let s5 = s4 + c_tr;
    let s6 = s5 + c_bl;
    let s7 = s6 + c_br;
    assert(spec_rectangle_ops(bb, cr, color, clip) == s7);
    lemma_painted_append(b_top, b_left, px, py);
    lemma_painted_append(s1, b_bottom, px, py);
    lemma_painted_append(s2, b_right, px, py);
    lemma_painted_append(s3, c_tl, px, py);
    lemma_painted_append(s4, c_tr, px, py);
    lemma_painted_append(s5, c_bl, px, py);
    lemma_painted_append(s6, c_br, px, py);
    lemma_painted_optional(tl > 0 || tr > 0, fill(x + tl, y, w - tl - tr, h - max(bl, br), color), px, py);
    lemma_painted_optional(tl > 0 || bl > 0, fill(x, y + tl, w - max(tr, br), h - tl - bl, color), px, py);
    lemma_painted_optional(bl > 0 || br > 0, fill(x + bl, y + max(tl, tr), w - bl - br, h - max(tl, tr), color), px, py);
    lemma_painted_optional(tr > 0 || br > 0, fill(x + max(tl, bl), y + tr, w - max(tl, bl), h - tr - br, color), px, py);
    lemma_painted_optional(tl > 0, disk(x + tl, y + tl, tl, color), px, py);
    lemma_painted_optional(tr > 0, disk(x + w - tr, y + tr, tr, color), px, py);
    lemma_painted_optional(bl > 0, disk(x + bl, y + h - bl, bl, color), px, py);
    lemma_painted_optional(br > 0, disk(x + w - br, y + h - br, br, color), px, py);
    if (tl > 0 && d_tl) || (tr > 0 && d_tr) || (bl > 0 && d_bl) || (br > 0 && d_br) {
        lemma_disks_in_area(u, v, w, h, 2 * tl, 2 * tr, 2 * bl, 2 * br);
    }
}

} // verus!
