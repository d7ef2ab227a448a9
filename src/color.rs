//! Colours as the layout engine hands them over: 0 to 255 per channel.
use vstd::prelude::*;

verus! {

/// An RGBA colour with one byte per channel; alpha 255 is fully opaque.
#[derive(Clone, Copy, Debug, PartialEq, Eq, Structural)]
pub struct Color {
    pub r: u8,
    pub g: u8,
    pub b: u8,
    pub a: u8,
}

pub open spec fn transparent() -> Color {
    Color { r: 0, g: 0, b: 0, a: 0 }
}

pub open spec fn white() -> Color {
    Color { r: 255, g: 255, b: 255, a: 255 }
}

impl Color {
    pub fn new(r: u8, g: u8, b: u8, a: u8) -> (c: Color)
        ensures
            c.r == r && c.g == g && c.b == b && c.a == a,
    {
        Color { r, g, b, a }
    }

    /// A fill that can be drawn by overdraw without an alpha mask.
    pub fn is_opaque(&self) -> (r: bool)
        ensures
            r == (self.a == 255),
    {
        self.a == 255
    }
}

/// The tint an image is drawn with: fully transparent black means that no
/// tint was given, and stands for opaque white.
pub open spec fn spec_image_tint(c: Color) -> Color {
    if c == transparent() {
        white()
    } else {
        c
    }
}

pub fn image_tint(c: Color) -> (t: Color)
    ensures
        t == spec_image_tint(c),
{
    if c.r == 0 && c.g == 0 && c.b == 0 && c.a == 0 {
        Color { r: 255, g: 255, b: 255, a: 255 }
    } else {
        c
    }
}

/// Alpha of a content pixel after masking: content and mask alphas taken as
/// fractions of 255, multiplied, and rounded to the nearest step of 255.
pub open spec fn spec_masked_alpha(content: u8, mask: u8) -> int {
    (content as int * mask as int + 127) / 255
}

pub fn masked_alpha(content: u8, mask: u8) -> (r: u8)
    ensures
        r as int == spec_masked_alpha(content, mask),
        r <= content && r <= mask,
{
    assert(content as u32 * mask as u32 <= 255 * 255) by (nonlinear_arith)
        requires content <= 255, mask <= 255;
    let p: u32 = content as u32 * mask as u32;
    let r: u32 = (p + 127) / 255;
    assert(r <= content as u32 && r <= mask as u32) by (nonlinear_arith)
        requires r == (p + 127) / 255, p == content as u32 * mask as u32, content <= 255, mask <= 255;
    r as u8
}

} // verus!
