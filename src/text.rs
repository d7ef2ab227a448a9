//! Text runs: what is measured for layout, and where the segments of a
//! styled run stand before their animation offsets are applied.
use vstd::prelude::*;

use crate::color::Color;
use crate::markup::{SegmentView, StyledSegment, parse_markup, parse_styled_text, segments_view};

verus! {

/// How a run of text is set.
#[derive(Clone, Copy, Debug, PartialEq, Eq, Structural)]
pub struct TextConfig {
    pub font_id: u16,
    pub font_size: u16,
    pub letter_spacing: u16,
    pub color: Color,
}

/// The text of `segs`, one after the other.
pub open spec fn concat_texts(segs: Seq<SegmentView>) -> Seq<char>
    decreases segs.len(),
{
    if segs.len() == 0 {
        seq![]
    } else {
        concat_texts(segs.drop_last()) + segs.last().text
    }
}

/// The characters that a run shows: its segments' text when its markup
/// parses, else the run verbatim, as it is then drawn.
pub open spec fn shown_text(s: Seq<char>) -> Seq<char> {
    match parse_markup(s) {
        Ok(segs) => concat_texts(segs),
        Err(_) => s,
    }
}

/// What the font is asked to measure for a run, and what is added to the
/// measured width.
#[derive(Clone, Debug, PartialEq)]
pub struct MeasureRequest {
    /// The characters to measure.
    pub text: String,
    pub font_id: u16,
    pub font_size: u16,
    /// Gaps between characters that each add `letter_spacing` to the width:
    /// one fewer than the run's characters, and none for an empty run.
    pub letter_gaps: u64,
    pub letter_spacing: u16,
}

/// Measures text for layout with one of `font_count` loaded fonts.
#[derive(Clone, Copy, Debug, PartialEq, Eq, Structural)]
pub struct MeasureTextFunction {
    pub font_count: usize,
}

/// The measuring function for a set of `font_count` fonts.
pub fn create_measure_text_function(font_count: usize) -> (m: MeasureTextFunction)
    ensures
        m.font_count == font_count,
{
    MeasureTextFunction { font_count }
}

fn concat_segments(segs: &Vec<StyledSegment>) -> (r: String)
    ensures
        r@ == concat_texts(segments_view(segs@)),
{
    let mut r = String::new();
    let mut i: usize = 0;
    while i < segs.len()
        invariant
            i <= segs.len(),
            r@ == concat_texts(segments_view(segs@.subrange(0, i as int))),
        decreases segs.len() - i,
    {
        r.append(segs[i].text.as_str());
        proof {
            let p = segments_view(segs@.subrange(0, i + 1));
            assert(p.drop_last() =~= segments_view(segs@.subrange(0, i as int)));
        }
        i = i + 1;
    }
    assert(segs@.subrange(0, i as int) =~= segs@);
    r
}

impl MeasureTextFunction {
    /// The request that measures `text` set in `config`; `None` when the
    /// font is not one of the loaded ones.
    pub fn request(&self, text: &str, config: &TextConfig) -> (r: Option<MeasureRequest>)
        ensures
            r is None <==> config.font_id as int >= self.font_count,
            r matches Some(q) ==> {
                &&& q.text@ == shown_text(text@)
                &&& q.font_id == config.font_id
                &&& q.font_size == config.font_size
                &&& q.letter_spacing == config.letter_spacing
                &&& q.letter_gaps as int == if text@.len() == 0 {
                    0
                } else {
                    text@.len() - 1
                }
            },
    {
        if config.font_id as usize >= self.font_count {
            return None;
        }
        let shown = match parse_styled_text(text) {
            Ok(segs) => concat_segments(&segs),
            Err(_) => String::from_str(text),
        };
        let n = text.unicode_len();
        let gaps: u64 = if n == 0 {
            0
        } else {
            (n - 1) as u64
        };
        Some(
            MeasureRequest {
                text: shown,
                font_id: config.font_id,
                font_size: config.font_size,
                letter_gaps: gaps,
                letter_spacing: config.letter_spacing,
            },
        )
    }
}

/// The width of `widths` laid side by side.
pub open spec fn total_width(widths: Seq<u32>) -> int
    decreases widths.len(),
{
    if widths.len() == 0 {
        0
    } else {
        total_width(widths.drop_last()) + widths.last()
    }
}

/// The measuring pass of a styled run: segment `i` starts at `x` plus the
/// widths of the segments before it, whatever its animation later does.
pub fn segment_positions(x: i32, widths: &Vec<u32>) -> (r: Vec<i64>)
    requires
        widths.len() <= 0x4000_0000,
    ensures
        r.len() == widths.len(),
        forall|i: int| 0 <= i < r.len() ==> #[trigger] r@[i] == x + total_width(widths@.subrange(0, i)),
{
    let mut r: Vec<i64> = Vec::new();
    let mut cursor: i64 = x as i64;
    let mut i: usize = 0;
    while i < widths.len()
        invariant
            i <= widths.len(),
            widths.len() <= 0x4000_0000,
            r.len() == i,
            cursor == x + total_width(widths@.subrange(0, i as int)),
            0 <= total_width(widths@.subrange(0, i as int)) <= i * 0xffff_ffff,
            forall|j: int| 0 <= j < i ==> #[trigger] r@[j] == x + total_width(widths@.subrange(0, j)),
        decreases widths.len() - i,
    {
        r.push(cursor);
        assert(widths@.subrange(0, i + 1).drop_last() =~= widths@.subrange(0, i as int));
        assert(i * 0xffff_ffff + 0xffff_ffff == (i + 1) * 0xffff_ffff) by (nonlinear_arith);
        assert(i * 0xffff_ffff <= 0x4000_0000 * 0xffff_ffff) by (nonlinear_arith)
            requires i <= 0x4000_0000;
        cursor = cursor + widths[i] as i64;
        i = i + 1;
    }
    r
}

} // verus!
