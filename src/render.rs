//! One pass over a frame's command stream, in paint order, keeping the
//! active clip region and sending each command to its renderer.
use vstd::prelude::*;

use crate::animation::{AnimationState, AnimationTable};
use crate::border::{BorderWidths, PIXELS_PER_POINT, border_ops, spec_border_ops};
use crate::color::Color;
use crate::draw::{ClipRect, DrawOp, OpView, ops_view};
use crate::geometry::{BoundingBox, CornerRadii, image_ops, rectangle_ops, spec_image_ops, spec_rectangle_ops};
use crate::markup::{parse_markup, parse_styled_text};
use crate::markup::{StyledSegment, segments_view};
use crate::text::{TextConfig, concat_texts};

verus! {

/// What a command draws.
#[derive(Clone, Debug, PartialEq)]
pub enum RenderCommandConfig {
    Rectangle { color: Color, corner_radii: CornerRadii },
    Border { color: Color, width: BorderWidths, corner_radii: CornerRadii },
    Text { text: String, config: TextConfig },
    Image { image_id: u32, background_color: Color, corner_radii: CornerRadii },
    /// Clips what follows to the command's box, replacing any clip before.
    ScissorStart,
    /// Lifts the clip.
    ScissorEnd,
    /// Drawn by the application's own handler.
    Custom { payload: u64 },
    /// Draws nothing.
    Empty,
}

/// One command of the layout engine's stream.
#[derive(Clone, Debug, PartialEq)]
pub struct RenderCommand {
    pub bounding_box: BoundingBox,
    pub config: RenderCommandConfig,
}

/// Where a pass over a stream stands.
pub struct RenderState {
    /// The ops emitted so far, in paint order.
    pub ops: Seq<OpView>,
    pub clip: Option<ClipRect>,
    pub table: Map<Seq<char>, AnimationState>,
    /// Characters of styled runs drawn so far in this pass.
    pub char_index: u64,
}

pub open spec fn clip_of(bb: BoundingBox) -> ClipRect {
    ClipRect { x: bb.x, y: bb.y, width: bb.width, height: bb.height }
}

pub open spec fn saturating_add(a: u64, b: int) -> u64 {
    if a + b > u64::MAX {
        u64::MAX
    } else {
        (a + b) as u64
    }
}

pub open spec fn saturating_sub(a: u64, b: u64) -> u64 {
    if a >= b {
        (a - b) as u64
    } else {
        0
    }
}

/// The record of run `key` once it is drawn at `now_ms` with running
/// character index `index`: the start time of its first sight, and `index`.
pub open spec fn record_of(table: Map<Seq<char>, AnimationState>, key: Seq<char>, now_ms: u64, index: u64) -> AnimationState {
    AnimationState {
        start_ms: if table.contains_key(key) {
            table[key].start_ms
        } else {
            now_ms
        },
        char_offset: index,
    }
}

/// The pass after one more command, at time `now_ms`.
pub open spec fn render_step(st: RenderState, cmd: RenderCommand, now_ms: u64) -> RenderState {
    let bb = cmd.bounding_box;
    match cmd.config {
        RenderCommandConfig::Rectangle { color, corner_radii } => RenderState {
            ops: st.ops + ops_view(spec_rectangle_ops(bb, corner_radii, color, st.clip)),
            ..st
        },
        RenderCommandConfig::Border { color, width, corner_radii } => RenderState {
            ops: st.ops + ops_view(spec_border_ops(bb, width, corner_radii, color, PIXELS_PER_POINT as int)),
            ..st
        },
        RenderCommandConfig::Image { image_id, background_color, corner_radii } => RenderState {
            ops: st.ops + ops_view(spec_image_ops(bb, corner_radii, image_id, background_color, st.clip)),
            ..st
        },
        RenderCommandConfig::Text { text, config } => match parse_markup(text@) {
            Ok(segments) => {
                let rec = record_of(st.table, text@, now_ms, st.char_index);
                RenderState {
                    ops: st.ops.push(
                        OpView::StyledText {
                            bounds: bb,
                            config,
                            segments,
                            elapsed_ms: saturating_sub(now_ms, rec.start_ms),
                            char_offset: rec.char_offset,
                        },
                    ),
                    table: st.table.insert(text@, rec),
                    char_index: saturating_add(st.char_index, concat_texts(segments).len() as int),
                    ..st
                }
            },
            Err(_) => RenderState {
                ops: st.ops.push(OpView::PlainText { bounds: bb, config, text: text@ }),
                ..st
            },
        },
        RenderCommandConfig::ScissorStart => RenderState {
            ops: st.ops.push(OpView::Other(DrawOp::SetClip { clip: Some(clip_of(bb)) })),
            clip: Some(clip_of(bb)),
            ..st
        },
        RenderCommandConfig::ScissorEnd => RenderState {
            ops: st.ops.push(OpView::Other(DrawOp::SetClip { clip: None })),
            clip: None,
            ..st
        },
        RenderCommandConfig::Custom { payload } => RenderState {
            ops: st.ops.push(OpView::Other(DrawOp::Custom { bounds: bb, payload })),
            ..st
        },
        RenderCommandConfig::Empty => st,
    }
}

/// A pass over `cmds` that starts with no clip, no ops and the records
/// of `table`.
pub open spec fn render_pass(cmds: Seq<RenderCommand>, table: Map<Seq<char>, AnimationState>, now_ms: u64) -> RenderState
    decreases cmds.len(),
{
    if cmds.len() == 0 {
        RenderState { ops: seq![], clip: None, table, char_index: 0 }
    } else {
        render_step(render_pass(cmds.drop_last(), table, now_ms), cmds.last(), now_ms)
    }
}

fn push_all(ops: &mut Vec<DrawOp>, more: Vec<DrawOp>)
    ensures
        ops_view(final(ops)@) == ops_view(old(ops)@) + ops_view(more@),
{
    let ghost before = ops@;
    let ghost added = more@;
    let mut more = more;
    ops.append(&mut more);
    assert(ops_view(ops@) =~= ops_view(before) + ops_view(added));
}

/// The number of characters `segments` show, or `u64::MAX` if more.
fn shown_count(segments: &Vec<StyledSegment>) -> (n: u64)
    ensures
        n == saturating_add(0, concat_texts(segments_view(segments@)).len() as int),
{
    let mut n: u64 = 0;
    let mut i: usize = 0;
    while i < segments.len()
        invariant
            i <= segments.len(),
            n == saturating_add(0, concat_texts(segments_view(segments@.subrange(0, i as int))).len() as int),
        decreases segments.len() - i,
    {
        let len = segments[i].text.as_str().unicode_len();
        n = n.saturating_add(len as u64);
        proof {
            let p = segments_view(segments@.subrange(0, i + 1));
            assert(p.drop_last() =~= segments_view(segments@.subrange(0, i as int)));
        }
        i = i + 1;
    }
    assert(segments@.subrange(0, i as int) =~= segments@);
    n
}

/// Plans the backend calls that draw `commands` in order at time `now_ms`,
/// starting with no clip. Each styled run's record in `table` is made on
/// first sight and updated with the run's running character index, counted
/// over the characters that the styled runs before it show.
pub fn clay_macroquad_render(commands: &Vec<RenderCommand>, table: &mut AnimationTable, now_ms: u64) -> (ops: Vec<DrawOp>)
    requires
        old(table).wf(),
    ensures
        final(table).wf(),
        ops_view(ops@) == render_pass(commands@, old(table)@, now_ms).ops,
        final(table)@ == render_pass(commands@, old(table)@, now_ms).table,
{
    let ghost table0 = table@;
    let mut ops: Vec<DrawOp> = Vec::new();
    let mut clip: Option<ClipRect> = None;
    let mut char_index: u64 = 0;
    let mut i: usize = 0;
    assert(ops_view(ops@) =~= Seq::<OpView>::empty());
    while i < commands.len()
        invariant
            i <= commands.len(),
            table.wf(),
            ({
                let st = render_pass(commands@.subrange(0, i as int), table0, now_ms);
                &&& ops_view(ops@) == st.ops
                &&& clip == st.clip
                &&& table@ == st.table
                &&& char_index == st.char_index
            }),
        decreases commands.len() - i,
    {
        assert(commands@.subrange(0, i + 1).drop_last() =~= commands@.subrange(0, i as int));
        let cmd = &commands[i];
        let bb = cmd.bounding_box;
        match &cmd.config {
            RenderCommandConfig::Rectangle { color, corner_radii } => {
                push_all(&mut ops, rectangle_ops(&bb, corner_radii, *color, clip));
            },
            RenderCommandConfig::Border { color, width, corner_radii } => {
                push_all(&mut ops, border_ops(&bb, width, corner_radii, *color, PIXELS_PER_POINT));
            },
            RenderCommandConfig::Image { image_id, background_color, corner_radii } => {
                push_all(&mut ops, image_ops(&bb, corner_radii, *image_id, *background_color, clip));
            },
            RenderCommandConfig::Text { text, config } => {
                let ghost before = ops@;
                match parse_styled_text(text.as_str()) {
                    Ok(segments) => {
                        let shown = shown_count(&segments);
                        let rec = table.touch(text, now_ms, char_index);
                        let elapsed = now_ms.saturating_sub(rec.start_ms);
                        ops.push(
                            DrawOp::StyledText {
                                bounds: bb,
                                config: *config,
                                segments,
                                elapsed_ms: elapsed,
                                char_offset: rec.char_offset,
                            },
                        );
                        char_index = char_index.saturating_add(shown);
                    },
                    Err(_) => {
                        ops.push(DrawOp::PlainText { bounds: bb, config: *config, text: text.clone() });
                    },
                }
                assert(ops_view(ops@) =~= ops_view(before).push(ops@.last()@));
            },
            RenderCommandConfig::ScissorStart => {
                let ghost before = ops@;
                let c = ClipRect { x: bb.x, y: bb.y, width: bb.width, height: bb.height };
                clip = Some(c);
                ops.push(DrawOp::SetClip { clip: Some(c) });
                assert(ops_view(ops@) =~= ops_view(before).push(ops@.last()@));
            },
            RenderCommandConfig::ScissorEnd => {
                let ghost before = ops@;
                clip = None;
                ops.push(DrawOp::SetClip { clip: None });
                assert(ops_view(ops@) =~= ops_view(before).push(ops@.last()@));
            },
            RenderCommandConfig::Custom { payload } => {
                let ghost before = ops@;
                ops.push(DrawOp::Custom { bounds: bb, payload: *payload });
                assert(ops_view(ops@) =~= ops_view(before).push(ops@.last()@));
            },
            RenderCommandConfig::Empty => {},
        }
        i = i + 1;
    }
    assert(commands@.subrange(0, i as int) =~= commands@);
    ops
}

/// The key of the animation record that `cmd` updates, if any.
pub open spec fn styled_key(cmd: RenderCommand) -> Option<Seq<char>> {
    match cmd.config {
        RenderCommandConfig::Text { text, .. } => if parse_markup(text@) is Ok {
            Some(text@)
        } else {
            None
        },
        _ => None,
    }
}

/// The keys of the records that a pass over `cmds` updates.
pub open spec fn styled_keys(cmds: Seq<RenderCommand>) -> Set<Seq<char>>
    decreases cmds.len(),
{
    if cmds.len() == 0 {
        Set::empty()
    } else {
        match styled_key(cmds.last()) {
            Some(k) => styled_keys(cmds.drop_last()).insert(k),
            None => styled_keys(cmds.drop_last()),
        }
    }
}

/// Records keep their keys and start times from one command to the next.
pub open spec fn starts_kept(t: Map<Seq<char>, AnimationState>, u: Map<Seq<char>, AnimationState>) -> bool {
    forall|k: Seq<char>| #[trigger] t.contains_key(k) ==> u.contains_key(k) && u[k].start_ms == t[k].start_ms
}

proof fn lemma_step_keeps_starts(st: RenderState, cmd: RenderCommand, now_ms: u64)
    ensures
        starts_kept(st.table, render_step(st, cmd, now_ms).table),
        styled_key(cmd) matches Some(k) ==> render_step(st, cmd, now_ms).table.contains_key(k),
        styled_key(cmd) is None ==> render_step(st, cmd, now_ms).table == st.table,
{
}

proof fn lemma_pass_keeps_starts(cmds: Seq<RenderCommand>, table: Map<Seq<char>, AnimationState>, now_ms: u64, i: int)
    requires
        0 <= i <= cmds.len(),
    ensures
        starts_kept(render_pass(cmds.subrange(0, i), table, now_ms).table, render_pass(cmds, table, now_ms).table),
    decreases cmds.len() - i,
{
    if i == cmds.len() {
        assert(cmds.subrange(0, i) =~= cmds);
    } else {
        lemma_pass_keeps_starts(cmds, table, now_ms, i + 1);
        let p = cmds.subrange(0, i + 1);
        assert(p.drop_last() =~= cmds.subrange(0, i));
        let before = render_pass(cmds.subrange(0, i), table, now_ms);
        assert(render_pass(p, table, now_ms) == render_step(before, p.last(), now_ms));
        lemma_step_keeps_starts(before, p.last(), now_ms);
        let mid = render_pass(p, table, now_ms).table;
        let last = render_pass(cmds, table, now_ms).table;
        assert forall|k: Seq<char>| #[trigger] before.table.contains_key(k) implies last.contains_key(k)
            && last[k].start_ms == before.table[k].start_ms by {
            assert(mid.contains_key(k));
        }
    }
}

/// How a second pass, started from the records `u` that the first pass
/// left, stands against the first after the same commands, `seen` being the
/// keys of the records updated so far.
pub open spec fn passes_agree(a: RenderState, b: RenderState, u: Map<Seq<char>, AnimationState>, seen: Set<Seq<char>>) -> bool {
    &&& b.ops == a.ops
    &&& b.clip == a.clip
    &&& b.char_index == a.char_index
    &&& b.table.dom() == u.dom()
    &&& forall|k: Seq<char>| #[trigger] u.contains_key(k) ==> b.table[k].start_ms == u[k].start_ms
    &&& forall|k: Seq<char>| #[trigger] seen.contains(k) ==> a.table.contains_key(k) && b.table[k] == a.table[k]
    &&& forall|k: Seq<char>| u.contains_key(k) && !seen.contains(k) ==> #[trigger] b.table[k] == u[k]
}

proof fn lemma_step_agrees(
    a: RenderState,
    b: RenderState,
    u: Map<Seq<char>, AnimationState>,
    seen: Set<Seq<char>>,
    cmd: RenderCommand,
    now_ms: u64,
)
    requires
        passes_agree(a, b, u, seen),
        starts_kept(render_step(a, cmd, now_ms).table, u),
    ensures
        passes_agree(
            render_step(a, cmd, now_ms),
            render_step(b, cmd, now_ms),
            u,
            match styled_key(cmd) {
                Some(k) => seen.insert(k),
                None => seen,
            },
        ),
{
    lemma_step_keeps_starts(a, cmd, now_ms);
    if let RenderCommandConfig::Text { text, config } = cmd.config {
        if let Ok(segments) = parse_markup(text@) {
            let k = text@;
            let ra = record_of(a.table, k, now_ms, a.char_index);
            let rb = record_of(b.table, k, now_ms, b.char_index);
            assert(render_step(a, cmd, now_ms).table == a.table.insert(k, ra));
            assert(u.contains_key(k) && u[k].start_ms == ra.start_ms);
            assert(b.table.contains_key(k));
            assert(rb == ra);
            let nb = b.table.insert(k, rb);
            assert(nb.dom() =~= u.dom());
        }
    }
}

proof fn lemma_render_twice_prefix(cmds: Seq<RenderCommand>, table: Map<Seq<char>, AnimationState>, now_ms: u64, n: int)
    requires
        0 <= n <= cmds.len(),
    ensures
        ({
            let u = render_pass(cmds, table, now_ms).table;
            passes_agree(
                render_pass(cmds.subrange(0, n), table, now_ms),
                render_pass(cmds.subrange(0, n), u, now_ms),
                u,
                styled_keys(cmds.subrange(0, n)),
            )
        }),
    decreases n,
{
    let u = render_pass(cmds, table, now_ms).table;
    if n == 0 {
        assert(cmds.subrange(0, 0) =~= Seq::<RenderCommand>::empty());
    } else {
        lemma_render_twice_prefix(cmds, table, now_ms, n - 1);
        let p = cmds.subrange(0, n);
        assert(p.drop_last() =~= cmds.subrange(0, n - 1));
        lemma_pass_keeps_starts(cmds, table, now_ms, n);
        lemma_step_agrees(
            render_pass(cmds.subrange(0, n - 1), table, now_ms),
            render_pass(cmds.subrange(0, n - 1), u, now_ms),
            u,
            styled_keys(cmds.subrange(0, n - 1)),
            p.last(),
            now_ms,
        );
    }
}

/// Drawing the same stream twice in a row, at the same time and with no clip
/// carried over from the first pass, gives the same ops both times, and the
/// second pass leaves the animation records as the first left them.
pub proof fn lemma_render_twice(cmds: Seq<RenderCommand>, table: Map<Seq<char>, AnimationState>, now_ms: u64)
    ensures
        ({
            let first = render_pass(cmds, table, now_ms);
            let second = render_pass(cmds, first.table, now_ms);
            second.ops == first.ops && second.table == first.table
        }),
{
    let first = render_pass(cmds, table, now_ms);
    let u = first.table;
    lemma_render_twice_prefix(cmds, table, now_ms, cmds.len() as int);
    assert(cmds.subrange(0, cmds.len() as int) =~= cmds);
    let second = render_pass(cmds, u, now_ms);
    let seen = styled_keys(cmds);
    assert forall|k: Seq<char>| #[trigger] u.contains_key(k) implies second.table[k] == u[k] by {
        if seen.contains(k) {
            assert(second.table[k] == first.table[k]);
        }
    }
    assert(second.table =~= u);
}

/// A text command whose markup does not parse is drawn as its literal text,
/// in its configured style, and leaves the animation records alone.
pub proof fn lemma_broken_markup_drawn_verbatim(cmd: RenderCommand, table: Map<Seq<char>, AnimationState>, now_ms: u64)
    requires
        cmd.config matches RenderCommandConfig::Text { text, .. } && parse_markup(text@) is Err,
    ensures
        ({
            let pass = render_pass(seq![cmd], table, now_ms);
            &&& pass.table == table
            &&& cmd.config matches RenderCommandConfig::Text { text, config } && pass.ops == seq![
                OpView::PlainText { bounds: cmd.bounding_box, config, text: text@ },
            ]
        }),
{
    let cmds = seq![cmd];
    assert(cmds.drop_last() =~= Seq::<RenderCommand>::empty());
    assert(cmds.last() == cmd);
    let start = render_pass(Seq::<RenderCommand>::empty(), table, now_ms);
    assert(render_pass(cmds, table, now_ms) == render_step(start, cmd, now_ms));
}

} // verus!
