use clay_render::animation::{AnimationState, AnimationTable};
use clay_render::border::BorderWidths;
use clay_render::color::Color;
use clay_render::draw::{ClipRect, DrawOp};
use clay_render::geometry::{BoundingBox, CornerRadii};
use clay_render::markup::StyledSegment;
use clay_render::render::{clay_macroquad_render, RenderCommand, RenderCommandConfig};
use clay_render::text::TextConfig;

fn bb(x: i32, y: i32, width: u32, height: u32) -> BoundingBox {
    BoundingBox { x, y, width, height }
}

fn radii(r: u32) -> CornerRadii {
    CornerRadii { top_left: r, top_right: r, bottom_left: r, bottom_right: r }
}

fn cmd(bounding_box: BoundingBox, config: RenderCommandConfig) -> RenderCommand {
    RenderCommand { bounding_box, config }
}

fn text_cmd(text: &str) -> RenderCommand {
    cmd(
        bb(0, 0, 50, 10),
        RenderCommandConfig::Text { text: text.to_string(), config: text_config() },
    )
}

fn text_config() -> TextConfig {
    TextConfig { font_id: 0, font_size: 12, letter_spacing: 0, color: Color::new(1, 1, 1, 255) }
}

fn seg(text: &str, styles: &[&str]) -> StyledSegment {
    StyledSegment { text: text.to_string(), styles: styles.iter().map(|s| s.to_string()).collect() }
}

#[test]
fn clip_is_tracked_and_replaced() {
    let tint = Color::new(0, 0, 0, 10);
    let cmds = vec![
        cmd(bb(1, 2, 3, 4), RenderCommandConfig::ScissorStart),
        cmd(bb(5, 6, 7, 8), RenderCommandConfig::ScissorStart),
        cmd(bb(0, 0, 10, 10), RenderCommandConfig::Rectangle { color: tint, corner_radii: radii(2) }),
        cmd(bb(0, 0, 0, 0), RenderCommandConfig::ScissorEnd),
        cmd(bb(0, 0, 10, 10), RenderCommandConfig::Rectangle { color: tint, corner_radii: radii(2) }),
        cmd(bb(0, 0, 0, 0), RenderCommandConfig::ScissorEnd),
    ];
    let mut table = AnimationTable::new();
    let ops = clay_macroquad_render(&cmds, &mut table, 0);
    let second = ClipRect { x: 5, y: 6, width: 7, height: 8 };
    assert_eq!(
        ops,
        vec![
            DrawOp::SetClip { clip: Some(ClipRect { x: 1, y: 2, width: 3, height: 4 }) },
            DrawOp::SetClip { clip: Some(second) },
            DrawOp::MaskedRect { bounds: bb(0, 0, 10, 10), radii: radii(2), color: tint, clip: Some(second) },
            DrawOp::SetClip { clip: None },
            DrawOp::MaskedRect { bounds: bb(0, 0, 10, 10), radii: radii(2), color: tint, clip: None },
            DrawOp::SetClip { clip: None },
        ]
    );
}

#[test]
fn custom_and_empty_commands() {
    let cmds = vec![
        cmd(bb(1, 1, 1, 1), RenderCommandConfig::Empty),
        cmd(bb(2, 2, 2, 2), RenderCommandConfig::Custom { payload: 77 }),
    ];
    let mut table = AnimationTable::new();
    let ops = clay_macroquad_render(&cmds, &mut table, 0);
    assert_eq!(ops, vec![DrawOp::Custom { bounds: bb(2, 2, 2, 2), payload: 77 }]);
}

#[test]
fn unterminated_markup_falls_back_to_the_literal_text() {
    let mut table = AnimationTable::new();
    let ops = clay_macroquad_render(&vec![text_cmd("{style")], &mut table, 0);
    assert_eq!(
        ops,
        vec![DrawOp::PlainText { bounds: bb(0, 0, 50, 10), config: text_config(), text: "{style".to_string() }]
    );
    assert_eq!(table.len(), 0);
}

#[test]
fn unclosed_style_falls_back_to_the_literal_text() {
    let mut table = AnimationTable::new();
    let ops = clay_macroquad_render(&vec![text_cmd("{style|text")], &mut table, 0);
    assert_eq!(
        ops,
        vec![DrawOp::PlainText { bounds: bb(0, 0, 50, 10), config: text_config(), text: "{style|text".to_string() }]
    );
    assert_eq!(table.len(), 0);
}

#[test]
fn unmatched_close_falls_back_to_the_literal_text() {
    let mut table = AnimationTable::new();
    let ops = clay_macroquad_render(&vec![text_cmd("text}")], &mut table, 0);
    assert_eq!(
        ops,
        vec![DrawOp::PlainText { bounds: bb(0, 0, 50, 10), config: text_config(), text: "text}".to_string() }]
    );
}

#[test]
fn animation_records_persist_across_frames() {
    let mut table = AnimationTable::new();
    let cmds = vec![text_cmd("a{wave|bc}"), text_cmd("{shake|xy}")];
    let first = clay_macroquad_render(&cmds, &mut table, 1000);
    assert_eq!(
        first,
        vec![
            DrawOp::StyledText {
                bounds: bb(0, 0, 50, 10),
                config: text_config(),
                segments: vec![seg("a", &[]), seg("bc", &["wave"])],
                elapsed_ms: 0,
                char_offset: 0,
            },
            DrawOp::StyledText {
                bounds: bb(0, 0, 50, 10),
                config: text_config(),
                segments: vec![seg("xy", &["shake"])],
                elapsed_ms: 0,
                char_offset: 3,
            },
        ]
    );
    assert_eq!(table.len(), 2);
    let later = clay_macroquad_render(&vec![text_cmd("{shake|xy}")], &mut table, 1500);
    assert_eq!(
        later,
        vec![DrawOp::StyledText {
            bounds: bb(0, 0, 50, 10),
            config: text_config(),
            segments: vec![seg("xy", &["shake"])],
            elapsed_ms: 500,
            char_offset: 0,
        }]
    );
    assert_eq!(
        table.get(&"{shake|xy}".to_string()),
        Some(AnimationState { start_ms: 1000, char_offset: 0 })
    );
    assert_eq!(table.get(&"nothing".to_string()), None);
}

#[test]
fn same_stream_twice_gives_same_ops() {
    let c = Color::new(5, 5, 5, 255);
    let cmds = vec![
        cmd(bb(0, 0, 100, 100), RenderCommandConfig::ScissorStart),
        cmd(bb(0, 0, 40, 40), RenderCommandConfig::Rectangle { color: c, corner_radii: radii(5) }),
        text_cmd("{wave|hi}"),
        cmd(
            bb(0, 0, 40, 40),
            RenderCommandConfig::Border {
                color: c,
                width: BorderWidths { top: 1, left: 1, bottom: 1, right: 1 },
                corner_radii: radii(0),
            },
        ),
        cmd(
            bb(0, 0, 40, 40),
            RenderCommandConfig::Image { image_id: 0, background_color: Color::new(0, 0, 0, 0), corner_radii: radii(3) },
        ),
    ];
    let mut table = AnimationTable::new();
    let first = clay_macroquad_render(&cmds, &mut table, 42);
    let second = clay_macroquad_render(&cmds, &mut table, 42);
    assert_eq!(first, second);
    assert_eq!(table.len(), 1);
    assert_eq!(first.len(), 12);
    assert!(matches!(first.last(), Some(DrawOp::MaskedImage { clip: Some(_), .. })));
}

#[test]
fn clock_going_back_gives_zero_elapsed() {
    let mut table = AnimationTable::new();
    let cmds = vec![text_cmd("{a|b}")];
    clay_macroquad_render(&cmds, &mut table, 100);
    let ops = clay_macroquad_render(&cmds, &mut table, 50);
    assert!(matches!(ops[0], DrawOp::StyledText { elapsed_ms: 0, .. }));
}
