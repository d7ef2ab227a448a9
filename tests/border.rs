use clay_render::border::{arc_points, border_ops, BorderWidths, PIXELS_PER_POINT};
use clay_render::color::Color;
use clay_render::draw::DrawOp;
use clay_render::geometry::{BoundingBox, CornerRadii};

fn bb(x: i32, y: i32, width: u32, height: u32) -> BoundingBox {
    BoundingBox { x, y, width, height }
}

fn radii(top_left: u32, top_right: u32, bottom_left: u32, bottom_right: u32) -> CornerRadii {
    CornerRadii { top_left, top_right, bottom_left, bottom_right }
}

fn widths(top: u16, left: u16, bottom: u16, right: u16) -> BorderWidths {
    BorderWidths { top, left, bottom, right }
}

fn rect(x: i64, y: i64, width: i64, height: i64, color: Color) -> DrawOp {
    DrawOp::FillRect { x, y, width, height, color }
}

#[test]
fn uniform_square_border_is_one_outline() {
    let c = Color::new(0, 0, 255, 255);
    let ops = border_ops(&bb(10, 10, 40, 30), &widths(3, 3, 3, 3), &radii(0, 0, 0, 0), c, PIXELS_PER_POINT);
    assert_eq!(
        ops,
        vec![DrawOp::OutlineRect { x: 10, y: 10, width: 40, height: 30, thickness: 3, color: c }]
    );
}

#[test]
fn uneven_square_border_is_four_outer_bands() {
    let c = Color::new(0, 0, 0, 255);
    let ops = border_ops(&bb(10, 20, 40, 30), &widths(1, 2, 3, 4), &radii(0, 0, 0, 0), c, PIXELS_PER_POINT);
    assert_eq!(
        ops,
        vec![
            rect(10, 19, 40, 1, c),
            rect(8, 20, 2, 30, c),
            rect(10, 50, 40, 3, c),
            rect(50, 20, 4, 30, c),
        ]
    );
}

#[test]
fn rounded_border_has_straight_bands_and_arcs() {
    let c = Color::new(9, 9, 9, 255);
    let ops = border_ops(&bb(0, 0, 100, 60), &widths(2, 4, 6, 8), &radii(10, 0, 0, 20), c, PIXELS_PER_POINT);
    assert_eq!(
        ops,
        vec![
            rect(10, -2, 90, 2, c),
            rect(-4, 10, 4, 50, c),
            rect(0, 60, 80, 6, c),
            rect(100, 0, 8, 40, c),
            DrawOp::Arc {
                cx: 10,
                cy: 10,
                radius: 10,
                start_degrees: 180,
                sweep_degrees: 90,
                thickness: 4,
                points: 10,
                color: c,
            },
            DrawOp::Arc {
                cx: 80,
                cy: 40,
                radius: 20,
                start_degrees: 0,
                sweep_degrees: 90,
                thickness: 8,
                points: 21,
                color: c,
            },
        ]
    );
}

#[test]
fn arc_points_floor_and_cap() {
    assert_eq!(arc_points(0, 0, 2), 5);
    assert_eq!(arc_points(3, 1, 2), 5);
    assert_eq!(arc_points(100, 4, 2), 81);
    assert_eq!(arc_points(100, 4, 1), 163);
    assert_eq!(arc_points(1000, 0, 2), 255);
}

#[test]
fn arc_points_grow_with_radius() {
    let mut last = 0;
    for r in 0..400u32 {
        let n = arc_points(r, 3, 2);
        assert!(n >= 5);
        assert!(n >= last);
        last = n;
    }
}
