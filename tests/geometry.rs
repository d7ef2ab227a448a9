use clay_render::color::{image_tint, masked_alpha, Color};
use clay_render::draw::{ClipRect, DrawOp};
use clay_render::geometry::{
    apply_mask, corner_mask, image_ops, rectangle_ops, BoundingBox, CornerRadii,
};

fn bb(x: i32, y: i32, width: u32, height: u32) -> BoundingBox {
    BoundingBox { x, y, width, height }
}

fn radii(top_left: u32, top_right: u32, bottom_left: u32, bottom_right: u32) -> CornerRadii {
    CornerRadii { top_left, top_right, bottom_left, bottom_right }
}

fn rect(x: i64, y: i64, width: i64, height: i64, color: Color) -> DrawOp {
    DrawOp::FillRect { x, y, width, height, color }
}

fn disk(cx: i64, cy: i64, radius: i64, color: Color) -> DrawOp {
    DrawOp::FillDisk { cx, cy, radius, color }
}

#[test]
fn square_corners_fill_one_rectangle() {
    let red = Color::new(255, 0, 0, 128);
    let ops = rectangle_ops(&bb(3, 4, 10, 20), &radii(0, 0, 0, 0), red, None);
    assert_eq!(ops, vec![rect(3, 4, 10, 20, red)]);
}

#[test]
fn opaque_rounded_fill_is_bands_and_disks() {
    let c = Color::new(10, 20, 30, 255);
    let ops = rectangle_ops(&bb(10, 20, 100, 50), &radii(5, 10, 0, 0), c, None);
    assert_eq!(
        ops,
        vec![
            rect(15, 20, 85, 50, c),
            rect(10, 25, 90, 45, c),
            rect(15, 30, 95, 40, c),
            disk(15, 25, 5, c),
            disk(100, 30, 10, c),
        ]
    );
}

#[test]
fn opaque_fill_with_all_corners_rounded() {
    let c = Color::new(0, 0, 0, 255);
    let ops = rectangle_ops(&bb(0, 0, 8, 6), &radii(1, 2, 3, 1), c, None);
    assert_eq!(
        ops,
        vec![
            rect(1, 0, 5, 3, c),
            rect(0, 1, 6, 2, c),
            rect(3, 2, 4, 4, c),
            rect(3, 2, 5, 3, c),
            disk(1, 1, 1, c),
            disk(6, 2, 2, c),
            disk(3, 3, 3, c),
            disk(7, 5, 1, c),
        ]
    );
}

#[test]
fn translucent_rounded_fill_goes_through_mask() {
    let c = Color::new(1, 2, 3, 100);
    let clip = Some(ClipRect { x: 0, y: 0, width: 50, height: 50 });
    let ops = rectangle_ops(&bb(1, 2, 30, 40), &radii(4, 4, 4, 4), c, clip);
    assert_eq!(
        ops,
        vec![DrawOp::MaskedRect { bounds: bb(1, 2, 30, 40), radii: radii(4, 4, 4, 4), color: c, clip }]
    );
}

#[test]
fn corner_mask_is_drawn_white_at_origin() {
    let white = Color::new(255, 255, 255, 255);
    let ops = corner_mask(&bb(100, 200, 20, 10), &radii(0, 0, 0, 5));
    assert_eq!(
        ops,
        vec![
            rect(0, 0, 15, 10, white),
            rect(0, 0, 20, 5, white),
            disk(15, 5, 5, white),
        ]
    );
}

#[test]
fn transparent_black_tint_means_white() {
    assert_eq!(image_tint(Color::new(0, 0, 0, 0)), Color::new(255, 255, 255, 255));
    assert_eq!(image_tint(Color::new(0, 0, 0, 1)), Color::new(0, 0, 0, 1));
    assert_eq!(image_tint(Color::new(9, 8, 7, 0)), Color::new(9, 8, 7, 0));
}

#[test]
fn image_with_square_corners_is_drawn_directly() {
    let ops = image_ops(&bb(5, 6, 7, 8), &radii(0, 0, 0, 0), 3, Color::new(0, 0, 0, 0), None);
    assert_eq!(
        ops,
        vec![DrawOp::Image { bounds: bb(5, 6, 7, 8), image_id: 3, tint: Color::new(255, 255, 255, 255) }]
    );
}

#[test]
fn image_with_rounded_corners_is_masked() {
    let tint = Color::new(10, 10, 10, 200);
    let ops = image_ops(&bb(5, 6, 70, 80), &radii(2, 0, 0, 0), 1, tint, None);
    assert_eq!(
        ops,
        vec![DrawOp::MaskedImage {
            bounds: bb(5, 6, 70, 80),
            radii: radii(2, 0, 0, 0),
            image_id: 1,
            tint,
            clip: None
        }]
    );
}

#[test]
fn masked_alpha_values() {
    assert_eq!(masked_alpha(255, 255), 255);
    assert_eq!(masked_alpha(128, 255), 128);
    assert_eq!(masked_alpha(255, 0), 0);
    assert_eq!(masked_alpha(100, 100), 39);
    assert_eq!(masked_alpha(200, 128), 100);
}

#[test]
fn mask_multiplies_alpha_only() {
    let mut content = vec![1, 2, 3, 200, 4, 5, 6, 255, 7, 8];
    let mask = vec![0, 0, 0, 255, 9, 9, 9, 0, 0, 0];
    apply_mask(&mut content, &mask);
    assert_eq!(content, vec![1, 2, 3, 200, 4, 5, 6, 0, 7, 8]);
}
