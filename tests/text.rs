use clay_render::color::Color;
use clay_render::text::{create_measure_text_function, segment_positions, TextConfig};

fn config(font_id: u16, letter_spacing: u16) -> TextConfig {
    TextConfig { font_id, font_size: 16, letter_spacing, color: Color::new(0, 0, 0, 255) }
}

#[test]
fn measuring_strips_markup() {
    let m = create_measure_text_function(2);
    assert_eq!(m.font_count, 2);
    let q = m.request("a{b|c}", &config(1, 3)).unwrap();
    assert_eq!(q.text, "ac");
    assert_eq!(q.font_id, 1);
    assert_eq!(q.font_size, 16);
    assert_eq!(q.letter_gaps, 5);
    assert_eq!(q.letter_spacing, 3);
}

#[test]
fn measuring_broken_markup_measures_it_verbatim() {
    let m = create_measure_text_function(1);
    let q = m.request("x}", &config(0, 0)).unwrap();
    assert_eq!(q.text, "x}");
    assert_eq!(q.letter_gaps, 1);
}

#[test]
fn measuring_empty_text_has_no_gaps() {
    let m = create_measure_text_function(1);
    let q = m.request("", &config(0, 5)).unwrap();
    assert_eq!(q.text, "");
    assert_eq!(q.letter_gaps, 0);
}

#[test]
fn measuring_with_unknown_font_fails() {
    let m = create_measure_text_function(2);
    assert!(m.request("abc", &config(2, 0)).is_none());
    assert!(create_measure_text_function(0).request("", &config(0, 0)).is_none());
}

#[test]
fn segments_are_laid_side_by_side() {
    assert_eq!(segment_positions(10, &vec![5, 7, 3]), vec![10, 15, 22]);
    assert_eq!(segment_positions(-4, &vec![]), Vec::<i64>::new());
}
