use clay_render::markup::{parse_styled_text, MarkupError, StyledSegment};

fn seg(text: &str, styles: &[&str]) -> StyledSegment {
    StyledSegment {
        text: text.to_string(),
        styles: styles.iter().map(|s| s.to_string()).collect(),
    }
}

#[test]
fn styled_run_splits_into_segments() {
    let r = parse_styled_text("a{style|b}c").unwrap();
    assert_eq!(r, vec![seg("a", &[]), seg("b", &["style"]), seg("c", &[])]);
}

#[test]
fn escaped_brace_is_literal() {
    let r = parse_styled_text("a\\{b").unwrap();
    assert_eq!(r, vec![seg("a{b", &[])]);
}

#[test]
fn unclosed_style_fails() {
    assert_eq!(parse_styled_text("{style|text"), Err(MarkupError::UnclosedStyle));
    assert_eq!(parse_styled_text("{a|x{b|y}"), Err(MarkupError::UnclosedStyle));
}

#[test]
fn unterminated_style_name_fails() {
    assert_eq!(parse_styled_text("{style"), Err(MarkupError::UnterminatedStyle));
    assert_eq!(parse_styled_text("ab{st"), Err(MarkupError::UnterminatedStyle));
}

#[test]
fn unmatched_close_fails() {
    assert_eq!(parse_styled_text("text}"), Err(MarkupError::UnmatchedClose));
    assert_eq!(parse_styled_text("{a|x}}"), Err(MarkupError::UnmatchedClose));
}

#[test]
fn nested_styles_stack() {
    let r = parse_styled_text("{a|x{b|y}z}").unwrap();
    assert_eq!(r, vec![seg("x", &["a"]), seg("y", &["a", "b"]), seg("z", &["a"])]);
}

#[test]
fn escapes_inside_style_names() {
    let r = parse_styled_text("{a\\|b|c}").unwrap();
    assert_eq!(r, vec![seg("c", &["a|b"])]);
}

#[test]
fn plain_pipe_and_trailing_backslash() {
    assert_eq!(parse_styled_text("a|b").unwrap(), vec![seg("a|b", &[])]);
    assert_eq!(parse_styled_text("ab\\").unwrap(), vec![seg("ab", &[])]);
}

#[test]
fn empty_run_has_no_segments() {
    assert_eq!(parse_styled_text("").unwrap(), vec![]);
    assert_eq!(parse_styled_text("{a|}").unwrap(), vec![]);
}

#[test]
fn non_ascii_text_is_kept() {
    let r = parse_styled_text("é{wave|ü}").unwrap();
    assert_eq!(r, vec![seg("é", &[]), seg("ü", &["wave"])]);
}
