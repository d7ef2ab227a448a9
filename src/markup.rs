//! The inline style markup of text runs: `{name|...}` applies style `name`
//! to the text up to the matching `}`, styles nest, and a backslash makes the
//! next character literal.
use vstd::prelude::*;

verus! {

/// A run of text with the styles active over it, outermost first.
#[derive(Clone, Debug, PartialEq)]
pub struct StyledSegment {
    pub text: String,
    pub styles: Vec<String>,
}

/// Why a run's markup could not be parsed; the run is then drawn verbatim.
#[derive(Clone, Copy, Debug, PartialEq, Eq, Structural)]
pub enum MarkupError {
    /// The input ended inside a style name (after `{`, before `|`).
    UnterminatedStyle,
    /// A `}` came with no style open.
    UnmatchedClose,
    /// The input ended with a style still open: a `{` never closed by `}`.
    UnclosedStyle,
}

/// A segment as values: its text and its styles.
pub struct SegmentView {
    pub text: Seq<char>,
    pub styles: Seq<Seq<char>>,
}

pub open spec fn strings_view(v: Seq<String>) -> Seq<Seq<char>> {
    v.map_values(|s: String| s@)
}

impl View for StyledSegment {
    type V = SegmentView;

    open spec fn view(&self) -> SegmentView {
        SegmentView { text: self.text@, styles: strings_view(self.styles@) }
    }
}

pub open spec fn segments_view(v: Seq<StyledSegment>) -> Seq<SegmentView> {
    v.map_values(|s: StyledSegment| s@)
}

/// Where a left-to-right scan of a run stands.
pub struct ScanState {
    /// Inside a style name, between `{` and `|`.
    pub in_tag: bool,
    /// The previous character was an unescaped backslash.
    pub escaped: bool,
    /// Plain text read since the last segment was emitted.
    pub text: Seq<char>,
    /// The style name being read.
    pub style: Seq<char>,
    /// The open styles, outermost first.
    pub stack: Seq<Seq<char>>,
    /// The segments emitted so far.
    pub segments: Seq<SegmentView>,
}

pub open spec fn initial_scan() -> ScanState {
    ScanState {
        in_tag: false,
        escaped: false,
        text: seq![],
        style: seq![],
        stack: seq![],
        segments: seq![],
    }
}

/// Emits the buffered text, if any, as a segment under the open styles.
pub open spec fn flush(st: ScanState) -> ScanState {
    if st.text.len() > 0 {
        ScanState {
            text: seq![],
            segments: st.segments.push(SegmentView { text: st.text, styles: st.stack }),
            ..st
        }
    } else {
        st
    }
}

/// Adds `c` to whichever buffer is being read.
pub open spec fn take_literal(st: ScanState, c: char) -> ScanState {
    if st.in_tag {
        ScanState { style: st.style.push(c), ..st }
    } else {
        ScanState { text: st.text.push(c), ..st }
    }
}

/// One character of the scan; `None` where a `}` closes no style.
pub open spec fn scan_step(st: ScanState, c: char) -> Option<ScanState> {
    if st.escaped {
        Some(ScanState { escaped: false, ..take_literal(st, c) })
    } else if c == '\\' {
        Some(ScanState { escaped: true, ..st })
    } else if c == '{' && !st.in_tag {
        Some(ScanState { in_tag: true, style: seq![], ..flush(st) })
    } else if c == '|' && st.in_tag {
        Some(ScanState { in_tag: false, stack: st.stack.push(st.style), style: seq![], ..st })
    } else if c == '}' && !st.in_tag {
        let f = flush(st);
        if f.stack.len() == 0 {
            None
        } else {
            Some(ScanState { stack: f.stack.drop_last(), ..f })
        }
    } else {
        Some(take_literal(st, c))
    }
}

/// The scan after reading all of `s`, or `None` once it has failed.
pub open spec fn scan(s: Seq<char>) -> Option<ScanState>
    decreases s.len(),
{
    if s.len() == 0 {
        Some(initial_scan())
    } else {
        match scan(s.drop_last()) {
            Some(st) => scan_step(st, s.last()),
            None => None,
        }
    }
}

/// The segments of a run, in order, or why it has none.
pub open spec fn parse_markup(s: Seq<char>) -> Result<Seq<SegmentView>, MarkupError> {
    match scan(s) {
        None => Err(MarkupError::UnmatchedClose),
        Some(st) => if st.in_tag {
            Err(MarkupError::UnterminatedStyle)
        } else if st.stack.len() > 0 {
            Err(MarkupError::UnclosedStyle)
        } else {
            Ok(flush(st).segments)
        },
    }
}

pub open spec fn parse_result_view(r: Result<Vec<StyledSegment>, MarkupError>) -> Result<Seq<SegmentView>, MarkupError> {
    match r {
        Ok(v) => Ok(segments_view(v@)),
        Err(e) => Err(e),
    }
}

/// Relies on `String::push`: appends one character.
#[verifier::external_body]
fn push_char(s: &mut String, c: char)
    ensures
        final(s)@ == old(s)@.push(c),
{
    s.push(c)
}

proof fn lemma_scan_failure_persists(s: Seq<char>, i: int)
    requires
        0 <= i <= s.len(),
        scan(s.subrange(0, i)) is None,
    ensures
        scan(s) is None,
    decreases s.len() - i,
{
    if i < s.len() {
        assert(s.subrange(0, i + 1).drop_last() =~= s.subrange(0, i));
        lemma_scan_failure_persists(s, i + 1);
    } else {
        assert(s.subrange(0, i) =~= s);
    }
}

fn copy_strings(v: &Vec<String>) -> (r: Vec<String>)
    ensures
        strings_view(r@) == strings_view(v@),
{
    let mut r: Vec<String> = Vec::new();
    let mut i: usize = 0;
    while i < v.len()
        invariant
            i <= v.len(),
            r.len() == i,
            forall|j: int| 0 <= j < i ==> #[trigger] r@[j]@ == v@[j]@,
        decreases v.len() - i,
    {
        let s = v[i].clone();
        r.push(s);
        i = i + 1;
    }
    assert(strings_view(r@) =~= strings_view(v@));
    r
}

/// Emits the buffered text, if any, as a segment under the open styles.
fn flush_text(text: &mut String, stack: &Vec<String>, segments: &mut Vec<StyledSegment>)
    ensures
        ({
            let before = ScanState {
                in_tag: false,
                escaped: false,
                text: old(text)@,
                style: seq![],
                stack: strings_view(stack@),
                segments: segments_view(old(segments)@),
            };
            let after = flush(before);
            final(text)@ == after.text && segments_view(final(segments)@) == after.segments
        }),
{
    if !text.as_str().is_empty() {
        let ghost old_segments = segments@;
        let done = text.clone();
        *text = String::new();
        segments.push(StyledSegment { text: done, styles: copy_strings(stack) });
        assert(segments_view(segments@) =~= segments_view(old_segments).push(
            SegmentView { text: done@, styles: strings_view(stack@) },
        ));
    }
}

/// Parses the markup of one text run into its segments, in order; plain
/// runs between tags become segments carrying every style open over them.
/// Every style opened must be closed before the run ends.
pub fn parse_styled_text(text: &str) -> (r: Result<Vec<StyledSegment>, MarkupError>)
    ensures
        parse_result_view(r) == parse_markup(text@),
{
    let n = text.unicode_len();
    let mut in_tag = false;
    let mut escaped = false;
    let mut buf = String::new();
    let mut style = String::new();
    let mut stack: Vec<String> = Vec::new();
    let mut segments: Vec<StyledSegment> = Vec::new();
    let mut i: usize = 0;
    assert(text@.subrange(0, 0) =~= Seq::<char>::empty());
    assert(strings_view(stack@) =~= Seq::<Seq<char>>::empty());
    assert(segments_view(segments@) =~= Seq::<SegmentView>::empty());
    while i < n
        invariant
            n == text@.len(),
            i <= n,
            scan(text@.subrange(0, i as int)) == Some(
                ScanState {
                    in_tag,
                    escaped,
                    text: buf@,
                    style: style@,
                    stack: strings_view(stack@),
                    segments: segments_view(segments@),
                },
            ),
            in_tag ==> buf@.len() == 0,
        decreases n - i,
    {
        let ghost st = ScanState {
            in_tag,
            escaped,
            text: buf@,
            style: style@,
            stack: strings_view(stack@),
            segments: segments_view(segments@),
        };
        let c = text.get_char(i);
        assert(text@.subrange(0, i + 1).drop_last() =~= text@.subrange(0, i as int));
        if escaped {
            if in_tag {
                push_char(&mut style, c);
            } else {
                push_char(&mut buf, c);
            }
            escaped = false;
        } else if c == '\\' {
            escaped = true;
        } else if c == '{' && !in_tag {
            flush_text(&mut buf, &stack, &mut segments);
            in_tag = true;
            style = String::new();
        } else if c == '|' && in_tag {
            let name = style.clone();
            stack.push(name);
            style = String::new();
            in_tag = false;
            assert(strings_view(stack@) =~= st.stack.push(st.style));
        } else if c == '}' && !in_tag {
            flush_text(&mut buf, &stack, &mut segments);
            if stack.len() == 0 {
                proof {
                    lemma_scan_failure_persists(text@, i + 1);
                }
                return Err(MarkupError::UnmatchedClose);
            }
            let ghost before = stack@;
            stack.pop();
            assert(strings_view(stack@) =~= strings_view(before).drop_last());
        } else if in_tag {
            push_char(&mut style, c);
        } else {
            push_char(&mut buf, c);
        }
        i = i + 1;
    }
    assert(text@.subrange(0, n as int) =~= text@);
    if in_tag {
        return Err(MarkupError::UnterminatedStyle);
    }
    if stack.len() > 0 {
        return Err(MarkupError::UnclosedStyle);
    }
    flush_text(&mut buf, &stack, &mut segments);
    Ok(segments)
}

} // verus!
