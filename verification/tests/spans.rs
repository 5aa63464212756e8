use webf_check::position::line_col_from_index;
use webf_check::spans::find_style_object_spans;
use webf_check::strings::find_bytes;

#[test]
fn span_is_the_content_of_the_object() {
    let text = "<div style={{ color: 'red' }} />";
    let spans = find_style_object_spans(text);
    assert_eq!(spans, vec![(13, 27)]);
    assert_eq!(&text[13..27], " color: 'red' ");
}

#[test]
fn nested_braces_and_strings_are_skipped() {
    let text = "style={{ a: { b: '}' }, c: `}` , d: \"\\\"}\" }} style={{x:1}}";
    let spans = find_style_object_spans(text);
    assert_eq!(spans.len(), 2);
    assert_eq!(&text[spans[0].0..spans[0].1], " a: { b: '}' }, c: `}` , d: \"\\\"}\" ");
    assert_eq!(&text[spans[1].0..spans[1].1], "x:1");
}

#[test]
fn unclosed_object_gives_no_span() {
    assert_eq!(find_style_object_spans("style={{ a: 1 "), vec![]);
    assert_eq!(find_style_object_spans("style={{"), vec![]);
    assert_eq!(find_style_object_spans("no marker here"), vec![]);
}

#[test]
fn search_goes_on_behind_an_unclosed_marker() {
    let text = "style={{ a: '}' style={{ b: 1 }}";
    let spans = find_style_object_spans(text);
    assert_eq!(spans, vec![(24, 30)]);
}

#[test]
fn find_bytes_gives_the_first_occurrence() {
    assert_eq!(find_bytes(b"abcabc", b"bc", 0), Some(1));
    assert_eq!(find_bytes(b"abcabc", b"bc", 2), Some(4));
    assert_eq!(find_bytes(b"abcabc", b"bc", 5), None);
    assert_eq!(find_bytes(b"abc", b"abcd", 0), None);
    assert_eq!(find_bytes(b"abc", b"", 3), Some(3));
}

#[test]
fn line_and_column_count_from_one() {
    let text = "ab\ncd\n\nef";
    assert_eq!(line_col_from_index(text, 0), (1, 1));
    assert_eq!(line_col_from_index(text, 1), (1, 2));
    assert_eq!(line_col_from_index(text, 2), (1, 3));
    assert_eq!(line_col_from_index(text, 3), (2, 1));
    assert_eq!(line_col_from_index(text, 7), (4, 1));
    assert_eq!(line_col_from_index(text, 8), (4, 2));
}

#[test]
fn offset_at_or_behind_the_end_is_column_one() {
    let text = "ab\ncd";
    assert_eq!(line_col_from_index(text, 5), (2, 1));
    assert_eq!(line_col_from_index(text, 99), (2, 1));
    assert_eq!(line_col_from_index("", 0), (1, 1));
}

#[test]
fn unterminated_string_leaves_the_object_open() {
    assert_eq!(find_style_object_spans("style={{ a: 'x }} "), vec![]);
    assert_eq!(find_style_object_spans("style={{ a: 'x }} style={{b: 1}}"), vec![(26, 30)]);
    assert_eq!(find_style_object_spans("style={{ a: \\'x }} "), vec![(8, 16)]);
    assert_eq!(find_style_object_spans("style={{ a: \\} }} "), vec![(8, 15)]);
}
