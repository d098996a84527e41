use getcat::body::line_index::LineIndex;
use getcat::body::pretty::CHECK_INTERVAL;
use getcat::body::text::{clip_line, trim_partial_utf8, TextDoc, MAX_LINE_CHARS};

#[test]
fn empty_input_has_no_lines() {
    let ix = LineIndex::build(b"");
    assert_eq!(ix.len(), 0);
    assert!(ix.is_empty());
}

#[test]
fn single_line_without_newline() {
    let ix = LineIndex::build(b"abc");
    assert_eq!(ix.len(), 1);
    assert_eq!(ix.span(0), 0..3);
}

#[test]
fn trailing_newline_does_not_add_a_line() {
    let ix = LineIndex::build(b"a\nb\n");
    assert_eq!(ix.len(), 2);
    assert_eq!(ix.span(0), 0..2);
    assert_eq!(ix.span(1), 2..4);
}

#[test]
fn crlf_spans_include_terminator() {
    let ix = LineIndex::build(b"a\r\nb");
    assert_eq!(ix.len(), 2);
    assert_eq!(ix.span(0), 0..3);
    assert_eq!(ix.span(1), 3..4);
}

#[test]
fn lone_newline_is_one_empty_line() {
    let ix = LineIndex::build(b"\n");
    assert_eq!(ix.len(), 1);
    assert_eq!(ix.span(0), 0..1);
}

#[test]
fn cancellation_checked_at_start_and_every_interval() {
    assert_eq!(LineIndex::build_cancellable(b"a\nb", || true), None);
    let big = vec![b'\n'; 2 * CHECK_INTERVAL + 1];
    let mut calls = 0;
    let out = LineIndex::build_cancellable(&big, || {
        calls += 1;
        calls > 2
    });
    assert_eq!(out, None);
    assert_eq!(calls, 3);
    assert_eq!(
        LineIndex::build_cancellable(&big, || false).unwrap().len(),
        2 * CHECK_INTERVAL + 1
    );
}

#[test]
fn spans_partition_the_text() {
    let text = b"one\n\ntwo\r\nthree";
    let ix = LineIndex::build(text);
    let mut next = 0;
    for i in 0..ix.len() {
        let span = ix.span(i);
        assert_eq!(span.start, next);
        next = span.end;
    }
    assert_eq!(next, text.len());
    assert!(ix.heap_bytes() >= 4 * 4);
    assert_eq!(ix.heap_bytes() % 4, 0);
    assert!((4..1000).contains(&LineIndex::build(b"a").heap_bytes()));
    assert_eq!(ix.clone(), ix);
}

#[test]
fn lines_are_trimmed_of_lf_and_crlf() {
    let doc = TextDoc::new("a\r\nbb\nccc".to_string());
    assert_eq!(doc.line_count(), 3);
    assert_eq!(doc.line(0), "a");
    assert_eq!(doc.line(1), "bb");
    assert_eq!(doc.line(2), "ccc");
    assert_eq!(doc.longest_line(), Some(2));
    assert_eq!(doc.len_bytes(), 9);
}

#[test]
fn empty_doc_has_no_lines() {
    let doc = TextDoc::new(String::new());
    assert_eq!(doc.line_count(), 0);
    assert_eq!(doc.longest_line(), None);
}

#[test]
fn from_bytes_keeps_valid_utf8_and_repairs_invalid() {
    assert_eq!(
        TextDoc::from_bytes(b"\xe5\x90\x8d\n".to_vec()).line(0),
        "名"
    );
    let doc = TextDoc::from_bytes(vec![b'a', 0xFF, b'b']);
    assert_eq!(doc.line(0), "a\u{FFFD}b");
}

#[test]
fn cancellation_propagates() {
    assert!(TextDoc::new_cancellable("x".to_string(), || true).is_none());
    assert!(TextDoc::from_bytes_cancellable(b"x".to_vec(), || true).is_none());
}

#[test]
fn of_equally_long_lines_the_last_is_longest() {
    let doc = TextDoc::new("ab\ncd\ne".to_string());
    assert_eq!(doc.longest_line(), Some(1));
    assert_eq!(doc.index().len(), 3);
    assert!(doc.heap_bytes() >= 7 + 3 * 4);
    assert!(doc.heap_bytes() < 7 + 1000);
    assert_eq!(doc.text(), "ab\ncd\ne");
}

#[test]
fn short_lines_are_not_clipped() {
    let line = "a".repeat(MAX_LINE_CHARS);
    let c = clip_line(&line);
    assert_eq!(c.text.len(), MAX_LINE_CHARS);
    assert_eq!(c.hidden_chars, 0);
}

#[test]
fn long_lines_are_clipped_on_char_boundaries() {
    let ascii = "a".repeat(MAX_LINE_CHARS + 1);
    let c = clip_line(&ascii);
    assert_eq!(c.text.len(), MAX_LINE_CHARS);
    assert_eq!(c.hidden_chars, 1);

    let wide = "中".repeat(2500);
    let c = clip_line(&wide);
    assert_eq!(c.text.chars().count(), MAX_LINE_CHARS);
    assert_eq!(c.text.len(), MAX_LINE_CHARS * 3);
    assert_eq!(c.hidden_chars, 500);
}

#[test]
fn cutting_a_text_anywhere_leaves_valid_utf8() {
    let full = "a名\u{1F600}é".as_bytes();
    for n in 0..=full.len() {
        let head = trim_partial_utf8(&full[..n]);
        assert!(std::str::from_utf8(head).is_ok(), "{n}");
        assert!(n - head.len() <= 3);
    }
    assert_eq!(trim_partial_utf8(b"abc"), b"abc");
    assert_eq!(trim_partial_utf8(&[b'a', 0x80]), &[b'a', 0x80]);
}

#[test]
fn a_callback_is_asked_where_it_is_due() {
    let count = |bytes: &[u8]| {
        let mut calls = 0;
        let out = LineIndex::build_cancellable(bytes, || {
            calls += 1;
            false
        });
        assert!(out.is_some());
        calls
    };
    assert_eq!(count(b""), 1);
    assert_eq!(count(&vec![b'x'; 3 * CHECK_INTERVAL]), 1);
    assert_eq!(count(&vec![b'\n'; CHECK_INTERVAL]), 1);
    assert_eq!(count(&vec![b'\n'; CHECK_INTERVAL + 1]), 2);
    let mut calls = 0;
    let doc = TextDoc::from_bytes_cancellable(Vec::new(), || {
        calls += 1;
        false
    });
    assert_eq!((doc.unwrap().text(), calls), ("", 1));
}
