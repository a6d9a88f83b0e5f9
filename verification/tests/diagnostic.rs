use ka::diagnostic::{Diagnostic, Emitter, File, FileId, Files, Severity, Span};

#[test]
fn files_are_numbered_in_order() {
    let mut files = Files::new();
    let a = files.add(File { name: "std:main".to_string(), path: "std/main.ka".to_string() });
    let b = files.add(File { name: "app:main".to_string(), path: "app/main.ka".to_string() });
    assert_eq!(a, FileId { index: 0 });
    assert_eq!(b, FileId { index: 1 });
    assert_eq!(files.get(a).unwrap().name, "std:main");
    assert_eq!(files.get(b).unwrap().path, "app/main.ka");
    assert!(files.get(FileId { index: 2 }).is_none());
}

#[test]
fn diagnostic_builder() {
    let file = FileId { index: 0 };
    let d = Diagnostic::error("oops")
        .with_label(Span::new(file, 1, 3), "here")
        .with_span(Span::new(file, 4, 5));
    assert_eq!(d.severity(), Severity::Error);
    assert_eq!(d.message(), "oops");
    assert_eq!(d.labels().len(), 2);
    assert_eq!(d.labels()[0].message(), "here");
    assert_eq!(d.labels()[0].span(), Span::new(file, 1, 3));
    assert_eq!(d.labels()[1].message(), "");
    assert_eq!(d.labels()[1].span(), Span::new(file, 4, 5));
    assert_eq!(Diagnostic::new(Severity::Error, "x").labels().len(), 0);
}

#[test]
fn severity_text() {
    assert_eq!(Severity::Error.to_string(), "error");
}

#[test]
fn emitting_into_a_vec_keeps_order() {
    let mut sink: Vec<Diagnostic> = Vec::new();
    sink.emit(Diagnostic::error("first"));
    sink.emit(Diagnostic::error("second"));
    assert_eq!(sink.len(), 2);
    assert_eq!(sink[0].message(), "first");
    assert_eq!(sink[1].message(), "second");
}

#[test]
fn span_join_covers_both() {
    let file = FileId { index: 3 };
    let a = Span::new(file, 4, 9);
    let b = Span::new(file, 2, 6);
    assert_eq!(a.join(b), Span::new(file, 2, 9));
    assert_eq!(b.join(a), Span::new(file, 2, 9));
}

fn location(source: &str, start: u32, end: u32) -> (usize, usize, usize, usize, usize) {
    let l = ka::diagnostic::label_location(source, Span::new(FileId { index: 0 }, start, end));
    (l.line, l.column, l.line_start, l.line_end, l.highlight)
}

#[test]
fn label_on_second_line() {
    let source = "let x = 1\nlet y = 2\n";
    assert_eq!(location(source, 14, 15), (2, 5, 10, 19, 1));
    assert_eq!(&source[10..19], "let y = 2");
}

#[test]
fn label_on_first_character() {
    assert_eq!(location("abc", 0, 3), (1, 1, 0, 3, 3));
}

#[test]
fn label_starting_on_a_newline_shows_the_next_line() {
    let source = "let x = 1\nlet y = 2\n";
    assert_eq!(location(source, 9, 10), (2, 1, 10, 19, 1));
}

#[test]
fn label_at_end_of_source() {
    assert_eq!(location("ab", 2, 2), (2, 1, 2, 2, 0));
    assert_eq!(location("a\nb\n", 4, 4), (4, 1, 4, 4, 0));
    assert_eq!(location("", 0, 0), (2, 1, 0, 0, 0));
}

#[test]
fn label_columns_count_characters() {
    let source = "\u{e9} x";
    assert_eq!(location(source, 3, 4), (1, 3, 0, 4, 1));
}

#[test]
fn label_highlight_stops_at_line_end() {
    assert_eq!(location("abc\ndef", 1, 6), (1, 2, 0, 3, 2));
}
