use lake_frontend::error_handle::{clamp_span, LakeError, LakeErrors, SecondaryLabel};
use lake_frontend::span::SimpleSpan;

/// A span past the end of the text snaps to the end.
#[test]
fn clamp_span_past_eof_does_not_panic() {
    let src = "abc";
    let span = SimpleSpan::new(5, 47);
    let r = clamp_span(span, src);
    assert!(r.end <= src.len());
    assert!(r.start <= r.end);
}

/// A span that lands inside a multi-byte char snaps to a char boundary.
#[test]
fn clamp_span_snaps_to_char_boundary() {
    // `─` is 3 bytes (E2 94 80).  A span ending at byte 2 lands inside it.
    let src = "a─b"; // bytes: 61 E2 94 80 62
    assert_eq!(src.len(), 5);
    let span = SimpleSpan::new(0, 2); // mid-`─`
    let r = clamp_span(span, src);
    assert!(src.is_char_boundary(r.start));
    assert!(src.is_char_boundary(r.end));
}

/// Nothing is shown against a file that the error does not belong to.
#[test]
fn display_skips_unrelated_source() {
    let err = LakeError::new("oops", SimpleSpan::new(5000, 5010))
        .with_source_path("/tmp/file_b.lake");
    assert_eq!(err.display("short source", "/tmp/file_a.lake"), None);
}

#[test]
fn display_keeps_spans_that_fit() {
    let err = LakeError::with_label_msg("bad name", SimpleSpan::new(1, 3), "here")
        .code("E001")
        .secondary(SimpleSpan::new(0, 99), "first seen here")
        .note("names are unique")
        .help("rename it");
    let report = err.display("abcd", "a.lake").expect("shown");
    assert_eq!(report.file, "a.lake");
    assert_eq!(report.code.as_deref(), Some("E001"));
    assert_eq!(report.message, "bad name");
    assert_eq!(report.primary, SimpleSpan::new(1, 3));
    assert_eq!(report.label, "here");
    assert_eq!(
        report.secondary,
        vec![SecondaryLabel::new(SimpleSpan::new(0, 4), "first seen here")]
    );
    assert_eq!(report.notes, vec!["names are unique".to_string()]);
    assert_eq!(report.help.as_deref(), Some("rename it"));
}

#[test]
fn clamped_spans_are_exact() {
    assert_eq!(clamp_span(SimpleSpan::new(5, 47), "abc"), SimpleSpan::new(3, 3));
    assert_eq!(clamp_span(SimpleSpan::new(1, 2), "abc"), SimpleSpan::new(1, 2));
    let twice = clamp_span(clamp_span(SimpleSpan::new(0, 2), "a─b"), "a─b");
    assert_eq!(twice, clamp_span(SimpleSpan::new(0, 2), "a─b"));
}

#[test]
fn tagging_keeps_an_existing_path() {
    let mut bag = LakeErrors::new(vec![LakeError::new("one", SimpleSpan::new(0, 0))
        .with_source_path("own.lake")]);
    bag.push(LakeError::new("two", SimpleSpan::new(0, 0)));
    assert_eq!(bag.len(), 2);
    assert!(!bag.is_empty());
    let tagged = bag.tag_source_path("given.lake").into_vec();
    assert_eq!(tagged[0].source_path.as_deref(), Some("own.lake"));
    assert_eq!(tagged[1].source_path.as_deref(), Some("given.lake"));
}

#[test]
fn a_file_is_found_for_each_error() {
    let bag = LakeErrors::new(vec![
        LakeError::new("one", SimpleSpan::new(0, 0)).with_source_path("b.lake"),
        LakeError::new("two", SimpleSpan::new(0, 0)),
        LakeError::new("three", SimpleSpan::new(0, 0)).with_source_path("gone.lake"),
    ]);
    let files = vec![
        ("a.lake".to_string(), "a".to_string()),
        ("b.lake".to_string(), "b".to_string()),
    ];
    let reports = bag.display_multi(&files);
    let shown: Vec<(&str, &str)> = reports
        .iter()
        .map(|r| (r.message.as_str(), r.file.as_str()))
        .collect();
    assert_eq!(
        shown,
        vec![("one", "b.lake"), ("two", "a.lake"), ("three", "a.lake")]
    );
}

#[test]
fn without_files_only_untagged_errors_are_shown() {
    let bag = LakeErrors::new(vec![
        LakeError::new("one", SimpleSpan::new(3, 9)).with_source_path("b.lake"),
        LakeError::new("two", SimpleSpan::new(3, 9)),
    ]);
    let reports = bag.display_multi(&Vec::new());
    assert_eq!(reports.len(), 1);
    assert_eq!(reports[0].file, "<unknown>");
    assert_eq!(reports[0].primary, SimpleSpan::new(0, 0));
}
