use belong::inclusion::Include;
use belong::line_range::LineRange;

#[test]
fn line_range_from_str() {
    assert_eq!(LineRange::from_str(None).unwrap(), LineRange::RangeFull);
    assert_eq!(LineRange::from_str(Some("")).unwrap(), LineRange::RangeFull);
    assert_eq!(
        LineRange::from_str(Some("0")).unwrap(),
        LineRange::Range { start: 0, end: 1 }
    );
    assert_eq!(
        LineRange::from_str(Some("1")).unwrap(),
        LineRange::Range { start: 0, end: 1 }
    );
    assert_eq!(
        LineRange::from_str(Some("5")).unwrap(),
        LineRange::Range { start: 4, end: 5 }
    );
    assert_eq!(
        LineRange::from_str(Some("5:")).unwrap(),
        LineRange::RangeFrom { start: 4 }
    );
    assert_eq!(
        LineRange::from_str(Some(":5")).unwrap(),
        LineRange::RangeTo { end: 5 }
    );
    assert_eq!(
        LineRange::from_str(Some("5:10")).unwrap(),
        LineRange::Range { start: 4, end: 10 }
    );
}

#[test]
fn line_range_from_str_rejects_bad_numbers() {
    let err = LineRange::from_str(Some("x")).unwrap_err();
    assert_eq!(err.chain()[0], "failed to parse start line number");
    let err = LineRange::from_str(Some(":")).unwrap_err();
    assert_eq!(err.chain()[0], "failed to parse end line number");
    let err = LineRange::from_str(Some("5:x")).unwrap_err();
    assert_eq!(err.chain()[0], "failed to parse end line number");
    let err = LineRange::from_str(Some("5:10:20")).unwrap_err();
    assert_eq!(err.chain()[0], "failed to parse end line number");
}

#[test]
fn include_from_str() {
    assert_eq!(
        Include::from_str("listing.rs").unwrap(),
        Include {
            path: "listing.rs".to_string(),
            line_range: LineRange::RangeFull,
        }
    );
    assert_eq!(
        Include::from_str("listing.rs:").unwrap(),
        Include {
            path: "listing.rs".to_string(),
            line_range: LineRange::RangeFull,
        }
    );
    assert_eq!(
        Include::from_str("listing.rs:5:10").unwrap(),
        Include {
            path: "listing.rs".to_string(),
            line_range: LineRange::Range { start: 4, end: 10 },
        }
    );
}

#[test]
fn include_extract() {
    assert_eq!(
        Include::extract("line 1\nline 2\nline 3".into(), LineRange::RangeFull),
        "line 1\nline 2\nline 3",
    );
    assert_eq!(
        Include::extract(
            "line 1\nline 2\nline 3".into(),
            LineRange::Range { start: 0, end: 1 }
        ),
        "line 1",
    );
    assert_eq!(
        Include::extract(
            "line 1\nline 2\nline 3".into(),
            LineRange::RangeFrom { start: 2 }
        ),
        "line 3",
    );
    assert_eq!(
        Include::extract(
            "line 1\nline 2\nline 3".into(),
            LineRange::RangeFrom { start: 3 }
        ),
        "",
    );
    assert_eq!(
        Include::extract(
            "line 1\nline 2\nline 3".into(),
            LineRange::RangeTo { end: 0 }
        ),
        "",
    );
    assert_eq!(
        Include::extract(
            "line 1\nline 2\nline 3".into(),
            LineRange::RangeTo { end: 2 }
        ),
        "line 1\nline 2",
    );
}

#[test]
fn include_extract_lines_edges() {
    assert_eq!(
        Include::extract("a\r\nb\r\nc".into(), LineRange::RangeTo { end: 2 }),
        "a\nb",
    );
    assert_eq!(Include::extract("".into(), LineRange::RangeFull), "");
    assert_eq!(
        Include::extract("a\nb\n".into(), LineRange::RangeFull),
        "a\nb",
    );
    assert_eq!(
        Include::extract("a\nb".into(), LineRange::RangeTo { end: 99 }),
        "a\nb",
    );
}
