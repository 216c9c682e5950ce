use sooth::logs::{latest_invocation, normalize_newlines, plan_log_rows, timestamp, timestamp_text, LogRow};

#[test]
fn leaves_text_without_carriage_returns_alone() {
    assert_eq!(normalize_newlines(""), "");
    assert_eq!(normalize_newlines("plain line"), "plain line");
    assert_eq!(normalize_newlines("two\nlines\n"), "two\nlines\n");
    assert_eq!(normalize_newlines("ünïcödé ✓"), "ünïcödé ✓");
}

#[test]
fn lone_carriage_return_becomes_a_newline() {
    assert_eq!(
        normalize_newlines("progress 10%\rprogress 100%"),
        "progress 10%\nprogress 100%"
    );
    assert_eq!(normalize_newlines("\rleading"), "\nleading");
    assert_eq!(normalize_newlines("trailing\r"), "trailing\n");
}

#[test]
fn crlf_becomes_a_single_newline() {
    assert_eq!(normalize_newlines("a\r\nb"), "a\nb");
    assert_eq!(normalize_newlines("a\r\nb\r\n"), "a\nb\n");
}

#[test]
fn runs_of_carriage_returns_match_html_parsing() {
    // The HTML parser reads `\r\r\n` as CR + CRLF: two line breaks.
    assert_eq!(normalize_newlines("a\r\r\nb"), "a\n\nb");
    assert_eq!(normalize_newlines("a\r\rb"), "a\n\nb");
    assert_eq!(normalize_newlines("a\n\rb"), "a\n\nb");
}

#[test]
fn mixed_endings_in_one_message() {
    assert_eq!(
        normalize_newlines("1%\r50%\r100%\r\ndone\nok"),
        "1%\n50%\n100%\ndone\nok"
    );
}

#[test]
fn output_never_contains_a_carriage_return() {
    for input in ["\r", "\r\r", "\r\n\r", "x\r\r\r\ny\rz", "\n\r\n\r"] {
        assert!(!normalize_newlines(input).contains('\r'), "{input:?}");
    }
}

fn invs(v: &[Option<&str>]) -> Vec<Option<String>> {
    v.iter().map(|o| o.map(str::to_owned)).collect()
}

#[test]
fn latest_run_is_the_last_line_carrying_an_id() {
    let v = invs(&[Some("a"), Some("b"), None]);
    assert_eq!(latest_invocation(&v), Some(1));
    assert_eq!(latest_invocation(&invs(&[None, None])), None);
    assert_eq!(latest_invocation(&[]), None);
}

#[test]
fn rows_mark_old_runs_and_insert_dividers() {
    let v = invs(&[Some("a"), None, Some("b"), Some("b")]);
    let rows = plan_log_rows(&v);
    assert_eq!(
        rows,
        vec![
            LogRow::Line { line: 0, old: true },
            LogRow::Line { line: 1, old: true },
            LogRow::Divider { line: 2, old: false },
            LogRow::Line { line: 2, old: false },
            LogRow::Line { line: 3, old: false },
        ]
    );
}

#[test]
fn lines_without_any_run_are_never_old() {
    let v = invs(&[None, None]);
    assert_eq!(
        plan_log_rows(&v),
        vec![
            LogRow::Line { line: 0, old: false },
            LogRow::Line { line: 1, old: false },
        ]
    );
    assert!(plan_log_rows(&[]).is_empty());
}

#[test]
fn returning_to_an_earlier_run_starts_a_new_divider() {
    let v = invs(&[Some("a"), Some("b"), Some("a")]);
    assert_eq!(
        plan_log_rows(&v),
        vec![
            LogRow::Line { line: 0, old: false },
            LogRow::Divider { line: 1, old: true },
            LogRow::Line { line: 1, old: true },
            LogRow::Divider { line: 2, old: false },
            LogRow::Line { line: 2, old: false },
        ]
    );
}

#[test]
fn timestamps_are_rfc3339_in_utc() {
    assert_eq!(timestamp(0), "1970-01-01T00:00:00Z");
    assert_eq!(timestamp(1_500_000), "1970-01-01T00:00:01.5Z");
    assert_eq!(timestamp(1_790_000_000_000_000), "2026-09-21T14:13:20Z");
}

#[test]
fn an_unformattable_timestamp_shows_nothing() {
    assert_eq!(timestamp(i64::MAX), "");
    assert_eq!(timestamp_text(None), "");
    assert_eq!(timestamp_text(Some("x".to_string())), "x");
}
