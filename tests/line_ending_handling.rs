use kodegen_utils::line_endings::{
    analyze_line_endings, detect_line_ending, normalize_line_endings, LineEndingStyle,
};

#[test]
fn detects_first_line_ending() {
    assert_eq!(detect_line_ending("line1\nline2\n"), LineEndingStyle::Lf);
    assert_eq!(detect_line_ending("line1\r\nline2\r\n"), LineEndingStyle::Crlf);
    assert_eq!(detect_line_ending("line1\rline2\n"), LineEndingStyle::Cr);
    assert_eq!(detect_line_ending("\u{4e16}\nx\r\n"), LineEndingStyle::Lf);
}

#[test]
fn detects_platform_default_without_line_endings() {
    assert_eq!(detect_line_ending("no endings"), LineEndingStyle::platform_default());
}

#[test]
fn platform_default_matches_target() {
    let expected = if std::path::MAIN_SEPARATOR == '\\' { LineEndingStyle::Crlf } else { LineEndingStyle::Lf };
    assert_eq!(LineEndingStyle::platform_default(), expected);
}

#[test]
fn style_strings() {
    assert_eq!(LineEndingStyle::Lf.as_str(), "\n");
    assert_eq!(LineEndingStyle::Crlf.as_str(), "\r\n");
    assert_eq!(LineEndingStyle::Cr.as_str(), "\r");
}

#[test]
fn normalizes_mixed_endings() {
    let mixed = "line1\r\nline2\rline3\n";
    assert_eq!(normalize_line_endings(mixed, LineEndingStyle::Lf), "line1\nline2\nline3\n");
    assert_eq!(
        normalize_line_endings(mixed, LineEndingStyle::Crlf),
        "line1\r\nline2\r\nline3\r\n"
    );
    assert_eq!(normalize_line_endings(mixed, LineEndingStyle::Cr), "line1\rline2\rline3\r");
    assert_eq!(normalize_line_endings("\r\r\n", LineEndingStyle::Lf), "\n\n");
    assert_eq!(normalize_line_endings("", LineEndingStyle::Crlf), "");
}

#[test]
fn analyzes_line_ending_counts() {
    let a = analyze_line_endings("a\r\nb\nc\r\nd\re");
    assert_eq!((a.crlf_count, a.lf_count, a.cr_count, a.total_count), (2, 1, 1, 4));
    assert_eq!(a.style, LineEndingStyle::Crlf);
    assert!(a.has_mixed);
    let b = analyze_line_endings("x\ny\n");
    assert_eq!(b.style, LineEndingStyle::Lf);
    assert!(!b.has_mixed);
    let c = analyze_line_endings("");
    assert_eq!((c.total_count, c.style, c.has_mixed), (0, LineEndingStyle::Crlf, false));
    let d = analyze_line_endings("a\rb\rc\n");
    assert_eq!(d.style, LineEndingStyle::Cr);
}
