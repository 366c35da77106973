use kodegen_utils::char_analysis::{
    compare_distribution, count_chars, format_char_display, format_char_name, inline_codes,
    CharCodeData, EncodingIssue, WhitespaceIssue,
};

#[test]
fn tally_is_sorted_with_counts() {
    assert_eq!(count_chars("banana"), vec![(97, 3), (98, 1), (110, 2)]);
    assert_eq!(count_chars(""), Vec::<(u32, usize)>::new());
    assert_eq!(count_chars("\u{4e16}a\u{4e16}"), vec![(97, 1), (0x4e16, 2)]);
}

#[test]
fn char_names_and_displays() {
    assert_eq!(format_char_name(9), "TAB");
    assert_eq!(format_char_name(0xFEFF), "BOM");
    assert_eq!(format_char_name(65), "?");
    assert_eq!(format_char_display(65), "A");
    assert_eq!(format_char_display(9), "\\x09");
    assert_eq!(format_char_display(0x200B), "\\x200b");
    assert_eq!(format_char_display(127), "\\x7f");
}

#[test]
fn inline_codes_lists_decimal_codes() {
    assert_eq!(inline_codes(""), "empty");
    assert_eq!(inline_codes("a\t"), "97,9");
}

#[test]
fn distribution_splits_codes() {
    let d = compare_distribution("aab", "bcc");
    assert_eq!(d.only_in_expected, vec![(97, 2)]);
    assert_eq!(d.only_in_actual, vec![(99, 2)]);
    assert_eq!(d.in_both, vec![(98, 1, 1)]);
}

#[test]
fn analyze_trailing_space() {
    let a = CharCodeData::analyze("test ", "test  ");
    assert_eq!(a.report, "32:1[ ]");
    assert_eq!((a.unique_count, a.diff_length), (1, 1));
    assert_eq!(a.classification.whitespace, vec![(32, 1)]);
    assert_eq!(a.whitespace_issues, vec![WhitespaceIssue::TrailingWhitespace]);
    assert!(a.encoding_issues.is_empty());
    assert!(!a.has_zero_width);
    assert_eq!(
        a.suggestion.as_deref(),
        Some("Remove trailing whitespace from lines in your search string")
    );
    assert_eq!(a.distribution.only_in_actual, vec![(32, 1)]);
    assert_eq!(
        a.visual_diff_with_codes,
        "test {+ +}\n\nWith character codes:\nExpected diff: \"\" [empty]\nActual diff:   \" \" [32]"
    );
}

#[test]
fn analyze_tabs_against_spaces() {
    let a = CharCodeData::analyze("x\ty", "x    y");
    assert_eq!(a.report, "9:1[\\x09],32:4[ ]");
    assert_eq!(
        a.whitespace_issues,
        vec![
            WhitespaceIssue::TabsVsSpaces,
            WhitespaceIssue::ExtraSpaces,
            WhitespaceIssue::TrailingWhitespace
        ]
    );
    assert_eq!(
        a.suggestion.as_deref(),
        Some("Replace tabs with spaces (or vice versa) in your search string")
    );
    let report = a.format_detailed_report();
    assert!(report.contains("  Whitespace: TAB\u{d7}1, SPACE\u{d7}4\n"));
    assert!(report.contains("  \u{26a0}\u{fe0f}  TabsVsSpaces\n  \u{26a0}\u{fe0f}  ExtraSpaces\n"));
}

#[test]
fn analyze_zero_width_character() {
    let a = CharCodeData::analyze("a\u{200B}b", "ab");
    assert_eq!(a.report, "8203:1[\\x200b]");
    assert!(a.has_zero_width);
    assert_eq!(a.classification.unicode, vec![(8203, 1)]);
    assert_eq!(
        a.suggestion.as_deref(),
        Some("Remove zero-width characters from your search string")
    );
    let report = a.format_detailed_report();
    assert!(report.starts_with(
        "Character Analysis:\n  Character codes: 8203:1[\\x200b]\n  Unique codes: 1, Diff length: 1\n\nIssues Detected:\n  \u{26a0}\u{fe0f}  Zero-width characters detected\n\nDistribution:\n  Only in search string: ZWSP\u{d7}1\n\nVisual Diff:\na{-\u{200B}-}b\n"
    ));
    assert!(report.ends_with(
        "\n\n\u{1F4A1} Suggestion: Remove zero-width characters from your search string\n"
    ));
}

#[test]
fn analyze_byte_order_mark() {
    let a = CharCodeData::analyze("\u{FEFF}x", "x");
    assert_eq!(a.encoding_issues, vec![EncodingIssue::ByteOrderMark]);
    assert!(a.has_zero_width);
}

#[test]
fn analyze_replacement_character() {
    let a = CharCodeData::analyze("a\u{FFFD}", "a?");
    assert_eq!(a.encoding_issues, vec![EncodingIssue::ReplacementChar]);
    assert_eq!(
        a.suggestion.as_deref(),
        Some("File contains invalid UTF-8 characters (\u{FFFD})")
    );
}

#[test]
fn analyze_normalization_mismatch() {
    let a = CharCodeData::analyze("caf\u{e9}", "cafe\u{301}");
    assert!(a.unicode_analysis.normalization_mismatch);
    assert!(a.unicode_analysis.has_composed);
    assert!(a.unicode_analysis.has_decomposed);
    assert_eq!(
        a.suggestion.as_deref(),
        Some("Normalize Unicode to NFC form in your search string")
    );
    let report = a.format_detailed_report();
    assert!(report.contains("Unicode normalization mismatch (NFC vs NFD)") == false);
}

#[test]
fn analyze_mixed_line_endings() {
    let a = CharCodeData::analyze("a\nb", "a\r\nb");
    assert_eq!(a.report, "13:1[\\x0d]");
    let b = CharCodeData::analyze("a\rb", "a\nb");
    assert_eq!(b.whitespace_issues, vec![WhitespaceIssue::MixedLineEndings]);
    assert_eq!(b.classification.line_endings, vec![(10, 1), (13, 1)]);
    assert!(b.format_detailed_report().contains("  Line endings: LF\u{d7}1, CR\u{d7}1\n"));
}

#[test]
fn analyze_identical_strings() {
    let a = CharCodeData::analyze("same", "same");
    assert_eq!(a.report, "");
    assert_eq!((a.unique_count, a.diff_length), (0, 0));
    assert_eq!(a.suggestion, None);
    assert!(a.visual_diff_with_codes.starts_with("same\n\nWith character codes:"));
}
