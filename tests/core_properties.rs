use kodegen_utils::char_analysis::find_common_boundaries;
use kodegen_utils::char_diff::CharDiff;
use kodegen_utils::fuzzy_search::{
    get_similarity_ratio, levenshtein_distance, recursive_fuzzy_index_of,
    recursive_fuzzy_index_of_with_defaults,
};

#[test]
fn distance_to_itself_is_zero() {
    for s in ["", "a", "kitten", "caf\u{e9}", "e\u{301}\u{1F389}"] {
        assert_eq!(levenshtein_distance(s, s), 0);
    }
}

#[test]
fn distance_is_symmetric() {
    let pairs = [("kitten", "sitting"), ("flaw", "lawn"), ("", "abc"), ("\u{4e16}\u{754c}", "\u{754c}")];
    for (a, b) in pairs {
        assert_eq!(levenshtein_distance(a, b), levenshtein_distance(b, a));
    }
    assert_eq!(levenshtein_distance("kitten", "sitting"), 3);
    assert_eq!(levenshtein_distance("flaw", "lawn"), 2);
}

#[test]
fn distance_obeys_triangle_inequality() {
    let words = ["kitten", "sitting", "mitten", "", "knitting"];
    for a in words {
        for b in words {
            for c in words {
                assert!(
                    levenshtein_distance(a, b)
                        <= levenshtein_distance(a, c) + levenshtein_distance(c, b)
                );
            }
        }
    }
}

#[test]
fn distance_from_empty_is_scalar_length() {
    assert_eq!(levenshtein_distance("", "\u{4e16}\u{754c}!"), 3);
    assert_eq!(levenshtein_distance("e\u{301}", ""), 2);
}

#[test]
fn similarity_of_equal_strings_is_one() {
    let r = get_similarity_ratio("abc", "abc");
    assert_eq!((r.numerator, r.denominator), (3, 3));
    let r = get_similarity_ratio("", "");
    assert_eq!((r.numerator, r.denominator), (1, 1));
    let r = get_similarity_ratio("hello", "hallo");
    assert_eq!((r.numerator, r.denominator), (4, 5));
    let r = get_similarity_ratio("abc", "xyz");
    assert_eq!((r.numerator, r.denominator), (0, 3));
}

#[test]
fn similarity_scenarios() {
    let close = get_similarity_ratio("hello", "hallo");
    assert!(close.numerator as f64 / close.denominator as f64 >= 0.8);
    let far = get_similarity_ratio("hello", "world");
    assert!((far.numerator as f64 / far.denominator as f64) < 0.5);
}

#[test]
fn locate_exact_occurrence() {
    let r = recursive_fuzzy_index_of_with_defaults("The quick brown fox", "quick");
    assert_eq!(r.value, "quick");
    assert_eq!(r.distance, 0);
    assert_eq!((r.start, r.end), (4, 9));
}

#[test]
fn locate_near_occurrence() {
    let r = recursive_fuzzy_index_of_with_defaults("The qwick brown fox", "quick");
    assert_eq!(r.distance, 1);
    assert!(r.value.contains("qwick"));
    assert_eq!((r.start, r.end), (4, 9));
}

#[test]
fn locate_whole_text_when_text_is_query() {
    let r = recursive_fuzzy_index_of_with_defaults("quick", "quick");
    assert_eq!((r.start, r.end, r.distance), (0, 5, 0));
    assert_eq!(r.value, "quick");
}

#[test]
fn locate_offsets_are_scalar_positions() {
    let r = recursive_fuzzy_index_of_with_defaults("Hello \u{1F44B} world \u{2192} test \u{1F389} fuzzy", "fuzzy");
    assert_eq!((r.start, r.end, r.distance), (23, 28, 0));
    assert_eq!(r.value, "fuzzy");
}

#[test]
fn locate_is_repeatable() {
    let text = "one two three four five six seven";
    let a = recursive_fuzzy_index_of_with_defaults(text, "fuor");
    let b = recursive_fuzzy_index_of_with_defaults(text, "fuor");
    assert_eq!((a.start, a.end, a.distance), (b.start, b.end, b.distance));
    assert_eq!(a.value, b.value);
    assert_eq!(a.distance, levenshtein_distance(&a.value, "fuor"));
}

#[test]
fn locate_empty_query_is_empty_match_at_range_start() {
    let r = recursive_fuzzy_index_of_with_defaults("abc", "");
    assert_eq!((r.start, r.end, r.distance), (0, 0, 0));
    assert_eq!(r.value, "");
    let r = recursive_fuzzy_index_of("abcdef", "", 2, Some(5), None);
    assert_eq!((r.start, r.end, r.distance), (2, 2, 0));
}

#[test]
fn locate_query_longer_than_text() {
    let r = recursive_fuzzy_index_of_with_defaults("ab", "abcdef");
    assert_eq!((r.start, r.end, r.distance), (0, 2, 4));
    assert_eq!(r.value, "ab");
}

#[test]
fn locate_is_a_local_search_only() {
    let r = recursive_fuzzy_index_of_with_defaults("aabab", "aab");
    assert_eq!((r.start, r.end, r.distance), (1, 5, 1));
    assert_eq!(r.value, "abab");
}

#[test]
fn locate_within_a_range() {
    let r = recursive_fuzzy_index_of("quick brown quick", "quick", 6, None, None);
    assert_eq!((r.start, r.end, r.distance), (12, 17, 0));
    assert_eq!(r.value, "quick");
}

#[test]
fn boundaries_of_equal_strings() {
    assert_eq!(find_common_boundaries("abc", "abc"), (3, 0));
    assert_eq!(find_common_boundaries("", ""), (0, 0));
}

#[test]
fn boundaries_of_disjoint_strings() {
    assert_eq!(find_common_boundaries("abc", "xyz"), (0, 0));
}

#[test]
fn boundaries_never_overlap() {
    assert_eq!(find_common_boundaries("aa", "aaa"), (2, 0));
    assert_eq!(find_common_boundaries("abca", "abxca"), (2, 2));
}

#[test]
fn boundaries_count_scalars() {
    let a = "e\u{301}x\u{1F389}";
    let b = "e\u{301}y\u{1F389}";
    let (p, s) = find_common_boundaries(a, b);
    assert_eq!((p, s), (2, 1));
    let prefix: String = a.chars().take(p).collect();
    let suffix: String = a.chars().skip(a.chars().count() - s).collect();
    assert_eq!(prefix, "e\u{301}");
    assert_eq!(suffix, "\u{1F389}");
    let d = CharDiff::new(a, b);
    assert_eq!(d.common_prefix, "e\u{301}");
    assert_eq!(d.common_suffix, "\u{1F389}");
    assert_eq!(d.expected_part, "x");
    assert_eq!(d.actual_part, "y");
    assert_eq!(format!("{}{}{}", d.common_prefix, d.expected_part, d.common_suffix), a);
    assert_eq!(format!("{}{}{}", d.common_prefix, d.actual_part, d.common_suffix), b);
}

#[test]
fn char_diff_format_is_exact() {
    let d = CharDiff::new("function getUserData()", "function  getUserData()");
    assert_eq!(d.format(), "function {--}{+ +}getUserData()");
    let d = CharDiff::new("a\u{4e16}b", "a\u{754c}b");
    assert_eq!(d.format(), "a{-\u{4e16}-}{+\u{754c}+}b");
}

#[test]
fn char_diff_whitespace_only_is_false_for_text_changes() {
    assert!(!CharDiff::new("abc", "abd").is_whitespace_only());
    assert!(CharDiff::new("x\t", "x  ").is_whitespace_only());
}
