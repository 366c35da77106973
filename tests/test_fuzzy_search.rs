use kodegen_utils::fuzzy_search::{
    get_similarity_ratio, levenshtein_distance, recursive_fuzzy_index_of_with_defaults,
};

#[test]
fn test_levenshtein_distance() {
    assert!((levenshtein_distance("hello", "hello") as f64 - 0.0).abs() < f64::EPSILON);
    assert!((levenshtein_distance("hello", "hallo") as f64 - 1.0).abs() < f64::EPSILON);
    assert!((levenshtein_distance("", "hello") as f64 - 5.0).abs() < f64::EPSILON);
    assert!((levenshtein_distance("hello", "") as f64 - 5.0).abs() < f64::EPSILON);
}

#[test]
fn test_get_similarity_ratio() {
    let same = get_similarity_ratio("hello", "hello");
    assert!((same.numerator as f64 / same.denominator as f64 - 1.0).abs() < f64::EPSILON);
    let empty = get_similarity_ratio("", "");
    assert!((empty.numerator as f64 / empty.denominator as f64 - 1.0).abs() < f64::EPSILON);
    let close = get_similarity_ratio("hello", "hallo");
    assert!(close.numerator as f64 / close.denominator as f64 >= 0.8);
    let far = get_similarity_ratio("hello", "world");
    assert!((far.numerator as f64 / far.denominator as f64) < 0.5);
}

#[test]
fn test_fuzzy_search_exact_match() {
    let text = "The quick brown fox jumps over the lazy dog";
    let query = "quick";

    let result = recursive_fuzzy_index_of_with_defaults(text, query);

    assert_eq!(result.value, "quick");
    assert!((result.distance as f64 - 0.0).abs() < f64::EPSILON);
    assert!(result.start <= result.end);
}

#[test]
fn test_fuzzy_search_partial_match() {
    let text = "The qwick brown fox";
    let query = "quick";

    let result = recursive_fuzzy_index_of_with_defaults(text, query);

    assert!(result.distance > 0);
    assert!(result.value.contains("qwick") || result.value.contains("quick"));
}

#[test]
fn test_empty_strings() {
    let result = recursive_fuzzy_index_of_with_defaults("", "");
    assert_eq!(result.value, "");
    assert!((result.distance as f64 - 0.0).abs() < f64::EPSILON);
}

#[test]
fn test_utf8_multibyte_characters() {
    // Test with arrow symbol 'â†’' (3-byte UTF-8 character)
    let text = "use kodegen_mcp_schema::filesystem::{StartSearchArgs, StartSearchPromptArgs};\nuse kodegen_mcp_schema::Tool;\nuse kodegen_mcp_schema::error::McpError;\nuse rmcp::model::{Content, PromptArgument, PromptMessage, PromptMessageContent, PromptMessageRole};\nuse serde_json";
    let query = "filesystem";
    
    // This should not panic even with multi-byte UTF-8 characters
    let result = recursive_fuzzy_index_of_with_defaults(text, query);
    
    // Verify result is valid
    assert!(!result.value.is_empty());
    assert!(result.start <= result.end);
    
    // Test with emoji and other Unicode
    let text_with_emoji = "Hello ðŸ‘‹ world â†’ test ðŸŽ‰ fuzzy";
    let result = recursive_fuzzy_index_of_with_defaults(text_with_emoji, "fuzzy");
    assert!(result.value.contains("fuzzy"));
}
