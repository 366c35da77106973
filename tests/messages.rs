use kodegen_utils::edit_log::escape_tsv;
use kodegen_utils::suggestions::Suggestion;

#[test]
fn suggestion_format_numbers_actions() {
    let s = Suggestion {
        message: "m".to_string(),
        actions: vec!["first".to_string(), "second".to_string()],
    };
    assert_eq!(s.format(), "\n\u{1F4A1} Suggestions:\n1. first\n2. second\n");
}

#[test]
fn suggestion_format_numbers_past_nine() {
    let actions: Vec<String> = (0..11).map(|i| format!("a{i}")).collect();
    let s = Suggestion { message: String::new(), actions };
    let text = s.format();
    assert!(text.ends_with("10. a9\n11. a10\n"));
}

#[test]
fn suggestion_format_without_actions_is_empty() {
    let s = Suggestion { message: "m".to_string(), actions: Vec::new() };
    assert_eq!(s.format(), "");
}

#[test]
fn fixed_suggestions() {
    let e = Suggestion::empty_search();
    assert_eq!(e.message, "Empty search strings are not allowed.");
    assert_eq!(e.actions, vec!["Provide a non-empty string to search for".to_string()]);
    let i = Suggestion::identical_strings();
    assert_eq!(i.message, "old_string and new_string are identical.");
    assert_eq!(i.format(), "\n\u{1F4A1} Suggestions:\n1. No changes would be made - provide different strings\n");
}

#[test]
fn tsv_escaping() {
    assert_eq!(escape_tsv("a\tb\nc\rd"), "a\\tb\\nc\\rd");
    assert_eq!(escape_tsv("plain \u{4e16}"), "plain \u{4e16}");
    assert_eq!(escape_tsv(""), "");
}
