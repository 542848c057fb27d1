use presidio::context::{has_context_hit, CONTEXT_WINDOW_CHARS};

#[test]
fn context_window_counts_characters_not_bytes() {
    let text = format!("ssn {} 123-45-6789", "\u{e9}".repeat(30));
    assert_eq!(text.len(), 76);
    assert_eq!(CONTEXT_WINDOW_CHARS, 40);
    assert!(has_context_hit(&text, 65, 76, &["ssn"]));
}

#[test]
fn context_word_beyond_forty_characters_is_not_found() {
    let text = format!("ssn {} 123-45-6789", "\u{e9}".repeat(37));
    let start = text.len() - 11;
    assert!(!has_context_hit(&text, start, text.len(), &["ssn"]));
    let near = format!("ssn {} 123-45-6789", "\u{e9}".repeat(35));
    let start = near.len() - 11;
    assert!(has_context_hit(&near, start, near.len(), &["ssn"]));
}

#[test]
fn context_window_after_the_match_counts_characters() {
    let text = format!("123-45-6789 {} SSN", "\u{fc}".repeat(35));
    assert!(has_context_hit(&text, 0, 11, &["ssn"]));
    let far = format!("123-45-6789 {} SSN", "\u{fc}".repeat(40));
    assert!(!has_context_hit(&far, 0, 11, &["ssn"]));
}
