use waloyo::text::{chars_of, contains_token, is_blank_str, remove_token, same_text, trim_str};

#[test]
fn chars_of_keeps_order() {
    assert_eq!(chars_of("añb"), vec!['a', 'ñ', 'b']);
    assert_eq!(chars_of(""), Vec::<char>::new());
}

#[test]
fn blank_text() {
    assert!(is_blank_str(""));
    assert!(is_blank_str("   "));
    assert!(is_blank_str("\t\n\u{3000}\u{a0}"));
    assert!(!is_blank_str("  x "));
}

#[test]
fn trim_removes_unicode_white_space_at_both_ends() {
    assert_eq!(trim_str("  Buy milk \t"), "Buy milk");
    assert_eq!(trim_str("\u{2003}x y\u{205f}"), "x y");
    assert_eq!(trim_str("   "), "");
    assert_eq!(trim_str("a"), "a");
}

#[test]
fn contains_finds_tokens_anywhere() {
    assert!(contains_token("Buy milk !h", "!h"));
    assert!(contains_token("!h", "!h"));
    assert!(!contains_token("!", "!h"));
    assert!(!contains_token("h!", "!h"));
    assert!(contains_token("abc", ""));
}

#[test]
fn remove_token_deletes_every_occurrence_left_to_right() {
    assert_eq!(remove_token("a !h b !h", "!h"), "a  b ");
    assert_eq!(remove_token("!!hh", "!h"), "!h");
    assert_eq!(remove_token("none here", "!h"), "none here");
    assert_eq!(remove_token("ééé", "é"), "");
}

#[test]
fn same_text_compares_characters() {
    assert!(same_text("done", "done"));
    assert!(!same_text("done", "Done"));
    assert!(!same_text("done", "don"));
}
