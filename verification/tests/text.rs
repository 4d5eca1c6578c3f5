use sally::labels::sorted_unique;
use sally::text::{
    contains_text, from_chars, is_space, join, lines, replace, same_ignoring_ascii_case,
    text_before, to_chars, trim,
};

#[test]
fn white_space_agrees_with_std() {
    for u in 0..=0x10FFFFu32 {
        if let Some(c) = char::from_u32(u) {
            assert_eq!(is_space(c), c.is_whitespace(), "{u:x}");
        }
    }
}

#[test]
fn trimming() {
    assert_eq!(trim("  a b\u{3000}\n"), "a b");
}

#[test]
fn texts_agree_with_std() {
    let samples = ["", "a", "aa", "aaa\r\nb\n\nc", "Xin chào\n", "\n", "ab ab ab", "日本 日本"];
    for s in samples {
        assert_eq!(lines(s), s.lines().map(|l| l.to_string()).collect::<Vec<_>>());
        assert_eq!(replace(s, "a", "xy"), s.replace("a", "xy"));
        assert_eq!(replace(s, "aa", "-"), s.replace("aa", "-"));
        assert_eq!(trim(s), s.trim());
        for t in samples {
            assert_eq!(contains_text(s, t), s.contains(t));
            assert_eq!(text_before(s, t), s < t);
            assert_eq!(same_ignoring_ascii_case(s, t), s.eq_ignore_ascii_case(t));
        }
    }
}

#[test]
fn lists_are_joined() {
    let v: Vec<String> = ["a", "", "b"].iter().map(|s| s.to_string()).collect();
    assert_eq!(join(&v, "--"), v.join("--"));
    assert_eq!(join(&vec![], "--"), "");
}

#[test]
fn characters_are_taken_and_put_together() {
    let cs = to_chars("xin chào");
    assert_eq!(from_chars(&cs, 4, 8), "chào");
}

#[test]
fn labels_are_sorted_without_repetition() {
    let v: Vec<String> = ["You", "Ann", "You"].iter().map(|s| s.to_string()).collect();
    assert_eq!(sorted_unique(&v), vec!["Ann".to_string(), "You".to_string()]);
}

#[test]
fn no_white_space_is_a_letter_or_number() {
    for c in '\0'..=char::MAX {
        assert!(!(c.is_alphanumeric() && is_space(c)), "{c:?}");
    }
}
