use bevy_text_span_entities::strings::{byte_len, can_cut, push_text, substring};

#[test]
fn byte_len_counts_bytes() {
    assert_eq!(byte_len(""), 0);
    assert_eq!(byte_len("abc"), 3);
    assert_eq!(byte_len("né"), 3);
    assert_eq!(byte_len("🇷🇺"), 8);
}

#[test]
fn can_cut_between_characters_only() {
    assert!(can_cut("né", 0));
    assert!(can_cut("né", 1));
    assert!(!can_cut("né", 2));
    assert!(can_cut("né", 3));
    assert!(!can_cut("né", 4));
    assert!(can_cut("", 0));
    assert!(!can_cut("", 1));
}

#[test]
fn substring_takes_the_bytes_between_two_cuts() {
    assert_eq!(substring("hello world", 0, 5), "hello");
    assert_eq!(substring("hello world", 6, 11), "world");
    assert_eq!(substring("hello world", 3, 3), "");
    assert_eq!(substring("héllo", 1, 3), "é");
    assert_eq!(substring("héllo", 0, 6), "héllo");
}

#[test]
fn push_text_appends() {
    let mut acc = String::from("né");
    push_text(&mut acc, "e");
    push_text(&mut acc, "");
    push_text(&mut acc, " ü");
    assert_eq!(acc, "née ü");
}
