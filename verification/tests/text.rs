use sidewire::text::{
    chars_of, decimal_text, ends_with, insert_ascending, is_before, is_blank, is_control,
    is_white_space, join, split, starts_with, trim, two_digit_text,
};

#[test]
fn character_classes_agree_with_std() {
    for c in '\0'..=char::MAX {
        assert_eq!(is_control(c), c.is_control());
        assert_eq!(is_white_space(c), c.is_whitespace());
    }
}

#[test]
fn trimming_agrees_with_std() {
    for s in ["", "  ", " a ", "\ta\u{2003}b\n", "a", "\u{85}x\u{1680}", "\u{200b}x"] {
        assert_eq!(trim(s), s.trim());
        assert_eq!(is_blank(s), s.trim().is_empty());
    }
}

#[test]
fn numbers_in_decimal() {
    for n in [0, 7, 10, 99, 100, 42069, u64::MAX] {
        assert_eq!(decimal_text(n), n.to_string());
        assert_eq!(two_digit_text(n), format!("{:02}", n));
    }
}

#[test]
fn prefixes_and_suffixes() {
    let chars = chars_of("héllo");
    assert!(starts_with(&chars, "hé"));
    assert!(starts_with(&chars, ""));
    assert!(!starts_with(&chars, "he"));
    assert!(!starts_with(&chars, "héllo!"));
    assert!(ends_with(&chars, "llo"));
    assert!(!ends_with(&chars, "lló"));
    assert!(!ends_with(&chars, "xhéllo"));
    assert_eq!(join("a", "é"), "aé");
}

#[test]
fn splitting_agrees_with_std() {
    for s in ["", ":", "a:b:c", "a::b", ":a:", "abc"] {
        let parts: Vec<&str> = s.split(':').collect();
        assert_eq!(split(&chars_of(s), ':'), parts);
    }
}

#[test]
fn order_agrees_with_std() {
    let texts = ["", "a", "ab", "b", "Z", "é", "\u{ffff}", "\u{10000}", "a\u{10000}"];
    for a in texts {
        for b in texts {
            assert_eq!(is_before(a, b), a < b);
        }
    }
}

#[test]
fn insertion_keeps_order_and_drops_repeats() {
    let mut texts: Vec<String> = Vec::new();
    for t in ["b", "a", "c", "b", "", "a"] {
        insert_ascending(&mut texts, t.to_string());
    }
    assert_eq!(texts, ["", "a", "b", "c"]);
}
