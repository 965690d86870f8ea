use netplay::clock::{now_ms, timestamp};
use netplay::text::{
    blank, clip, eq_ignore_case, letters, normalize_password, spell, squash, trim,
};

#[test]
fn blank_agrees_with_the_standard_library() {
    for c in '\0'..=char::MAX {
        assert_eq!(blank(c), c.is_whitespace(), "{:?}", c);
    }
}

#[test]
fn letters_and_spelling_are_inverse() {
    let chars = letters("però 😀!");
    assert_eq!(chars, "però 😀!".chars().collect::<Vec<char>>());
    assert_eq!(spell(&chars, 0, chars.len()), "però 😀!");
    assert_eq!(spell(&chars, 1, 4), "erò");
    assert_eq!(spell(&chars, 2, 2), "");
}

#[test]
fn trimming_agrees_with_the_standard_library() {
    for s in [
        "", " ", "a", "  a", "a  ", " a b ", "\t\n a\u{a0}\u{3000}", "\u{200b}x\u{200b}", "è\u{85}",
        "\u{2028}\u{2029}",
    ] {
        assert_eq!(trim(s), s.trim(), "{:?}", s);
        assert_eq!(trim(&trim(s)), trim(s));
    }
}

#[test]
fn squashing_agrees_with_the_standard_library() {
    for s in [
        "", "   ", "a", " a ", "a b", "a  b\tc", "\n x \u{3000} y\u{85}z ", "uno due\r\n tre",
    ] {
        let expected = s.split_whitespace().collect::<Vec<_>>().join(" ");
        assert_eq!(squash(s), expected, "{:?}", s);
        assert_eq!(squash(&squash(s)), squash(s));
    }
    assert_eq!(squash("  hello \t  world  "), "hello world");
}

#[test]
fn clipping_counts_characters() {
    assert_eq!(clip("abc", 0), "");
    assert_eq!(clip("abc", 2), "ab");
    assert_eq!(clip("abc", 3), "abc");
    assert_eq!(clip("abc", 10), "abc");
    assert_eq!(clip("àèìòù", 3), "àèì");
}

#[test]
fn case_is_ignored_for_ascii_only() {
    for (a, b) in [
        ("none", "NONE"), ("None", "nOnE"), ("none", "non"), ("", ""), ("À", "à"), ("a[", "A{"),
        ("@", "`"), ("Z", "z"), ("all", "alL"), ("all", "al1"),
    ] {
        assert_eq!(eq_ignore_case(a, b), a.eq_ignore_ascii_case(b), "{:?} {:?}", a, b);
    }
    assert!(eq_ignore_case("NoNe", "none"));
    assert!(!eq_ignore_case("À", "à"));
}

#[test]
fn passwords_are_normalized() {
    assert_eq!(normalize_password(None), None);
    assert_eq!(normalize_password(Some("".to_string())), None);
    assert_eq!(normalize_password(Some(" \t ".to_string())), None);
    assert_eq!(normalize_password(Some("none".to_string())), None);
    assert_eq!(normalize_password(Some("  NoNe ".to_string())), None);
    assert_eq!(normalize_password(Some(" s3 cret ".to_string())), Some("s3 cret".to_string()));
    assert_eq!(normalize_password(Some("nonet".to_string())), Some("nonet".to_string()));
}

#[test]
fn normalizing_a_password_again_changes_nothing() {
    for s in ["", " none ", " a b ", "x"] {
        let once = normalize_password(Some(s.to_string()));
        assert_eq!(normalize_password(once.clone()), once);
    }
}

#[test]
fn timestamps_keep_the_low_bits() {
    assert_eq!(timestamp(None), 0);
    assert_eq!(timestamp(Some(1_700_000_000_123)), 1_700_000_000_123);
    assert_eq!(timestamp(Some((1u128 << 64) + 7)), 7);
}

#[test]
fn the_clock_shows_milliseconds_since_the_epoch() {
    let before = std::time::UNIX_EPOCH.elapsed().unwrap().as_millis() as u64;
    let now = now_ms();
    let after = std::time::UNIX_EPOCH.elapsed().unwrap().as_millis() as u64;
    assert!(before <= now && now <= after);
    assert!(now > 1_600_000_000_000);
}
