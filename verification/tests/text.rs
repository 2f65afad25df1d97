use touchpad_toggle_daemon::contains_ignore_ascii_case;
use touchpad_toggle_daemon::text::{is_white_space, same_text, trim};

#[test]
fn finds_exact_match() {
    assert!(contains_ignore_ascii_case("touchpad", "touchpad"));
}

#[test]
fn finds_uppercase_needle_in_lowercase_haystack() {
    assert!(contains_ignore_ascii_case("touchpad", "TOUCHPAD"));
}

#[test]
fn finds_mixed_case_substring() {
    assert!(contains_ignore_ascii_case(
        "SynPS/2 Synaptics TouchPad",
        "touchpad"
    ));
}

#[test]
fn no_match_returns_false() {
    assert!(!contains_ignore_ascii_case(
        "Logitech USB Mouse",
        "touchpad"
    ));
}

#[test]
fn empty_needle_always_matches() {
    assert!(contains_ignore_ascii_case("anything", ""));
}

#[test]
fn needle_longer_than_haystack_does_not_panic_and_returns_false() {
    assert!(!contains_ignore_ascii_case("pad", "touchpad"));
}

#[test]
fn empty_haystack_with_nonempty_needle_returns_false() {
    assert!(!contains_ignore_ascii_case("", "touchpad"));
}

#[test]
fn empty_needle_matches_an_empty_haystack() {
    assert!(contains_ignore_ascii_case("", ""));
}

#[test]
fn match_after_a_false_start_is_found() {
    assert!(contains_ignore_ascii_case("totouchtouchPADx", "touchpad"));
}

#[test]
fn only_ascii_letters_are_folded() {
    assert!(contains_ignore_ascii_case("@[`{", "@[`{"));
    assert!(!contains_ignore_ascii_case("@", "`"));
    assert!(!contains_ignore_ascii_case("[", "{"));
    assert!(!contains_ignore_ascii_case("\u{c4}", "\u{e4}"));
    assert!(contains_ignore_ascii_case("x\u{c4}Y", "\u{c4}y"));
    // The Kelvin sign is no ASCII letter.
    assert!(!contains_ignore_ascii_case("\u{212a}", "k"));
}

#[test]
fn white_space_is_that_of_unicode() {
    for code in 0..=0x10ffff_u32 {
        if let Some(c) = char::from_u32(code) {
            assert_eq!(is_white_space(c), c.is_whitespace(), "U+{code:04X}");
        }
    }
}

#[test]
fn trimming_drops_white_space_at_both_ends() {
    for text in [
        "",
        " ",
        "\t\r\n",
        "x",
        " x",
        "x ",
        "\u{2003}a b\u{a0}\n",
        "a\u{200b}",
        " \u{20ac} \u{20ac} ",
    ] {
        assert_eq!(trim(text), text.trim());
        assert_eq!(trim(trim(text)), trim(text));
    }
}

#[test]
fn texts_are_the_same_only_character_by_character() {
    assert!(same_text("", ""));
    assert!(same_text("\u{e4}", "\u{e4}"));
    assert!(!same_text("a", "A"));
    assert!(!same_text("a", "ab"));
    assert!(!same_text("\u{e4}", "a\u{308}"));
}
