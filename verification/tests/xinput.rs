use touchpad_toggle_daemon::xinput::{
    autodetect_touchpad_name, toggle_arguments, CommandOutput,
};
use touchpad_toggle_daemon::{find_touchpad_name, xinput_action};

const SAMPLE_XINPUT_OUTPUT: &str = "\
Virtual core pointer
Virtual core XTEST pointer
SynPS/2 Synaptics TouchPad
Logitech USB Mouse
Virtual core keyboard
Virtual core XTEST keyboard
Power Button
";

#[test]
fn enabled_maps_to_enable() {
    assert_eq!(xinput_action(true), "enable");
}

#[test]
fn disabled_maps_to_disable() {
    assert_eq!(xinput_action(false), "disable");
}

#[test]
fn toggle_arguments_are_the_action_and_the_name() {
    assert_eq!(toggle_arguments("Foo Touchpad", true), ["enable", "Foo Touchpad"]);
    assert_eq!(toggle_arguments("Foo Touchpad", false), ["disable", "Foo Touchpad"]);
}

#[test]
fn finds_touchpad_in_realistic_xinput_output() {
    assert_eq!(
        find_touchpad_name(SAMPLE_XINPUT_OUTPUT),
        Some("SynPS/2 Synaptics TouchPad".to_string())
    );
}

#[test]
fn matches_case_insensitively() {
    assert_eq!(
        find_touchpad_name("Virtual core pointer\nALPS touchpad\n"),
        Some("ALPS touchpad".to_string())
    );
    assert_eq!(
        find_touchpad_name("ELAN1200:00 04F3:3067 TOUCHPAD\n"),
        Some("ELAN1200:00 04F3:3067 TOUCHPAD".to_string())
    );
}

#[test]
fn trims_surrounding_whitespace() {
    assert_eq!(
        find_touchpad_name("  Foo Touchpad  \n"),
        Some("Foo Touchpad".to_string())
    );
}

#[test]
fn returns_first_match_when_multiple_present() {
    let output = "First Touchpad\nSecond Touchpad\n";
    assert_eq!(
        find_touchpad_name(output),
        Some("First Touchpad".to_string())
    );
}

#[test]
fn no_touchpad_present_returns_none() {
    let output = "Virtual core pointer\nLogitech USB Mouse\nVirtual core keyboard\n";
    assert_eq!(find_touchpad_name(output), None);
}

#[test]
fn empty_input_returns_none() {
    assert_eq!(find_touchpad_name(""), None);
}

#[test]
fn blank_lines_are_skipped_without_matching() {
    assert_eq!(find_touchpad_name("\n\n\n"), None);
}

#[test]
fn last_line_needs_no_line_feed() {
    assert_eq!(find_touchpad_name("Mouse\nTouchpad"), Some("Touchpad".to_string()));
}

#[test]
fn carriage_returns_are_trimmed() {
    assert_eq!(
        find_touchpad_name("Mouse\r\nFoo Touchpad\r\nKeyboard\r\n"),
        Some("Foo Touchpad".to_string())
    );
}

#[test]
fn names_beyond_ascii_are_kept() {
    assert_eq!(
        find_touchpad_name("Maus\n\u{a0}\u{dc}ber-TouchPad \u{20ac}\u{2003}\n"),
        Some("\u{dc}ber-TouchPad \u{20ac}".to_string())
    );
}

#[test]
fn found_name_is_found_again() {
    let name = find_touchpad_name(SAMPLE_XINPUT_OUTPUT).unwrap();
    assert_eq!(find_touchpad_name(&name), Some(name.clone()));
}

#[test]
fn word_across_two_lines_does_not_match() {
    assert_eq!(find_touchpad_name("touch\npad\n"), None);
}

#[test]
fn detection_reads_the_output_of_a_listing() {
    let listing = CommandOutput {
        success: true,
        stdout: SAMPLE_XINPUT_OUTPUT.as_bytes().to_vec(),
    };
    assert_eq!(
        autodetect_touchpad_name(Some(&listing)),
        Some("SynPS/2 Synaptics TouchPad".to_string())
    );
}

#[test]
fn detection_without_a_listing_finds_nothing() {
    assert_eq!(autodetect_touchpad_name(None), None);
    let listing = CommandOutput {
        success: false,
        stdout: SAMPLE_XINPUT_OUTPUT.as_bytes().to_vec(),
    };
    assert_eq!(autodetect_touchpad_name(Some(&listing)), None);
}

#[test]
fn detection_replaces_bytes_that_are_no_text() {
    let listing = CommandOutput {
        success: true,
        stdout: b"M\xffuse\nF\xff\xffo TouchPad\n".to_vec(),
    };
    assert_eq!(
        autodetect_touchpad_name(Some(&listing)),
        Some("F\u{fffd}\u{fffd}o TouchPad".to_string())
    );
}
