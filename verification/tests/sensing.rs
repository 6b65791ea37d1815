use arlen_comp::sensing::{read_key, screen_capture_is_off, switch_file, Reading, SwitchFileRead};

/// The bytes Settings writes for the off position.
const OFF_FIXTURE: &str = "\
# Sensing master switches. Off subtracts from every app at once and is
# enforced where the capability is exercised, not in the settings UI.
screen_capture = false
";

#[test]
fn the_file_settings_writes_reads_as_off() {
    assert_eq!(read_key(OFF_FIXTURE, "screen_capture"), Reading::Off);
}

#[test]
fn a_stated_value_is_read_as_stated() {
    assert_eq!(read_key("screen_capture = false", "screen_capture"), Reading::Off);
    assert_eq!(read_key("screen_capture = true", "screen_capture"), Reading::On);
}

#[test]
fn a_file_about_other_switches_leaves_this_one_unconfigured() {
    assert_eq!(read_key("microphone = false", "screen_capture"), Reading::NotStated);
}

#[test]
fn a_corrupted_file_is_unreadable_rather_than_silently_on() {
    assert_eq!(read_key("", "screen_capture"), Reading::Unreadable);
    assert_eq!(read_key("screen_captu", "screen_capture"), Reading::Unreadable);
    assert_eq!(read_key("screen_capture = fal", "screen_capture"), Reading::Unreadable);
    assert_eq!(read_key("# screen_capture = false", "screen_capture"), Reading::Unreadable);
}

#[test]
fn a_trailing_comment_does_not_hide_the_setting() {
    assert_eq!(
        read_key("screen_capture = false # off for the meeting", "screen_capture"),
        Reading::Off
    );
}

#[test]
fn the_first_statement_of_the_key_decides() {
    let text = "screen_capture = true\nscreen_capture = false\n";
    assert_eq!(read_key(text, "screen_capture"), Reading::On);
    let text = "microphone = true\nscreen_capture = maybe\nscreen_capture = false";
    assert_eq!(read_key(text, "screen_capture"), Reading::Unreadable);
}

#[test]
fn windows_line_endings_and_unicode_blanks_are_trimmed() {
    assert_eq!(read_key("screen_capture = false\r\n", "screen_capture"), Reading::Off);
    assert_eq!(read_key("\u{00A0}screen_capture\u{3000}=\ttrue ", "screen_capture"), Reading::On);
}

#[test]
fn a_line_with_an_empty_name_states_nothing() {
    assert_eq!(read_key(" = false", "screen_capture"), Reading::Unreadable);
    assert_eq!(read_key("= false\nother = 1", "screen_capture"), Reading::NotStated);
}

#[test]
fn only_the_first_equals_sign_splits() {
    assert_eq!(read_key("screen_capture = false = true", "screen_capture"), Reading::Unreadable);
    assert_eq!(read_key("a=b=c", "a"), Reading::Unreadable);
}

#[test]
fn capture_is_off_for_off_and_unreadable_and_failed_reads() {
    let text = |t: &str| SwitchFileRead::Text(t.to_string());
    assert!(screen_capture_is_off(&text("screen_capture = false")));
    assert!(screen_capture_is_off(&text("screen_capture = fal")));
    assert!(screen_capture_is_off(&text("")));
    assert!(!screen_capture_is_off(&text("screen_capture = true")));
    assert!(!screen_capture_is_off(&text("microphone = false")));
    assert!(screen_capture_is_off(&SwitchFileRead::Failed));
    assert!(!screen_capture_is_off(&SwitchFileRead::NotFound));
    assert!(!screen_capture_is_off(&SwitchFileRead::NoLocation));
}

#[test]
fn the_switch_file_lives_under_the_config_directory() {
    let b = |s: &str| s.as_bytes().to_vec();
    let some = |s: &'static str| Some(s.as_bytes());
    assert_eq!(
        switch_file(some("/xdg"), some("/home/u")),
        Some(b("/xdg/arlen/sensing.toml"))
    );
    assert_eq!(
        switch_file(some("/xdg/"), None),
        Some(b("/xdg/arlen/sensing.toml"))
    );
    assert_eq!(
        switch_file(some("relative"), some("/home/u")),
        Some(b("/home/u/.config/arlen/sensing.toml"))
    );
    assert_eq!(
        switch_file(some(""), some("/home/u/")),
        Some(b("/home/u/.config/arlen/sensing.toml"))
    );
    assert_eq!(switch_file(None, some("")), Some(b(".config/arlen/sensing.toml")));
    assert_eq!(switch_file(some("relative"), None), None);
    assert_eq!(switch_file(None, None), None);
}
