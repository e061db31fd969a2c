use music_player::text::{directory_label, format_duration, joined, numbered, time_text};

const SECOND: u128 = 1_000_000_000;

#[test]
fn clock_pads_minutes_and_seconds() {
    assert_eq!(format_duration(0), "00:00");
    assert_eq!(format_duration(65 * SECOND), "01:05");
    assert_eq!(format_duration(59 * SECOND + 999_999_999), "00:59");
    assert_eq!(format_duration(60 * SECOND), "01:00");
    assert_eq!(format_duration(754 * SECOND), "12:34");
}

#[test]
fn clock_has_no_hours() {
    assert_eq!(format_duration(6_000 * SECOND), "100:00");
    assert_eq!(format_duration(u64::MAX as u128 * SECOND), "307445734561825860:15");
}

#[test]
fn clock_agrees_with_the_standard_formatter() {
    for secs in 0..10_000u128 {
        assert_eq!(
            format_duration(secs * SECOND + 7),
            format!("{:02}:{:02}", secs / 60, secs % 60)
        );
    }
}

#[test]
fn clocks_differ_where_whole_seconds_do() {
    assert_eq!(format_duration(5 * SECOND), format_duration(5 * SECOND + 1));
    assert_ne!(format_duration(5 * SECOND), format_duration(6 * SECOND));
    assert_ne!(format_duration(60 * SECOND), format_duration(SECOND));
}

#[test]
fn time_line_shows_what_is_known() {
    assert_eq!(time_text(Some(5 * SECOND), Some(125 * SECOND)), "00:05 / 02:05");
    assert_eq!(time_text(Some(5 * SECOND), None), "00:05 / --:--");
    assert_eq!(time_text(None, Some(125 * SECOND)), "00:00 / --:--");
    assert_eq!(time_text(None, None), "00:00 / --:--");
}

#[test]
fn directory_is_cut_after_forty_characters() {
    assert_eq!(directory_label("/home/me"), "/home/me");
    let forty = "/0123456789012345678901234567890123456ä8";
    assert_eq!(forty.chars().count(), 40);
    assert_eq!(directory_label(forty), forty);
    assert_eq!(directory_label(&format!("{}xyz", forty)), forty);
    assert_eq!(directory_label(""), "");
}

#[test]
fn texts_are_joined() {
    assert_eq!(joined("Loaded: ", "a.mp3"), "Loaded: a.mp3");
    assert_eq!(numbered("Files: ", 0), "Files: 0");
    assert_eq!(numbered("Files: ", 1024), "Files: 1024");
    assert_eq!(numbered("", usize::MAX), format!("{}", usize::MAX));
}
