use procmon_capture::stream::{
    after_write, format_event, has_millis_boundary, sanitize_field, timestamp_millis, write_line,
    AfterWrite, EventRecord,
};

fn record() -> EventRecord {
    EventRecord {
        date_precise: "2026/08/11 17:23:45.1234567".to_string(),
        operation_name: "Process Create".to_string(),
        subject_pid: 4321,
        subject_parent_pid: Some(10),
        subject_image_path: Some("C:\\Program Files\\a b.exe".to_string()),
        working_directory: Some("C:\\work dir".to_string()),
        subject_command_line: Some("a b.exe --x \"1 2\"".to_string()),
    }
}

#[test]
fn timestamp_is_iso_like_and_millisecond_precision() {
    assert_eq!(
        timestamp_millis("2026/08/11 17:23:45.1234567"),
        "2026-08-11 17:23:45.123"
    );
    assert_eq!(timestamp_millis("12345"), "12345");
}

#[test]
fn fields_cannot_break_the_line_protocol() {
    assert_eq!(sanitize_field("a\tb\r\nc"), "a b  c");
}

#[test]
fn writes_and_terminates_one_line() {
    let mut out = Vec::new();
    write_line(&mut out, "one\ttwo").unwrap();
    assert_eq!(out, b"one\ttwo\n");
}

#[test]
fn control_characters_become_spaces() {
    assert_eq!(sanitize_field(""), "");
    assert_eq!(sanitize_field("\u{0}\u{b}\u{c}\u{1b}\u{1f}x"), "     x");
    assert_eq!(sanitize_field("\u{7f}\u{85}\u{9f}\u{a0}"), "   \u{a0}");
    assert_eq!(sanitize_field("päth ~ ok 日本"), "päth ~ ok 日本");
}

#[test]
fn sanitizing_twice_changes_nothing() {
    let once = sanitize_field("a\tb\u{85}c\n");
    assert_eq!(sanitize_field(&once), once);
}

#[test]
fn short_fractions_and_odd_dots_are_kept() {
    assert_eq!(timestamp_millis(""), "");
    assert_eq!(timestamp_millis("1/2."), "1-2.");
    assert_eq!(timestamp_millis("17:23:45.1"), "17:23:45.1");
    assert_eq!(timestamp_millis("17:23:45.123"), "17:23:45.123");
    assert_eq!(timestamp_millis("17:23:45.1234"), "17:23:45.123");
    assert_eq!(timestamp_millis("a.bcdef.ghijk"), "a.bcdef.ghi");
    assert_eq!(timestamp_millis(".1/3/5"), ".1-3");
}

#[test]
fn fractions_are_counted_in_bytes() {
    assert!(has_millis_boundary("x.é1rest"));
    assert_eq!(timestamp_millis("x.é1rest"), "x.é1");
    assert!(has_millis_boundary("x.日rest"));
    assert_eq!(timestamp_millis("x.日rest"), "x.日");
    assert!(has_millis_boundary("é日é.1"));
    assert_eq!(timestamp_millis("é日é.1"), "é日é.1");
    assert!(has_millis_boundary("x.1é"));
    assert!(!has_millis_boundary("x.12é"));
    assert!(!has_millis_boundary("x.éé"));
    assert!(!has_millis_boundary("x.\u{1f600}"));
    assert!(has_millis_boundary("no dot at all é"));
}

#[test]
fn reduced_timestamps_stay_as_they_are() {
    let once = timestamp_millis("2026/08/11 17:23:45.1234567");
    assert!(has_millis_boundary(&once));
    assert_eq!(timestamp_millis(&once), once);
}

#[test]
fn an_event_is_seven_tab_separated_fields() {
    assert_eq!(
        format_event(&record()),
        "2026-08-11 17:23:45.123\tProcess Create\t4321\t10\tC:\\Program Files\\a b.exe\tC:\\work dir\ta b.exe --x \"1 2\""
    );
}

#[test]
fn absent_fields_are_empty_and_an_unknown_parent_is_zero() {
    let ev = EventRecord {
        date_precise: "1".to_string(),
        operation_name: String::new(),
        subject_pid: u32::MAX,
        subject_parent_pid: None,
        subject_image_path: None,
        working_directory: None,
        subject_command_line: None,
    };
    assert_eq!(format_event(&ev), "1\t\t4294967295\t0\t\t\t");
}

#[test]
fn captured_strings_cannot_add_fields_or_lines() {
    let mut ev = record();
    ev.operation_name = "x\ty".to_string();
    ev.subject_image_path = Some("a\nb".to_string());
    ev.working_directory = Some("c\rd".to_string());
    ev.subject_command_line = Some("e\u{85}f\t\t".to_string());
    let line = format_event(&ev);
    let fields: Vec<&str> = line.split('\t').collect();
    assert_eq!(
        fields,
        vec!["2026-08-11 17:23:45.123", "x y", "4321", "10", "a b", "c d", "e f  "]
    );
    assert!(line.chars().all(|c| c == '\t' || !c.is_control()));
}

#[test]
fn written_lines_read_back() {
    let mut out = b"before ".to_vec();
    write_line(&mut out, "").unwrap();
    write_line(&mut out, "zwei é").unwrap();
    write_line(&mut out, &format_event(&record())).unwrap();
    let text = String::from_utf8(out).unwrap();
    let lines: Vec<&str> = text.split('\n').collect();
    assert_eq!(lines.len(), 4);
    assert_eq!(lines[0], "before ");
    assert_eq!(lines[1], "zwei é");
    assert_eq!(lines[2], format_event(&record()));
    assert_eq!(lines[3], "");
}

#[test]
fn only_a_written_line_is_flushed() {
    assert!(matches!(after_write::<u8>(Ok(())), AfterWrite::Flush));
    assert!(matches!(after_write(Err(6u8)), AfterWrite::Fail(6)));
}
