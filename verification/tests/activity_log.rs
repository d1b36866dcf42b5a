use zen::activity_log::{format_log_line, needs_rotation, new_log_line, read_log, rotate};
use zen::clock::time_text;

#[test]
fn log_line_format() {
    assert_eq!(
        format_log_line("2026-01-02 03:04:05", "cli", "create", "myenv"),
        "2026-01-02 03:04:05 [cli] create myenv\n"
    );
    assert_eq!(format_log_line("", "", "", ""), " []  \n");
}

#[test]
fn rotation_threshold() {
    assert!(!needs_rotation(0));
    assert!(!needs_rotation(100_000));
    assert!(needs_rotation(100_001));
}

#[test]
fn rotation_keeps_the_last_thousand_lines() {
    let mut content = String::new();
    for i in 0..1003 {
        content.push_str(&format!("line {}\n", i));
    }
    let kept = rotate(&content).unwrap();
    assert_eq!(kept.lines().count(), 1000);
    assert!(kept.starts_with("line 3\n"));
    assert!(kept.ends_with("line 1002\n"));

    let mut short = String::new();
    for i in 0..1000 {
        short.push_str(&format!("line {}\n", i));
    }
    assert_eq!(rotate(&short), None);
    assert_eq!(rotate(""), None);
}

#[test]
fn reading_the_tail() {
    let content = "a one\nb TWO\nc three\nd two\n";
    assert_eq!(read_log(content, 2, None), vec!["c three", "d two"]);
    assert_eq!(read_log(content, 10, None).len(), 4);
    assert_eq!(read_log(content, 10, Some("two")), vec!["b TWO", "d two"]);
    assert_eq!(read_log(content, 1, Some("Two")), vec!["d two"]);
    assert!(read_log(content, 0, None).is_empty());
    assert!(read_log(content, 5, Some("nothing")).is_empty());
    assert!(read_log("", 5, None).is_empty());
}

#[test]
fn new_lines_carry_the_local_time() {
    let line = new_log_line("cli", "create", "myenv");
    assert!(line.ends_with(" [cli] create myenv\n"));
    let stamp = &line[..line.len() - " [cli] create myenv\n".len()];
    assert!(stamp.len() >= 19);
    assert_eq!(stamp.matches('-').count() >= 2, true);
    assert_eq!(stamp.matches(':').count(), 2);
}

#[test]
fn times_as_text() {
    assert_eq!(time_text(None, false), None);
    assert_eq!(time_text(None, true), None);
    let minute = time_text(Some(86_400 * 365), false).unwrap();
    assert_eq!(minute.len(), 16);
    assert!(minute.starts_with("19"));
    let day = time_text(Some(86_400 * 365), true).unwrap();
    assert_eq!(day.len(), 10);
    assert!(minute.starts_with(&day));
    assert_eq!(time_text(Some(i64::MAX), false), None);
}

#[test]
fn times_have_text_within_the_calendar() {
    let first = zen::clock::FIRST_SECOND;
    let last = zen::clock::LAST_SECOND;
    assert_eq!(first, -8_334_601_228_800);
    assert_eq!(last, 8_210_266_876_799);
    for day_only in [false, true] {
        assert!(time_text(Some(first), day_only).is_some());
        assert!(time_text(Some(last), day_only).is_some());
        assert!(time_text(Some(0), day_only).is_some());
        assert!(time_text(Some(-1), day_only).is_some());
        assert_eq!(time_text(Some(first - 1), day_only), None);
        assert_eq!(time_text(Some(last + 1), day_only), None);
        assert_eq!(time_text(Some(i64::MIN), day_only), None);
        assert_eq!(time_text(Some(i64::MAX), day_only), None);
    }
}
