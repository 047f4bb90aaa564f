use timetui::model::{status_from_name, status_name, Status, Task};
use timetui::text::{pop_char, push_char, str_eq, trim_str};
use timetui::ui::status_emoji;

#[test]
fn trim_removes_leading_and_trailing_whitespace() {
    assert_eq!(trim_str("  Buy milk  "), "Buy milk");
    assert_eq!(trim_str("\t\n hi \r\n"), "hi");
    assert_eq!(trim_str("nothing-to-do"), "nothing-to-do");
}

#[test]
fn trim_of_blank_is_empty() {
    assert_eq!(trim_str(""), "");
    assert_eq!(trim_str("   \t\n  "), "");
}

#[test]
fn trim_handles_unicode_whitespace() {
    assert_eq!(trim_str("\u{3000}x\u{2028}"), "x");
    assert_eq!(trim_str("\u{a0}\u{1680}a b\u{205f}"), "a b");
}

#[test]
fn trim_keeps_inner_whitespace() {
    assert_eq!(trim_str("  a  b  "), "a  b");
}

#[test]
fn str_eq_compares_by_characters() {
    assert!(str_eq("abc", "abc"));
    assert!(!str_eq("abc", "abd"));
    assert!(!str_eq("abc", "abcd"));
    assert!(str_eq("", ""));
    assert!(str_eq("héllo", "héllo"));
}

#[test]
fn push_char_appends() {
    let mut s = String::from("ab");
    push_char(&mut s, 'c');
    assert_eq!(s, "abc");
}

#[test]
fn pop_char_removes_last_character() {
    let mut s = String::from("hé");
    assert_eq!(pop_char(&mut s), Some('é'));
    assert_eq!(s, "h");
    assert_eq!(pop_char(&mut s), Some('h'));
    assert_eq!(pop_char(&mut s), None);
    assert_eq!(s, "");
}

#[test]
fn status_names_round_trip() {
    for s in [Status::Todo, Status::Doing, Status::Done, Status::Archived] {
        assert_eq!(status_from_name(status_name(&s)), s);
    }
}

#[test]
fn unknown_status_name_falls_back_to_todo() {
    assert_eq!(status_from_name("Paused"), Status::Todo);
    assert_eq!(status_from_name(""), Status::Todo);
}

#[test]
fn status_emoji_per_status() {
    assert_eq!(status_emoji(&Status::Todo), "□");
    assert_eq!(status_emoji(&Status::Doing), "▶");
    assert_eq!(status_emoji(&Status::Done), "✓");
    assert_eq!(status_emoji(&Status::Archived), "⎌");
}

#[test]
fn new_task_is_trimmed_todo_with_given_stamp() {
    let t = Task::new("  Buy milk ", 7, 1234, String::from("dev-1"));
    assert_eq!(t.id, 7);
    assert_eq!(t.title, "Buy milk");
    assert_eq!(t.notes, "");
    assert_eq!(t.status, Status::Todo);
    assert_eq!(t.project, "");
    assert_eq!(t.created_at, 1234);
    assert_eq!(t.updated_at, 1234);
    assert_eq!(t.deleted_at, None);
    assert_eq!(t.updated_by, "dev-1");
}
