use timetui::app::{AddField, App, KeyCode, KeyEvent, Mode, Step, StoreOp};
use timetui::model::{Status, Task};
use timetui::store::{Db, StoreError};

fn key(code: KeyCode) -> KeyEvent {
    KeyEvent { code, ctrl: false, alt: false }
}

fn ctrl(c: char) -> KeyEvent {
    KeyEvent { code: KeyCode::Char(c), ctrl: true, alt: false }
}

fn seeded_app(titles_and_stamps: &[(u128, &str, i64)]) -> App {
    let mut db = Db::init();
    for (id, title, at) in titles_and_stamps {
        let t = Task::new(title, *id, *at, String::from("dev-1"));
        assert!(db.insert_task(&t).is_ok());
    }
    App::init(db, String::from("dev-1"))
}

fn type_chars(app: &mut App, s: &str, now: i64, id: u128) {
    for c in s.chars() {
        assert!(app.on_key_adding(key(KeyCode::Char(c)), now, id).is_ok());
    }
}

#[test]
fn scenario_add_task_with_title_and_notes() {
    let mut app = seeded_app(&[]);
    assert_eq!(app.tasks.len(), 0);
    let step = app.on_key_normal(key(KeyCode::Char('a')), 100);
    assert!(!step.quit);
    assert!(matches!(app.mode, Mode::Adding(_)));
    type_chars(&mut app, "Buy milk", 100, 1);
    assert!(app.on_key_adding(key(KeyCode::Tab), 100, 1).is_ok());
    type_chars(&mut app, "2%", 100, 1);
    let r = app.on_key_adding(key(KeyCode::Enter), 100, 1).unwrap();
    assert!(!r.quit);
    match r.op {
        Some(StoreOp::Inserted(t)) => {
            assert_eq!(t.title, "Buy milk");
            assert_eq!(t.notes, "2%");
        }
        _ => panic!("expected an insertion to replay"),
    }
    assert!(matches!(app.mode, Mode::Normal));
    assert_eq!(app.selected, 0);
    assert_eq!(app.tasks.len(), 1);
    assert_eq!(app.tasks[0].title, "Buy milk");
    assert_eq!(app.tasks[0].notes, "2%");
    assert_eq!(app.tasks[0].status, Status::Todo);
}

#[test]
fn scenario_selection_clamps_at_the_end() {
    let mut app = seeded_app(&[(1, "a", 10), (2, "b", 20)]);
    assert_eq!(app.tasks.len(), 2);
    assert_eq!(app.selected, 0);
    app.on_key_normal(key(KeyCode::Down), 0);
    assert_eq!(app.selected, 1);
    app.on_key_normal(key(KeyCode::Down), 0);
    assert_eq!(app.selected, 1);
    app.on_key_normal(key(KeyCode::Char('j')), 0);
    assert_eq!(app.selected, 1);
}

#[test]
fn selection_clamps_at_the_top() {
    let mut app = seeded_app(&[(1, "a", 10), (2, "b", 20)]);
    app.on_key_normal(key(KeyCode::Up), 0);
    assert_eq!(app.selected, 0);
    app.on_key_normal(key(KeyCode::Char('k')), 0);
    assert_eq!(app.selected, 0);
}

#[test]
fn scenario_deleting_the_last_task_moves_selection_up() {
    let mut app = seeded_app(&[(1, "a", 10), (2, "b", 20), (3, "c", 30)]);
    app.on_key_normal(key(KeyCode::Down), 0);
    app.on_key_normal(key(KeyCode::Down), 0);
    assert_eq!(app.selected, 2);
    let step = app.on_key_normal(key(KeyCode::Char('x')), 99);
    assert_eq!(app.tasks.len(), 2);
    assert_eq!(app.selected, 1);
    match step.op {
        Some(StoreOp::Deleted(id, at)) => {
            // the last row by updated-at descending is the oldest task
            assert_eq!(id, 1);
            assert_eq!(at, 99);
        }
        _ => panic!("expected a deletion to replay"),
    }
}

#[test]
fn deleting_in_an_empty_list_does_nothing() {
    let mut app = seeded_app(&[]);
    let step = app.on_key_normal(key(KeyCode::Char('x')), 99);
    assert!(step.op.is_none());
    assert!(!step.quit);
    assert_eq!(app.tasks.len(), 0);
    assert_eq!(app.selected, 0);
}

#[test]
fn scenario_backspace_empties_title_and_blank_enter_adds_nothing() {
    let mut app = seeded_app(&[]);
    app.on_key_normal(key(KeyCode::Char('a')), 0);
    type_chars(&mut app, "Hi", 0, 1);
    assert!(app.on_key_adding(key(KeyCode::Backspace), 0, 1).is_ok());
    assert!(app.on_key_adding(key(KeyCode::Backspace), 0, 1).is_ok());
    match &app.mode {
        Mode::Adding(form) => assert_eq!(form.title, ""),
        _ => panic!("still adding"),
    }
    let r = app.on_key_adding(key(KeyCode::Enter), 0, 1).unwrap();
    assert!(r.op.is_none());
    assert!(matches!(app.mode, Mode::Adding(_)));
    assert_eq!(app.tasks.len(), 0);
}

#[test]
fn control_h_works_as_backspace() {
    let mut app = seeded_app(&[]);
    app.on_key_normal(key(KeyCode::Char('a')), 0);
    type_chars(&mut app, "ab", 0, 1);
    assert!(app.on_key_adding(ctrl('h'), 0, 1).is_ok());
    match &app.mode {
        Mode::Adding(form) => assert_eq!(form.title, "a"),
        _ => panic!("still adding"),
    }
}

#[test]
fn modified_characters_are_not_typed() {
    let mut app = seeded_app(&[]);
    app.on_key_normal(key(KeyCode::Char('a')), 0);
    assert!(app.on_key_adding(ctrl('z'), 0, 1).is_ok());
    let alt = KeyEvent { code: KeyCode::Char('y'), ctrl: false, alt: true };
    assert!(app.on_key_adding(alt, 0, 1).is_ok());
    match &app.mode {
        Mode::Adding(form) => assert_eq!(form.title, ""),
        _ => panic!("still adding"),
    }
}

#[test]
fn tab_and_backtab_toggle_the_focused_field() {
    let mut app = seeded_app(&[]);
    app.on_key_normal(key(KeyCode::Char('a')), 0);
    match &app.mode {
        Mode::Adding(form) => assert_eq!(form.field, AddField::Title),
        _ => panic!("adding"),
    }
    assert!(app.on_key_adding(key(KeyCode::Tab), 0, 1).is_ok());
    match &app.mode {
        Mode::Adding(form) => assert_eq!(form.field, AddField::Notes),
        _ => panic!("adding"),
    }
    assert!(app.on_key_adding(key(KeyCode::BackTab), 0, 1).is_ok());
    match &app.mode {
        Mode::Adding(form) => assert_eq!(form.field, AddField::Title),
        _ => panic!("adding"),
    }
}

#[test]
fn escape_discards_the_form_and_leaves_no_orphan() {
    let mut app = seeded_app(&[]);
    app.on_key_normal(key(KeyCode::Char('a')), 0);
    type_chars(&mut app, "half-typed", 0, 1);
    assert!(app.on_key_adding(key(KeyCode::Esc), 0, 1).is_ok());
    assert!(matches!(app.mode, Mode::Normal));
    assert_eq!(app.tasks.len(), 0);
    assert_eq!(app.db.list_active_tasks().len(), 0);
}

#[test]
fn titles_are_trimmed_on_confirm() {
    let mut app = seeded_app(&[]);
    app.on_key_normal(key(KeyCode::Char('a')), 0);
    type_chars(&mut app, "  spaced out  ", 5, 1);
    let r = app.on_key_adding(key(KeyCode::Enter), 5, 1).unwrap();
    assert!(r.op.is_some());
    assert_eq!(app.tasks.len(), 1);
    assert_eq!(app.tasks[0].title, "spaced out");
}

#[test]
fn inserting_a_known_identifier_fails_and_keeps_the_form() {
    let mut app = seeded_app(&[(7, "already here", 10)]);
    app.on_key_normal(key(KeyCode::Char('a')), 0);
    type_chars(&mut app, "again", 20, 7);
    let r = app.on_key_adding(key(KeyCode::Enter), 20, 7);
    assert_eq!(r.err(), Some(StoreError::DuplicateId));
    match &app.mode {
        Mode::Adding(form) => assert_eq!(form.title, "again"),
        _ => panic!("the form survives the failure"),
    }
    assert_eq!(app.tasks.len(), 1);
}

#[test]
fn quit_key_signals_exit_only_in_normal_mode() {
    let mut app = seeded_app(&[]);
    let step = app.on_key_normal(key(KeyCode::Char('q')), 0);
    assert!(step.quit);
    app.on_key_normal(key(KeyCode::Char('a')), 0);
    let r = app.on_key_adding(key(KeyCode::Char('q')), 0, 1).unwrap();
    assert!(!r.quit);
    match &app.mode {
        Mode::Adding(form) => assert_eq!(form.title, "q"),
        _ => panic!("adding"),
    }
}

#[test]
fn on_key_dispatches_by_mode() {
    let mut app = seeded_app(&[]);
    let r = app.on_key(key(KeyCode::Char('a'))).unwrap();
    assert!(!r.quit);
    assert!(matches!(app.mode, Mode::Adding(_)));
    let r = app.on_key(key(KeyCode::Esc)).unwrap();
    assert!(!r.quit);
    assert!(matches!(app.mode, Mode::Normal));
    let r = app.on_key(key(KeyCode::Char('q'))).unwrap();
    assert!(r.quit);
}

#[test]
fn tick_changes_nothing() {
    let mut app = seeded_app(&[(1, "a", 10)]);
    app.tick();
    assert_eq!(app.tasks.len(), 1);
    assert_eq!(app.selected, 0);
    assert!(matches!(app.mode, Mode::Normal));
}

#[test]
fn scenario_restart_lists_the_same_tasks_under_a_new_device() {
    let first_device = uuid::Uuid::new_v4().to_string();
    let second_device = uuid::Uuid::new_v4().to_string();
    assert_ne!(first_device, second_device);

    let mut db = Db::init();
    for (id, title, at) in [(1u128, "persisted", 10i64), (2, "kept", 20)] {
        let t = Task::new(title, id, at, first_device.clone());
        assert!(db.insert_task(&t).is_ok());
    }
    let app = App::init(db, first_device.clone());
    let before: Vec<(u128, String)> =
        app.tasks.iter().map(|t| (t.id, t.title.clone())).collect();

    // a fresh process replays the same durable rows into a fresh store
    let mut replayed = Db::init();
    for t in app.db.list_active_tasks() {
        assert!(replayed.insert_task(&t).is_ok());
    }
    let restarted = App::init(replayed, second_device.clone());
    let after: Vec<(u128, String)> =
        restarted.tasks.iter().map(|t| (t.id, t.title.clone())).collect();
    assert_eq!(before, after);
    assert_eq!(restarted.tasks[0].updated_by, first_device);
    assert_ne!(restarted.device, app.device);
}

#[test]
fn step_reports_the_write_to_replay() {
    let mut app = seeded_app(&[]);
    app.on_key_normal(key(KeyCode::Char('a')), 0);
    type_chars(&mut app, "note me", 42, 9);
    let Step { quit, op } = app.on_key_adding(key(KeyCode::Enter), 42, 9).unwrap();
    assert!(!quit);
    match op {
        Some(StoreOp::Inserted(t)) => {
            assert_eq!(t.id, 9);
            assert_eq!(t.created_at, 42);
            assert_eq!(t.updated_at, 42);
            assert_eq!(t.updated_by, "dev-1");
        }
        _ => panic!("expected an insertion to replay"),
    }
}
