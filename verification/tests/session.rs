use pask::AppInfo;
use pask::CursorAt;
use pask::InputMode;
use pask::Key;
use pask::Task;
use pask::Tasks;

fn timed(desc: &str, hour: u8, minute: u8) -> Task {
    Task {
        desc: desc.to_string(),
        start_time: Some((hour, minute)),
        end_time: None,
        completed: false,
    }
}

fn three_tasks() -> Tasks {
    let mut tasks = Tasks::new();
    tasks.add_task(timed("a", 7, 0));
    tasks.add_task(timed("b", 9, 0));
    tasks.add_task(timed("c", 11, 0));
    tasks
}

fn type_text(app: &mut AppInfo, text: &str) {
    for c in text.chars() {
        assert!(!app.handle_key(Key::Char(c)));
    }
}

#[test]
fn insert_commit_escape_scenario() {
    let mut app = AppInfo::new(Tasks::new());
    assert_eq!(app.mode, InputMode::Normal);
    assert!(!app.handle_key(Key::Char('i')));
    assert_eq!(app.mode, InputMode::Insert);
    type_text(&mut app, "call mom");
    assert!(!app.handle_key(Key::Enter));
    assert!(!app.handle_key(Key::Esc));
    assert_eq!(app.mode, InputMode::Normal);
    assert_eq!(app.tasks.len(), 1);
    assert_eq!(app.tasks.get(0).desc, "call mom");
    assert_eq!(app.tasks.get(0).start_time, None);
    assert_eq!(app.tasks.get(0).end_time, None);
    assert!(!app.tasks.get(0).completed);
    // The draft was reset when it was committed.
    assert_eq!(app.task.desc, "");
}

#[test]
fn backspace_edits_draft() {
    let mut app = AppInfo::new(Tasks::new());
    app.handle_key(Key::Char('i'));
    type_text(&mut app, "abc");
    app.handle_key(Key::Backspace);
    assert_eq!(app.task.desc, "ab");
    app.handle_key(Key::Backspace);
    app.handle_key(Key::Backspace);
    assert_eq!(app.task.desc, "");
    // Backspace on an empty draft is a no-op.
    app.handle_key(Key::Backspace);
    assert_eq!(app.task.desc, "");
}

#[test]
fn quit_only_from_normal() {
    let mut app = AppInfo::new(Tasks::new());
    app.handle_key(Key::Char('i'));
    // In insert mode 'q' is text, not a quit.
    assert!(!app.handle_key(Key::Char('q')));
    assert_eq!(app.task.desc, "q");
    app.handle_key(Key::Esc);
    assert!(app.handle_key(Key::Char('q')));
    assert_eq!(app.mode, InputMode::Normal);
}

#[test]
fn unmapped_keys_are_noops() {
    let mut app = AppInfo::new(three_tasks());
    assert!(!app.handle_key(Key::Other));
    assert!(!app.handle_key(Key::Char('z')));
    assert_eq!(app.mode, InputMode::Normal);
    assert_eq!(app.tasks.len(), 3);
    assert_eq!(app.cursor_row, 0);
}

#[test]
fn cursor_stops_at_bottom() {
    let mut app = AppInfo::new(three_tasks());
    app.handle_key(Key::Char('e'));
    assert_eq!(app.mode, InputMode::Edit);
    app.handle_key(Key::Char('j'));
    app.handle_key(Key::Char('j'));
    assert_eq!(app.cursor_row, 2);
    app.handle_key(Key::Char('j'));
    assert_eq!(app.cursor_row, 2);
    app.handle_key(Key::Down);
    assert_eq!(app.cursor_row, 2);
}

#[test]
fn cursor_stops_at_top() {
    let mut app = AppInfo::new(three_tasks());
    app.handle_key(Key::Char('e'));
    app.handle_key(Key::Down);
    assert_eq!(app.cursor_row, 1);
    app.handle_key(Key::Up);
    assert_eq!(app.cursor_row, 0);
    app.handle_key(Key::Up);
    assert_eq!(app.cursor_row, 0);
    app.handle_key(Key::Char('k'));
    assert_eq!(app.cursor_row, 0);
}

#[test]
fn delete_last_task_keeps_cursor_at_zero() {
    let mut tasks = Tasks::new();
    tasks.add_task(timed("only", 7, 0));
    let mut app = AppInfo::new(tasks);
    app.handle_key(Key::Char('e'));
    assert!(!app.handle_key(Key::Char('d')));
    assert_eq!(app.tasks.len(), 0);
    assert_eq!(app.cursor_row, 0);
    // Deleting from an empty collection is a no-op.
    assert!(!app.handle_key(Key::Char('d')));
    assert_eq!(app.tasks.len(), 0);
}

#[test]
fn delete_moves_cursor_up() {
    let mut app = AppInfo::new(three_tasks());
    app.handle_key(Key::Char('e'));
    app.handle_key(Key::Char('j'));
    app.handle_key(Key::Char('j'));
    app.handle_key(Key::Char('d'));
    assert_eq!(app.tasks.len(), 2);
    assert_eq!(app.cursor_row, 1);
    assert_eq!(app.tasks.render(), "[ ] a 07:00\n[ ] b 09:00");
}

#[test]
fn enter_in_edit_toggles_completion() {
    let mut app = AppInfo::new(three_tasks());
    app.handle_key(Key::Char('e'));
    app.handle_key(Key::Char('j'));
    app.handle_key(Key::Enter);
    assert!(app.tasks.get(1).completed);
    app.handle_key(Key::Enter);
    assert!(!app.tasks.get(1).completed);
}

#[test]
fn escape_from_edit_resets_cursor() {
    let mut app = AppInfo::new(three_tasks());
    app.handle_key(Key::Char('e'));
    app.handle_key(Key::Char('j'));
    assert_eq!(app.cursor_row, 1);
    app.handle_key(Key::Esc);
    assert_eq!(app.mode, InputMode::Normal);
    assert_eq!(app.cursor_row, 0);
}

#[test]
fn committed_draft_is_sorted_in() {
    let mut app = AppInfo::new(three_tasks());
    app.handle_key(Key::Char('i'));
    type_text(&mut app, "inbox item");
    app.handle_key(Key::Enter);
    // A draft has no start time, so it sorts after every timed task.
    assert_eq!(
        app.tasks.render(),
        "[ ] a 07:00\n[ ] b 09:00\n[ ] c 11:00\n[ ] inbox item"
    );
}

#[test]
fn view_model_reflects_state() {
    let mut app = AppInfo::new(three_tasks());
    let vm = app.view_model();
    assert_eq!(vm.mode, InputMode::Normal);
    assert_eq!(vm.cursor, CursorAt::Hidden);
    assert_eq!(vm.task_lines.len(), 3);
    assert_eq!(vm.task_lines[0], "[ ] a 07:00");
    assert!(vm.help.contains("q to exit"));

    app.handle_key(Key::Char('e'));
    app.handle_key(Key::Char('j'));
    let vm = app.view_model();
    assert_eq!(vm.mode, InputMode::Edit);
    assert_eq!(vm.cursor, CursorAt::TaskList { row: 1 });
    assert!(vm.help.contains("d to delete"));
}

#[test]
fn view_model_cursor_tracks_draft_width() {
    let mut app = AppInfo::new(Tasks::new());
    app.handle_key(Key::Char('i'));
    type_text(&mut app, "ab");
    let vm = app.view_model();
    assert_eq!(vm.input, "ab");
    assert_eq!(vm.cursor, CursorAt::InputLine { col: 2 });
    assert!(vm.help.contains("Enter to record"));

    // A full-width character occupies two display columns.
    app.handle_key(Key::Backspace);
    app.handle_key(Key::Backspace);
    app.handle_key(Key::Char('漢'));
    let vm = app.view_model();
    assert_eq!(vm.cursor, CursorAt::InputLine { col: 2 });
}
