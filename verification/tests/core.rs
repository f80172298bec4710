use pask::cl::Add;
use pask::Task;
use pask::Tasks;
use pask::TimeParseError;

fn timed(desc: &str, hour: u8, minute: u8) -> Task {
    Task {
        desc: desc.to_string(),
        start_time: Some((hour, minute)),
        end_time: None,
        completed: false,
    }
}

fn untimed(desc: &str) -> Task {
    Task { desc: desc.to_string(), start_time: None, end_time: None, completed: false }
}

#[test]
fn parse_time_valid() {
    assert_eq!(pask::parse_time("9:5"), Ok((9, 5)));
    assert_eq!(pask::parse_time("09:05"), Ok((9, 5)));
    assert_eq!(pask::parse_time("23:59"), Ok((23, 59)));
    assert_eq!(pask::parse_time("0:0"), Ok((0, 0)));
    // Syntactically valid: range checking is the caller's business.
    assert_eq!(pask::parse_time("99:99"), Ok((99, 99)));
}

#[test]
fn parse_time_malformed_format() {
    assert_eq!(pask::parse_time("905"), Err(TimeParseError::MalformedFormat));
    assert_eq!(pask::parse_time("9:5:3"), Err(TimeParseError::MalformedFormat));
    assert_eq!(pask::parse_time(""), Err(TimeParseError::MalformedFormat));
}

#[test]
fn parse_time_invalid_digit_count() {
    assert_eq!(pask::parse_time("123:45"), Err(TimeParseError::InvalidDigitCount));
    assert_eq!(pask::parse_time("12:345"), Err(TimeParseError::InvalidDigitCount));
    assert_eq!(pask::parse_time("9:"), Err(TimeParseError::InvalidDigitCount));
    assert_eq!(pask::parse_time(":5"), Err(TimeParseError::InvalidDigitCount));
}

#[test]
fn parse_time_not_a_number() {
    assert_eq!(pask::parse_time("9a:5"), Err(TimeParseError::NotANumber));
    assert_eq!(pask::parse_time("12:5x"), Err(TimeParseError::NotANumber));
    assert_eq!(pask::parse_time("+5:10"), Err(TimeParseError::NotANumber));
}

#[test]
fn string_to_time_matches_parse_time() {
    assert_eq!(pask::string_to_time("7:30".to_string()), Ok((7, 30)));
    assert_eq!(
        pask::string_to_time("7.30".to_string()),
        Err(TimeParseError::MalformedFormat)
    );
}

#[test]
fn from_add_parses_times() {
    let task = Task::from_add(Add {
        desc: "gym".to_string(),
        start_time: Some("9:5".to_string()),
        end_time: None,
    })
    .unwrap();
    // "9:5" renders back zero-padded.
    assert_eq!(task.render(), "[ ] gym 09:05");
}

#[test]
fn from_add_propagates_first_error() {
    let r = Task::from_add(Add {
        desc: "gym".to_string(),
        start_time: Some("bad".to_string()),
        end_time: Some("7:00".to_string()),
    });
    assert_eq!(r.err(), Some(TimeParseError::MalformedFormat));
    let r = Task::from_add(Add {
        desc: "gym".to_string(),
        start_time: Some("7:00".to_string()),
        end_time: Some("12:3:4".to_string()),
    });
    assert_eq!(r.err(), Some(TimeParseError::MalformedFormat));
}

#[test]
fn new_task_is_empty_draft() {
    let t = Task::new();
    assert_eq!(t.desc, "");
    assert_eq!(t.start_time, None);
    assert_eq!(t.end_time, None);
    assert!(!t.completed);
}

#[test]
fn toggle_completed_twice_restores() {
    let mut t = untimed("x");
    t.toggle_completed();
    assert!(t.completed);
    t.toggle_completed();
    assert!(!t.completed);
}

#[test]
fn render_shapes() {
    let mut both = timed("meet", 7, 0);
    both.end_time = Some((8, 30));
    assert_eq!(both.render(), "[ ] meet 07:00 - 08:30");
    assert_eq!(timed("gym", 9, 5).render(), "[ ] gym 09:05");
    assert_eq!(untimed("shop").render(), "[ ] shop");
    let mut done = untimed("shop");
    done.completed = true;
    assert_eq!(done.render(), "[x] shop");
}

#[test]
fn add_sorts_by_time_untimed_last() {
    let mut tasks = Tasks::new();
    tasks.add_task(timed("lunch", 12, 0));
    tasks.add_task(untimed("inbox"));
    tasks.add_task(timed("gym", 7, 0));
    tasks.add_task(timed("review", 9, 15));
    assert_eq!(
        tasks.render(),
        "[ ] gym 07:00\n[ ] review 09:15\n[ ] lunch 12:00\n[ ] inbox"
    );
}

#[test]
fn add_is_stable_for_equal_times() {
    let mut tasks = Tasks::new();
    tasks.add_task(timed("first", 10, 0));
    tasks.add_task(timed("second", 10, 0));
    tasks.add_task(untimed("alpha"));
    tasks.add_task(untimed("beta"));
    assert_eq!(
        tasks.render(),
        "[ ] first 10:00\n[ ] second 10:00\n[ ] alpha\n[ ] beta"
    );
}

#[test]
fn delete_by_description() {
    let mut tasks = Tasks::new();
    tasks.add_task(timed("gym", 7, 0));
    tasks.add_task(timed("lunch", 12, 0));
    tasks.del_task("gym".to_string());
    assert_eq!(tasks.render(), "[ ] lunch 12:00");
}

#[test]
fn delete_removes_last_match() {
    let mut tasks = Tasks::new();
    tasks.add_task(timed("x", 7, 0));
    tasks.add_task(timed("x", 12, 0));
    tasks.del_task("x".to_string());
    assert_eq!(tasks.render(), "[ ] x 07:00");
}

#[test]
fn delete_missing_is_noop() {
    let mut tasks = Tasks::new();
    tasks.add_task(timed("gym", 7, 0));
    tasks.del_task("swim".to_string());
    assert_eq!(tasks.len(), 1);
    assert_eq!(tasks.render(), "[ ] gym 07:00");
}

#[test]
fn complete_by_description_sets_flag() {
    let mut tasks = Tasks::new();
    tasks.add_task(timed("gym", 7, 0));
    tasks.complete_task("gym".to_string());
    assert_eq!(tasks.render(), "[x] gym 07:00");
    // Completing again keeps it completed: it is a set, not a toggle.
    tasks.complete_task("gym".to_string());
    assert_eq!(tasks.render(), "[x] gym 07:00");
}

#[test]
fn complete_by_description_marks_last_match() {
    let mut tasks = Tasks::new();
    tasks.add_task(timed("x", 7, 0));
    tasks.add_task(timed("x", 12, 0));
    tasks.complete_task("x".to_string());
    assert_eq!(tasks.render(), "[ ] x 07:00\n[x] x 12:00");
}

#[test]
fn complete_by_index_toggles() {
    let mut tasks = Tasks::new();
    tasks.add_task(timed("gym", 7, 0));
    tasks.complete_task_idx(0);
    assert!(tasks.get(0).completed);
    tasks.complete_task_idx(0);
    assert!(!tasks.get(0).completed);
}

#[test]
fn delete_by_index() {
    let mut tasks = Tasks::new();
    tasks.add_task(timed("gym", 7, 0));
    tasks.add_task(timed("lunch", 12, 0));
    tasks.del_task_idx(0);
    assert_eq!(tasks.render(), "[ ] lunch 12:00");
}

#[test]
fn sort_tasks_orders_and_keeps_ties_stable() {
    let mut tasks = Tasks {
        tasks: vec![
            untimed("inbox"),
            timed("b", 10, 0),
            timed("a", 10, 0),
            timed("early", 6, 45),
        ],
    };
    tasks.sort_tasks();
    assert_eq!(
        tasks.render(),
        "[ ] early 06:45\n[ ] b 10:00\n[ ] a 10:00\n[ ] inbox"
    );
}

#[test]
fn render_empty_collection() {
    let tasks = Tasks::new();
    assert!(tasks.is_empty());
    assert_eq!(tasks.render(), "");
}
