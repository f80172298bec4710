//! The interactive session: a mode-driven state machine that turns key
//! events into mutations of the task collection and produces a
//! render-ready view model each step.  It never fails; out-of-range
//! requests are no-ops by policy.

use vstd::prelude::*;

use crate::task::render_task;
use crate::task::Task;
use crate::task::TaskView;
use crate::tasks::insert_sorted;
use crate::tasks::Tasks;

verus! {

/// The interaction mode of the session.
#[derive(Clone, Copy, Debug, PartialEq, Eq, Structural)]
pub enum InputMode {
    Normal,
    Insert,
    Edit,
}

/// One key event, as the terminal driver hands it over.  Keys the
/// session does not map are `Other`.
#[derive(Clone, Copy, Debug)]
pub enum Key {
    Char(char),
    Enter,
    Backspace,
    Esc,
    Up,
    Down,
    Other,
}

/// The live state of an interactive session.
pub struct AppInfo {
    /// The draft task under construction in insert mode.
    pub task: Task,
    /// The collection being edited.
    pub tasks: Tasks,
    /// The current interaction mode.
    pub mode: InputMode,
    /// The selected row while in edit mode.
    pub cursor_row: usize,
}

/// The mathematical value of a session state.
pub ghost struct AppInfoView {
    pub task: TaskView,
    pub tasks: Seq<TaskView>,
    pub mode: InputMode,
    pub cursor_row: int,
}

impl View for AppInfo {
    type V = AppInfoView;

    open spec fn view(&self) -> AppInfoView {
        AppInfoView {
            task: self.task@,
            tasks: self.tasks@,
            mode: self.mode,
            cursor_row: self.cursor_row as int,
        }
    }
}

/// An empty draft task.
pub open spec fn empty_draft() -> TaskView {
    TaskView { desc: Seq::empty(), start_time: None, end_time: None, completed: false }
}

impl AppInfoView {
    /// The session invariant: the cursor stays inside the collection
    /// and rests at zero outside edit mode.
    pub open spec fn wf(self) -> bool {
        &&& self.tasks.len() > 0 ==> 0 <= self.cursor_row < self.tasks.len()
        &&& self.tasks.len() == 0 ==> self.cursor_row == 0
        &&& self.mode != InputMode::Edit ==> self.cursor_row == 0
    }
}

/// The full transition table: what one key event does to the session
/// state, and whether it signals the end of the session loop.
pub open spec fn step_spec(v: AppInfoView, key: Key) -> (AppInfoView, bool) {
    match v.mode {
        InputMode::Normal => match key {
            Key::Char(c) => if c == 'i' {
                ((AppInfoView { mode: InputMode::Insert, ..v }), false)
            } else if c == 'e' {
                ((AppInfoView { mode: InputMode::Edit, ..v }), false)
            } else if c == 'q' {
                (v, true)
            } else {
                (v, false)
            },
            _ => (v, false),
        },
        InputMode::Insert => match key {
            Key::Char(c) => (
                (AppInfoView { task: (TaskView { desc: v.task.desc.push(c), ..v.task }), ..v }),
                false,
            ),
            Key::Backspace => (
                (AppInfoView {
                    task: (TaskView {
                        desc: if v.task.desc.len() > 0 {
                            v.task.desc.drop_last()
                        } else {
                            v.task.desc
                        },
                        ..v.task
                    }),
                    ..v
                }),
                false,
            ),
            Key::Esc => ((AppInfoView { mode: InputMode::Normal, ..v }), false),
            Key::Enter => (
                (AppInfoView {
                    task: empty_draft(),
                    tasks: insert_sorted(v.tasks, v.task),
                    ..v
                }),
                false,
            ),
            _ => (v, false),
        },
        InputMode::Edit => match key {
            Key::Esc => ((AppInfoView { mode: InputMode::Normal, cursor_row: 0, ..v }), false),
            Key::Enter => if v.tasks.len() > 0 {
                (
                    (AppInfoView {
                        tasks: v.tasks.update(
                            v.cursor_row,
                            (TaskView {
                                completed: !v.tasks[v.cursor_row].completed,
                                ..v.tasks[v.cursor_row]
                            }),
                        ),
                        ..v
                    }),
                    false,
                )
            } else {
                (v, false)
            },
            Key::Up => (step_cursor_up(v), false),
            Key::Down => (step_cursor_down(v), false),
            Key::Char(c) => if c == 'd' {
                if v.tasks.len() > 0 {
                    (
                        (AppInfoView {
                            tasks: v.tasks.remove(v.cursor_row),
                            cursor_row: if v.cursor_row > 0 {
                                v.cursor_row - 1
                            } else {
                                0
                            },
                            ..v
                        }),
                        false,
                    )
                } else {
                    (v, false)
                }
            } else if c == 'k' {
                (step_cursor_up(v), false)
            } else if c == 'j' {
                (step_cursor_down(v), false)
            } else {
                (v, false)
            },
            _ => (v, false),
        },
    }
}

pub open spec fn step_cursor_up(v: AppInfoView) -> AppInfoView {
    if v.cursor_row > 0 {
        AppInfoView { cursor_row: v.cursor_row - 1, ..v }
    } else {
        v
    }
}

pub open spec fn step_cursor_down(v: AppInfoView) -> AppInfoView {
    if v.cursor_row + 1 < v.tasks.len() {
        AppInfoView { cursor_row: v.cursor_row + 1, ..v }
    } else {
        v
    }
}

/// Where the rendering surface should place the caret.
#[derive(Clone, Copy, Debug, PartialEq, Eq, Structural)]
pub enum CursorAt {
    /// No visible caret.
    Hidden,
    /// On the input line, `col` display columns in.
    InputLine { col: usize },
    /// On row `row` of the task list region.
    TaskList { row: usize },
}

/// The render-ready snapshot handed to the rendering surface.
pub struct ViewModel {
    pub mode: InputMode,
    pub help: String,
    pub input: String,
    pub task_lines: Vec<String>,
    pub cursor: CursorAt,
}

/// The help line shown for each mode.
pub open spec fn help_text(mode: InputMode) -> Seq<char> {
    match mode {
        InputMode::Normal => "Press q to exit, i to start inserting a task, e to start editing tasks"@,
        InputMode::Insert => "Press Esc to stop inserting, Enter to record the task"@,
        InputMode::Edit => "Press Esc to stop editing, j, k to move the cursor (arrow keys work too), Enter to complete / uncomplete the task, d to delete it"@,
    }
}

impl AppInfo {
    /// A fresh session over `tasks`: normal mode, empty draft, cursor
    /// at the top.
    pub fn new(tasks: Tasks) -> (r: AppInfo)
        ensures
            r@ == (AppInfoView {
                task: empty_draft(),
                tasks: tasks@,
                mode: InputMode::Normal,
                cursor_row: 0,
            }),
            r@.wf(),
    {
        let r = AppInfo { task: Task::new(), tasks, mode: InputMode::Normal, cursor_row: 0 };
        r
    }

    /// Process one key event.  Returns true exactly when the event
    /// signals the end of the session loop (`q` in normal mode).
    pub fn handle_key(&mut self, key: Key) -> (quit: bool)
        requires
            old(self)@.wf(),
        ensures
            final(self)@ == step_spec(old(self)@, key).0,
            quit == step_spec(old(self)@, key).1,
            final(self)@.wf(),
    {
        match self.mode {
            InputMode::Normal => match key {
                Key::Char(c) => {
                    if c == 'i' {
                        self.mode = InputMode::Insert;
                    } else if c == 'e' {
                        self.mode = InputMode::Edit;
                    } else if c == 'q' {
                        return true;
                    }
                    false
                },
                _ => false,
            },
            InputMode::Insert => match key {
                Key::Char(c) => {
                    push_char(&mut self.task.desc, c);
                    false
                },
                Key::Backspace => {
                    let _ = pop_char(&mut self.task.desc);
                    false
                },
                Key::Esc => {
                    self.mode = InputMode::Normal;
                    false
                },
                Key::Enter => {
                    let draft = self.task.duplicate();
                    self.tasks.add_task(draft);
                    self.task = Task::new();
                    false
                },
                _ => false,
            },
            InputMode::Edit => match key {
                Key::Esc => {
                    self.mode = InputMode::Normal;
                    self.cursor_row = 0;
                    false
                },
                Key::Enter => {
                    if self.tasks.len() > 0 {
                        self.tasks.complete_task_idx(self.cursor_row);
                    }
                    false
                },
                Key::Up => {
                    if self.cursor_row > 0 {
                        self.cursor_row = self.cursor_row - 1;
                    }
                    false
                },
                Key::Down => {
                    let n = self.tasks.len();
                    if n > 0 && self.cursor_row < n - 1 {
                        self.cursor_row = self.cursor_row + 1;
                    }
                    false
                },
                Key::Char(c) => {
                    if c == 'd' {
                        if self.tasks.len() > 0 {
                            self.tasks.del_task_idx(self.cursor_row);
                            if self.cursor_row > 0 {
                                self.cursor_row = self.cursor_row - 1;
                            }
                        }
                    } else if c == 'k' {
                        if self.cursor_row > 0 {
                            self.cursor_row = self.cursor_row - 1;
                        }
                    } else if c == 'j' {
                        let n = self.tasks.len();
                        if n > 0 && self.cursor_row < n - 1 {
                            self.cursor_row = self.cursor_row + 1;
                        }
                    }
                    false
                },
                _ => false,
            },
        }
    }

    /// The render-ready view of the current state: mode, help line,
    /// draft text, rendered task lines, and where the caret sits.
    pub fn view_model(&self) -> (vm: ViewModel)
        ensures
            vm.mode == self@.mode,
            vm.help@ == help_text(self@.mode),
            vm.input@ == self@.task.desc,
            vm.task_lines@.len() == self@.tasks.len(),
            forall|i: int|
                0 <= i < self@.tasks.len() ==> (#[trigger] vm.task_lines@[i])@ == render_task(
                    self@.tasks[i],
                ),
            vm.cursor == match self@.mode {
                InputMode::Normal => CursorAt::Hidden,
                InputMode::Insert => CursorAt::InputLine {
                    col: display_width(self@.task.desc) as usize,
                },
                InputMode::Edit => CursorAt::TaskList { row: self@.cursor_row as usize },
            },
    {
        let help = match self.mode {
            InputMode::Normal => "Press q to exit, i to start inserting a task, e to start editing tasks",
            InputMode::Insert => "Press Esc to stop inserting, Enter to record the task",
            InputMode::Edit => "Press Esc to stop editing, j, k to move the cursor (arrow keys work too), Enter to complete / uncomplete the task, d to delete it",
        };
        let n = self.tasks.len();
        let mut task_lines: Vec<String> = Vec::new();
        let mut i: usize = 0;
        while i < n
            invariant
                n == self@.tasks.len(),
                0 <= i <= n,
                task_lines@.len() == i,
                forall|k: int|
                    0 <= k < i ==> (#[trigger] task_lines@[k])@ == render_task(self@.tasks[k]),
            decreases n - i,
        {
            let line = self.tasks.get(i).render();
            task_lines.push(line);
            i = i + 1;
        }
        let cursor = match self.mode {
            InputMode::Normal => CursorAt::Hidden,
            InputMode::Insert => CursorAt::InputLine { col: str_width(self.task.desc.as_str()) },
            InputMode::Edit => CursorAt::TaskList { row: self.cursor_row },
        };
        ViewModel {
            mode: self.mode,
            help: String::from_str(help),
            input: self.task.desc.clone(),
            task_lines,
            cursor,
        }
    }
}

/// The display width of a string on the terminal, a function of its
/// characters alone.
pub uninterp spec fn display_width(s: Seq<char>) -> int;

/// Relies on `unicode_width::UnicodeWidthStr::width`: the displayed
/// column width of the string, determined by its characters alone.
#[verifier::external_body]
fn str_width(s: &str) -> (w: usize)
    ensures
        w == display_width(s@),
{
    unicode_width::UnicodeWidthStr::width(s)
}

/// Appends one character to the draft text.  Relies on
/// `String::push`: appends the given char to the end of the string.
#[verifier::external_body]
fn push_char(s: &mut String, c: char)
    ensures
        final(s)@ == old(s)@.push(c),
{
    s.push(c);
}

/// Drops the last character of the draft text.  Relies on
/// `String::pop`: removes and returns the last char, or `None` when
/// the string is empty.
#[verifier::external_body]
fn pop_char(s: &mut String) -> (r: Option<char>)
    ensures
        old(s)@.len() == 0 ==> final(s)@ == old(s)@ && r is None,
        old(s)@.len() > 0 ==> final(s)@ == old(s)@.drop_last() && r == Some(old(s)@.last()),
{
    s.pop()
}

} // verus!
