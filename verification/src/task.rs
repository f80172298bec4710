//! A single task: its data, construction from raw command input, the
//! time-only equality and ordering rules, and its one-line rendering.

use vstd::prelude::*;

use crate::cl::Add;
use crate::time::parse_time;
use crate::time::parse_time_spec;
use crate::time::TimeParseError;

verus! {

/// One actionable item.  `desc` is the lookup key inside a collection,
/// while ordering and equality go by `start_time` alone.
pub struct Task {
    /// Description of the task.
    pub desc: String,
    /// Hour and minute at which the task starts, if any.
    pub start_time: Option<(u8, u8)>,
    /// Hour and minute at which the task ends, if any.
    pub end_time: Option<(u8, u8)>,
    /// Whether the task has been completed.
    pub completed: bool,
}

/// The mathematical value of a task.
pub ghost struct TaskView {
    pub desc: Seq<char>,
    pub start_time: Option<(u8, u8)>,
    pub end_time: Option<(u8, u8)>,
    pub completed: bool,
}

impl View for Task {
    type V = TaskView;

    open spec fn view(&self) -> TaskView {
        TaskView {
            desc: self.desc@,
            start_time: self.start_time,
            end_time: self.end_time,
            completed: self.completed,
        }
    }
}

/// Sort key of a task: timed tasks in hour-then-minute order, tasks
/// without a start time after every timed one.
pub open spec fn time_key(t: TaskView) -> int {
    match t.start_time {
        Some(hm) => hm.0 * 256 + hm.1,
        None => 65536,
    }
}

/// Two tasks are equal exactly when their start times are: the
/// description plays no part in it.
pub open spec fn task_eq(a: TaskView, b: TaskView) -> bool {
    time_key(a) == time_key(b)
}

pub open spec fn task_le(a: TaskView, b: TaskView) -> bool {
    time_key(a) <= time_key(b)
}

pub open spec fn opt_view(o: Option<String>) -> Option<Seq<char>> {
    match o {
        Some(s) => Some(s@),
        None => None,
    }
}

/// Parse an optional raw time string.
pub open spec fn opt_time_parse(o: Option<Seq<char>>) -> Result<
    Option<(u8, u8)>,
    TimeParseError,
> {
    match o {
        None => Ok(None),
        Some(s) => match parse_time_spec(s) {
            Ok(t) => Ok(Some(t)),
            Err(e) => Err(e),
        },
    }
}

/// What constructing a task from raw command input yields: the first
/// time-parse failure, or the task with `completed` false.
pub open spec fn from_add_spec(
    desc: Seq<char>,
    start: Option<Seq<char>>,
    end: Option<Seq<char>>,
) -> Result<TaskView, TimeParseError> {
    match opt_time_parse(start) {
        Err(e) => Err(e),
        Ok(st) => match opt_time_parse(end) {
            Err(e) => Err(e),
            Ok(et) => Ok(TaskView { desc, start_time: st, end_time: et, completed: false }),
        },
    }
}

pub open spec fn digit_char(d: int) -> char {
    if d == 0 {
        '0'
    } else if d == 1 {
        '1'
    } else if d == 2 {
        '2'
    } else if d == 3 {
        '3'
    } else if d == 4 {
        '4'
    } else if d == 5 {
        '5'
    } else if d == 6 {
        '6'
    } else if d == 7 {
        '7'
    } else if d == 8 {
        '8'
    } else {
        '9'
    }
}

/// Decimal rendering of an hour or minute, zero-padded to two digits.
pub open spec fn two_digit(n: u8) -> Seq<char> {
    if n < 100 {
        seq![digit_char(n as int / 10), digit_char(n as int % 10)]
    } else {
        seq![
            digit_char(n as int / 100),
            digit_char((n as int / 10) % 10),
            digit_char(n as int % 10),
        ]
    }
}

pub open spec fn render_time(hm: (u8, u8)) -> Seq<char> {
    two_digit(hm.0) + seq![':'] + two_digit(hm.1)
}

/// The one-line rendering of a task.
pub open spec fn render_task(t: TaskView) -> Seq<char> {
    let head = (if t.completed {
        "[x] "@
    } else {
        "[ ] "@
    }) + t.desc;
    match (t.start_time, t.end_time) {
        (Some(st), Some(et)) => head + " "@ + render_time(st) + " - "@ + render_time(et),
        (Some(st), None) => head + " "@ + render_time(st),
        _ => head,
    }
}

proof fn lemma_digit_char_digit(d: int)
    requires
        0 <= d <= 9,
    ensures
        crate::time::is_digit(digit_char(d)),
        crate::time::digit_val(digit_char(d)) == d,
{
}

/// A rendered time parses back to the very pair it rendered: for any
/// hour and minute below 100, parsing `HH:MM` (the zero-padded
/// rendering) succeeds and yields them again.
pub proof fn lemma_time_render_round_trip(h: u8, m: u8)
    requires
        h < 100,
        m < 100,
    ensures
        parse_time_spec(render_time((h, m))) == Ok::<(u8, u8), TimeParseError>((h, m)),
{
    let s = render_time((h, m));
    let d0 = digit_char(h as int / 10);
    let d1 = digit_char(h as int % 10);
    let d2 = digit_char(m as int / 10);
    let d3 = digit_char(m as int % 10);
    lemma_digit_char_digit(h as int / 10);
    lemma_digit_char_digit(h as int % 10);
    lemma_digit_char_digit(m as int / 10);
    lemma_digit_char_digit(m as int % 10);
    assert(s =~= seq![d0, d1, ':', d2, d3]);
    assert(!crate::time::is_digit(':'));
    assert(crate::time::colon_count(s) == 1) by {
        let s4 = s.drop_last();
        let s3 = s4.drop_last();
        let s2 = s3.drop_last();
        let s1 = s2.drop_last();
        let s0 = s1.drop_last();
        assert(s4 =~= seq![d0, d1, ':', d2]);
        assert(s3 =~= seq![d0, d1, ':']);
        assert(s2 =~= seq![d0, d1]);
        assert(s1 =~= seq![d0]);
        assert(s0 =~= Seq::<char>::empty());
        assert(crate::time::colon_count(s0) == 0);
        assert(crate::time::colon_count(s1) == 0);
        assert(crate::time::colon_count(s2) == 0);
        assert(crate::time::colon_count(s3) == 1);
        assert(crate::time::colon_count(s4) == 1);
    }
    assert(crate::time::first_colon(s) == 2) by {
        let t1 = s.drop_first();
        let t2 = t1.drop_first();
        assert(t1 =~= seq![d1, ':', d2, d3]);
        assert(t2 =~= seq![':', d2, d3]);
        assert(crate::time::first_colon(t2) == 0);
        assert(crate::time::first_colon(t1) == 1);
    }
    let hours = s.subrange(0, 2);
    let minutes = s.subrange(3, 5);
    assert(hours =~= seq![d0, d1]);
    assert(minutes =~= seq![d2, d3]);
    assert(crate::time::all_digits(hours));
    assert(crate::time::all_digits(minutes));
    assert(crate::time::part_val(hours) == (h as int / 10) * 10 + h as int % 10);
    assert((h as int / 10) * 10 + h as int % 10 == h as int);
    assert(crate::time::part_val(minutes) == m as int);
}

pub(crate) fn digit_str(d: u8) -> (r: &'static str)
    requires
        d < 10,
    ensures
        r@ == seq![digit_char(d as int)],
{
    let r = if d == 0 {
        "0"
    } else if d == 1 {
        "1"
    } else if d == 2 {
        "2"
    } else if d == 3 {
        "3"
    } else if d == 4 {
        "4"
    } else if d == 5 {
        "5"
    } else if d == 6 {
        "6"
    } else if d == 7 {
        "7"
    } else if d == 8 {
        "8"
    } else {
        "9"
    };
    proof {
        reveal_strlit("0");
        reveal_strlit("1");
        reveal_strlit("2");
        reveal_strlit("3");
        reveal_strlit("4");
        reveal_strlit("5");
        reveal_strlit("6");
        reveal_strlit("7");
        reveal_strlit("8");
        reveal_strlit("9");
        assert(r@ =~= seq![digit_char(d as int)]);
    }
    r
}

fn push_two_digit(out: &mut String, n: u8)
    ensures
        final(out)@ == old(out)@ + two_digit(n),
{
    if n < 100 {
        out.append(digit_str(n / 10));
        out.append(digit_str(n % 10));
    } else {
        out.append(digit_str(n / 100));
        out.append(digit_str((n / 10) % 10));
        out.append(digit_str(n % 10));
    }
    assert(final(out)@ =~= old(out)@ + two_digit(n));
}

fn push_time(out: &mut String, hm: (u8, u8))
    ensures
        final(out)@ == old(out)@ + render_time(hm),
{
    push_two_digit(out, hm.0);
    out.append(":");
    push_two_digit(out, hm.1);
    proof {
        reveal_strlit(":");
        assert(final(out)@ =~= old(out)@ + render_time(hm));
    }
}

impl Task {
    /// An empty draft: no description, no times, not completed.
    pub fn new() -> (t: Task)
        ensures
            t@ == (TaskView {
                desc: Seq::<char>::empty(),
                start_time: None,
                end_time: None,
                completed: false,
            }),
    {
        Task { desc: String::new(), start_time: None, end_time: None, completed: false }
    }

    /// Build a task from the add command's raw strings, parsing the
    /// time fields and propagating the first failure.
    pub fn from_add(add: Add) -> (r: Result<Task, TimeParseError>)
        ensures
            (match r {
                Ok(t) => from_add_spec(
                    add.desc@,
                    opt_view(add.start_time),
                    opt_view(add.end_time),
                ) == Ok::<TaskView, TimeParseError>(t@),
                Err(e) => from_add_spec(
                    add.desc@,
                    opt_view(add.start_time),
                    opt_view(add.end_time),
                ) == Err::<TaskView, TimeParseError>(e),
            }),
    {
        let start_time: Option<(u8, u8)> = match add.start_time {
            Some(x) => match parse_time(x.as_str()) {
                Ok(t) => Some(t),
                Err(e) => {
                    return Err(e);
                },
            },
            None => None,
        };
        let end_time: Option<(u8, u8)> = match add.end_time {
            Some(x) => match parse_time(x.as_str()) {
                Ok(t) => Some(t),
                Err(e) => {
                    return Err(e);
                },
            },
            None => None,
        };
        Ok(Task { desc: add.desc, start_time, end_time, completed: false })
    }

    /// Flip the completion flag; flipping twice restores it.
    pub fn toggle_completed(&mut self)
        ensures
            final(self)@ == (TaskView { completed: !old(self)@.completed, ..old(self)@ }),
    {
        self.completed = !self.completed;
    }

    /// A value-equal copy of the task.
    pub fn duplicate(&self) -> (t: Task)
        ensures
            t@ == self@,
    {
        Task {
            desc: self.desc.clone(),
            start_time: self.start_time,
            end_time: self.end_time,
            completed: self.completed,
        }
    }

    /// Render the task as `[x] <desc> HH:MM - HH:MM`, dropping the time
    /// fields that are absent (`[ ]` while incomplete).
    pub fn render(&self) -> (r: String)
        ensures
            r@ == render_task(self@),
    {
        let mut out = String::new();
        if self.completed {
            out.append("[x] ");
        } else {
            out.append("[ ] ");
        }
        out.append(self.desc.as_str());
        match (self.start_time, self.end_time) {
            (Some(st), Some(et)) => {
                out.append(" ");
                push_time(&mut out, st);
                out.append(" - ");
                push_time(&mut out, et);
            },
            (Some(st), None) => {
                out.append(" ");
                push_time(&mut out, st);
            },
            _ => {},
        }
        assert(out@ =~= render_task(self@));
        out
    }
}

} // verus!
