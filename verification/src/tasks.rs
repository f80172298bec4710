//! An ordered collection of tasks: insertion keeps the sequence sorted
//! by start time (stable with respect to insertion order), lookups go
//! by description, and edits by position.

use vstd::prelude::*;

use crate::task::render_task;
use crate::task::task_le;
use crate::task::time_key;
use crate::task::Task;
use crate::task::TaskView;

verus! {

/// One period's list of tasks, kept sorted by `time_key`.
pub struct Tasks {
    pub tasks: Vec<Task>,
}

/// The task views of a sequence of tasks.
pub open spec fn views_of(s: Seq<Task>) -> Seq<TaskView> {
    s.map_values(|t: Task| t@)
}

impl View for Tasks {
    type V = Seq<TaskView>;

    open spec fn view(&self) -> Seq<TaskView> {
        views_of(self.tasks@)
    }
}

/// Sorted by start time, tasks without one at the end.
pub open spec fn sorted(s: Seq<TaskView>) -> bool {
    forall|i: int, j: int| 0 <= i < j < s.len() ==> task_le(#[trigger] s[i], #[trigger] s[j])
}

/// Where a stable sort places `t` in `s`: directly after every element
/// whose key is less than or equal to `t`'s.
pub open spec fn insert_pos(s: Seq<TaskView>, t: TaskView) -> int
    decreases s.len(),
{
    if s.len() == 0 {
        0
    } else if time_key(s[0]) > time_key(t) {
        0
    } else {
        1 + insert_pos(s.drop_first(), t)
    }
}

/// Stable insertion of `t` into `s`.
pub open spec fn insert_sorted(s: Seq<TaskView>, t: TaskView) -> Seq<TaskView> {
    s.insert(insert_pos(s, t), t)
}

/// A stable sort of `s`: every element inserted in turn.
pub open spec fn sort_spec(s: Seq<TaskView>) -> Seq<TaskView>
    decreases s.len(),
{
    if s.len() == 0 {
        Seq::empty()
    } else {
        insert_sorted(sort_spec(s.drop_last()), s.last())
    }
}

/// Index of the last task whose description is `d`, or -1 if none.
pub open spec fn last_match(s: Seq<TaskView>, d: Seq<char>) -> int
    decreases s.len(),
{
    if s.len() == 0 {
        -1
    } else if s.last().desc == d {
        s.len() - 1
    } else {
        last_match(s.drop_last(), d)
    }
}

/// The newline-joined rendering of the tasks, in sequence order.
pub open spec fn render_tasks(s: Seq<TaskView>) -> Seq<char>
    decreases s.len(),
{
    if s.len() == 0 {
        Seq::empty()
    } else if s.len() == 1 {
        render_task(s[0])
    } else {
        render_tasks(s.drop_last()) + seq!['\n'] + render_task(s.last())
    }
}

pub proof fn lemma_insert_pos_bounds(s: Seq<TaskView>, t: TaskView)
    ensures
        0 <= insert_pos(s, t) <= s.len(),
        forall|k: int| 0 <= k < insert_pos(s, t) ==> time_key(#[trigger] s[k]) <= time_key(t),
        insert_pos(s, t) < s.len() ==> time_key(s[insert_pos(s, t)]) > time_key(t),
    decreases s.len(),
{
    if s.len() > 0 && time_key(s[0]) <= time_key(t) {
        lemma_insert_pos_bounds(s.drop_first(), t);
        assert forall|k: int| 0 <= k < insert_pos(s, t) implies time_key(#[trigger] s[k])
            <= time_key(t) by {
            if k > 0 {
                assert(s[k] == s.drop_first()[k - 1]);
            }
        }
    }
}

proof fn lemma_insert_pos_at(s: Seq<TaskView>, t: TaskView, i: int)
    requires
        0 <= i <= s.len(),
        forall|k: int| 0 <= k < i ==> time_key(#[trigger] s[k]) <= time_key(t),
        i < s.len() ==> time_key(s[i]) > time_key(t),
    ensures
        insert_pos(s, t) == i,
    decreases i,
{
    if i > 0 {
        lemma_insert_pos_at(s.drop_first(), t, i - 1);
    }
}

/// Inserting into a sorted sequence at the stable position keeps it
/// sorted.
pub proof fn lemma_insert_sorted_sorted(s: Seq<TaskView>, t: TaskView)
    requires
        sorted(s),
    ensures
        sorted(insert_sorted(s, t)),
{
    lemma_insert_pos_bounds(s, t);
    let p = insert_pos(s, t);
    let r = s.insert(p, t);
    assert forall|i: int, j: int| 0 <= i < j < r.len() implies task_le(r[i], r[j]) by {
        if i < p && j == p {
            assert(r[i] == s[i]);
        } else if i == p && j > p {
            assert(r[j] == s[j - 1]);
        }
    }
}

/// A stable sort yields a sorted sequence.
pub proof fn lemma_sort_spec_sorted(s: Seq<TaskView>)
    ensures
        sorted(sort_spec(s)),
    decreases s.len(),
{
    if s.len() > 0 {
        lemma_sort_spec_sorted(s.drop_last());
        lemma_insert_sorted_sorted(sort_spec(s.drop_last()), s.last());
    }
}

/// Two tasks without a start time are equal whatever their
/// descriptions: equality goes by the start time alone.
pub proof fn lemma_untimed_tasks_equal(a: TaskView, b: TaskView)
    requires
        a.start_time is None,
        b.start_time is None,
    ensures
        crate::task::task_eq(a, b),
{
}

/// In a sorted sequence no timed task follows an untimed one: tasks
/// without a start time always sit after all timed tasks.
pub proof fn lemma_sorted_untimed_last(s: Seq<TaskView>, i: int, j: int)
    requires
        sorted(s),
        0 <= i < j < s.len(),
        s[i].start_time is None,
    ensures
        s[j].start_time is None,
{
    assert(task_le(s[i], s[j]));
}

proof fn lemma_last_match_push(s: Seq<TaskView>, d: Seq<char>, t: TaskView)
    ensures
        last_match(s.push(t), d) == if t.desc == d {
            s.len() as int
        } else {
            last_match(s, d)
        },
{
    assert(s.push(t).drop_last() =~= s);
}

/// The exec comparison key of a task; `None` sorts after every time.
pub fn key_of(t: &Task) -> (k: u32)
    ensures
        k == time_key(t@),
{
    match t.start_time {
        Some(hm) => (hm.0 as u32) * 256 + (hm.1 as u32),
        None => 65536,
    }
}

impl Tasks {
    /// An empty collection.
    pub fn new() -> (r: Tasks)
        ensures
            r@ == Seq::<TaskView>::empty(),
    {
        let r = Tasks { tasks: Vec::new() };
        proof {
            assert(r@ =~= Seq::<TaskView>::empty());
        }
        r
    }

    /// How many tasks the collection holds.
    pub fn len(&self) -> (n: usize)
        ensures
            n == self@.len(),
    {
        self.tasks.len()
    }

    pub fn is_empty(&self) -> (r: bool)
        ensures
            r == (self@.len() == 0),
    {
        self.tasks.len() == 0
    }

    /// The task at position `i`.
    pub fn get(&self, i: usize) -> (t: &Task)
        requires
            i < self@.len(),
        ensures
            t@ == self@[i as int],
    {
        &self.tasks[i]
    }

    /// Insert `task` at its sorted position: after every task that
    /// starts no later, before every task that starts later.  No
    /// duplicate check is made on the description.
    pub fn add_task(&mut self, task: Task)
        ensures
            final(self)@ == insert_sorted(old(self)@, task@),
            sorted(old(self)@) ==> sorted(final(self)@),
    {
        let k = key_of(&task);
        let n = self.tasks.len();
        let mut i: usize = 0;
        while i < n && key_of(&self.tasks[i]) <= k
            invariant
                n == self@.len(),
                0 <= i <= n,
                k == time_key(task@),
                forall|j: int| 0 <= j < i ==> time_key(#[trigger] self@[j]) <= time_key(task@),
            decreases n - i,
        {
            i = i + 1;
        }
        proof {
            lemma_insert_pos_at(self@, task@, i as int);
        }
        let ghost pre = self@;
        self.tasks.insert(i, task);
        proof {
            assert(self@ =~= pre.insert(i as int, task@));
            if sorted(pre) {
                lemma_insert_sorted_sorted(pre, task@);
            }
        }
    }

    /// Delete the task with description `desc`; with several matches
    /// the last one goes; with none the collection is unchanged.
    pub fn del_task(&mut self, desc: String)
        ensures
            final(self)@ == if last_match(old(self)@, desc@) >= 0 {
                old(self)@.remove(last_match(old(self)@, desc@))
            } else {
                old(self)@
            },
    {
        let n = self.tasks.len();
        let mut index: usize = 0;
        let mut remove = false;
        let mut count: usize = 0;
        while count < n
            invariant
                n == self@.len(),
                0 <= count <= n,
                remove ==> index < count,
                last_match(self@.subrange(0, count as int), desc@) == if remove {
                    index as int
                } else {
                    -1
                },
            decreases n - count,
        {
            proof {
                assert(self@.subrange(0, count + 1) =~= self@.subrange(0, count as int).push(
                    self@[count as int],
                ));
                lemma_last_match_push(self@.subrange(0, count as int), desc@, self@[count as int]);
            }
            if self.tasks[count].desc == desc {
                index = count;
                remove = true;
            }
            count = count + 1;
        }
        proof {
            assert(self@.subrange(0, n as int) =~= self@);
        }
        if remove {
            let ghost pre = self@;
            let _ = self.tasks.remove(index);
            proof {
                assert(self@ =~= pre.remove(index as int));
            }
        }
    }

    /// Mark the task with description `desc` completed; with several
    /// matches the last one is marked; with none the collection is
    /// unchanged.
    pub fn complete_task(&mut self, desc: String)
        ensures
            final(self)@ == if last_match(old(self)@, desc@) >= 0 {
                old(self)@.update(
                    last_match(old(self)@, desc@),
                    (TaskView { completed: true, ..old(self)@[last_match(old(self)@, desc@)] }),
                )
            } else {
                old(self)@
            },
    {
        let n = self.tasks.len();
        let mut index: usize = 0;
        let mut found = false;
        let mut count: usize = 0;
        while count < n
            invariant
                n == self@.len(),
                0 <= count <= n,
                found ==> index < count,
                last_match(self@.subrange(0, count as int), desc@) == if found {
                    index as int
                } else {
                    -1
                },
            decreases n - count,
        {
            proof {
                assert(self@.subrange(0, count + 1) =~= self@.subrange(0, count as int).push(
                    self@[count as int],
                ));
                lemma_last_match_push(self@.subrange(0, count as int), desc@, self@[count as int]);
            }
            if self.tasks[count].desc == desc {
                index = count;
                found = true;
            }
            count = count + 1;
        }
        proof {
            assert(self@.subrange(0, n as int) =~= self@);
        }
        if found {
            let ghost pre = self@;
            let mut t = self.tasks.remove(index);
            t.completed = true;
            self.tasks.insert(index, t);
            proof {
                assert(self@ =~= pre.update(
                    index as int,
                    (TaskView { completed: true, ..pre[index as int] }),
                ));
            }
        }
    }

    /// Remove the task at position `i`.  Callers check the bound.
    pub fn del_task_idx(&mut self, i: usize)
        requires
            i < old(self)@.len(),
        ensures
            final(self)@ == old(self)@.remove(i as int),
    {
        let ghost pre = self@;
        let _ = self.tasks.remove(i);
        proof {
            assert(self@ =~= pre.remove(i as int));
        }
    }

    /// Toggle the completion flag of the task at position `i`.
    /// Callers check the bound.
    pub fn complete_task_idx(&mut self, i: usize)
        requires
            i < old(self)@.len(),
        ensures
            final(self)@ == old(self)@.update(
                i as int,
                (TaskView { completed: !old(self)@[i as int].completed, ..old(self)@[i as int] }),
            ),
    {
        let ghost pre = self@;
        let mut t = self.tasks.remove(i);
        t.completed = !t.completed;
        self.tasks.insert(i, t);
        proof {
            assert(self@ =~= pre.update(
                i as int,
                (TaskView { completed: !pre[i as int].completed, ..pre[i as int] }),
            ));
        }
    }

    /// Stable-sort the collection by start time.
    pub fn sort_tasks(&mut self)
        ensures
            final(self)@ == sort_spec(old(self)@),
            sorted(final(self)@),
    {
        let ghost orig = self@;
        let n = self.tasks.len();
        let mut out = Tasks::new();
        let mut i: usize = 0;
        while i < n
            invariant
                n == orig.len(),
                0 <= i <= n,
                self@ == orig,
                out@ == sort_spec(orig.subrange(0, i as int)),
                sorted(out@),
            decreases n - i,
        {
            proof {
                assert(orig.subrange(0, i + 1).drop_last() =~= orig.subrange(0, i as int));
            }
            let t = self.tasks[i].duplicate();
            out.add_task(t);
            i = i + 1;
        }
        proof {
            assert(orig.subrange(0, n as int) =~= orig);
        }
        self.tasks = out.tasks;
    }

    /// Render each task on its own line, newline-joined, in sequence
    /// order.
    pub fn render(&self) -> (r: String)
        ensures
            r@ == render_tasks(self@),
    {
        let n = self.tasks.len();
        let mut out = String::new();
        let mut i: usize = 0;
        while i < n
            invariant
                n == self@.len(),
                0 <= i <= n,
                out@ == render_tasks(self@.subrange(0, i as int)),
            decreases n - i,
        {
            proof {
                assert(self@.subrange(0, i + 1).drop_last() =~= self@.subrange(0, i as int));
            }
            if i > 0 {
                out.append("\n");
                proof {
                    reveal_strlit("\n");
                }
            }
            let line = self.tasks[i].render();
            out.append(line.as_str());
            proof {
                assert(out@ =~= render_tasks(self@.subrange(0, i + 1)));
            }
            i = i + 1;
        }
        proof {
            assert(self@.subrange(0, n as int) =~= self@);
        }
        out
    }
}

} // verus!
