use vstd::prelude::*;

use crate::date::{valid_date, Date, DateV};

verus! {

/// Kind of a journal entry.
#[derive(Clone, Copy, PartialEq, Eq, Structural, Debug)]
pub enum TaskType {
    Todo,
    Event,
    Note,
}

/// One recorded task. `completed` is meaningful for `Todo` only, but is
/// stored for every kind. `due_date` is an optional timestamp in seconds,
/// independent of the date the task is filed under.
pub struct Task {
    pub content: Vec<char>,
    pub task_type: TaskType,
    pub completed: bool,
    pub due_date: Option<i64>,
}

/// Model of a task.
#[verifier::ext_equal]
pub struct TaskV {
    pub content: Seq<char>,
    pub task_type: TaskType,
    pub completed: bool,
    pub due_date: Option<i64>,
}

impl View for Task {
    type V = TaskV;

    open spec fn view(&self) -> TaskV {
        TaskV {
            content: self.content@,
            task_type: self.task_type,
            completed: self.completed,
            due_date: self.due_date,
        }
    }
}

/// The ordered task list of one calendar date.
pub struct DayEntry {
    pub date: Date,
    pub tasks: Vec<Task>,
}

/// Model of a day's entry.
#[verifier::ext_equal]
pub struct EntryV {
    pub date: DateV,
    pub tasks: Seq<TaskV>,
}

pub open spec fn view_tasks(ts: Seq<Task>) -> Seq<TaskV> {
    ts.map_values(|t: Task| t@)
}

impl View for DayEntry {
    type V = EntryV;

    open spec fn view(&self) -> EntryV {
        EntryV { date: self.date@, tasks: view_tasks(self.tasks@) }
    }
}

/// Date-keyed task store: a list of day entries with pairwise distinct,
/// well-formed dates. A date's list may legally stay present and empty
/// after all its tasks are deleted; keys are not pruned.
pub struct TaskStore {
    pub entries: Vec<DayEntry>,
}

impl View for TaskStore {
    type V = Seq<EntryV>;

    open spec fn view(&self) -> Seq<EntryV> {
        self.entries@.map_values(|e: DayEntry| e@)
    }
}

/// Some entry is filed under date `d`.
pub open spec fn store_has(s: Seq<EntryV>, d: DateV) -> bool {
    exists|k: int| 0 <= k < s.len() && s[k].date == d
}

/// Index of the entry filed under `d` (meaningful when `store_has`).
pub open spec fn store_idx(s: Seq<EntryV>, d: DateV) -> int {
    choose|k: int| 0 <= k < s.len() && s[k].date == d
}

/// The ordered task list under `d`; empty when no entry exists.
pub open spec fn tasks_of(s: Seq<EntryV>, d: DateV) -> Seq<TaskV> {
    if store_has(s, d) {
        s[store_idx(s, d)].tasks
    } else {
        Seq::empty()
    }
}

/// Store invariant: distinct, well-formed date keys.
pub open spec fn store_wf(s: Seq<EntryV>) -> bool {
    &&& forall|k1: int, k2: int|
        0 <= k1 < k2 < s.len() ==> (#[trigger] s[k1].date) != (#[trigger] s[k2].date)
    &&& forall|k: int| 0 <= k < s.len() ==> valid_date(#[trigger] s[k].date)
}

/// A freshly added task: given content and kind, not completed, no due date.
pub open spec fn new_task(content: Seq<char>, tt: TaskType) -> TaskV {
    TaskV { content: content, task_type: tt, completed: false, due_date: None }
}

/// The store after `add`: appends to the date's list, creating it if absent.
pub open spec fn add_s(s: Seq<EntryV>, d: DateV, content: Seq<char>, tt: TaskType) -> Seq<EntryV> {
    if store_has(s, d) {
        let k = store_idx(s, d);
        s.update(k, EntryV { date: d, tasks: s[k].tasks.push(new_task(content, tt)) })
    } else {
        s.push(EntryV { date: d, tasks: seq![new_task(content, tt)] })
    }
}

/// A task with its completion flag flipped.
pub open spec fn flip_done(t: TaskV) -> TaskV {
    TaskV { content: t.content, task_type: t.task_type, completed: !t.completed, due_date: t.due_date }
}

/// The store after `toggle`: flips the flag at `i` under `d`; the store is
/// left untouched when the date is absent or the index is out of range.
pub open spec fn toggle_s(s: Seq<EntryV>, d: DateV, i: int) -> Seq<EntryV> {
    if store_has(s, d) && 0 <= i < tasks_of(s, d).len() {
        let k = store_idx(s, d);
        s.update(k, EntryV { date: d, tasks: s[k].tasks.update(i, flip_done(s[k].tasks[i])) })
    } else {
        s
    }
}

/// The store after `delete`: removes the task at `i` under `d`, shifting
/// later tasks down one position; untouched when absent or out of range.
pub open spec fn delete_s(s: Seq<EntryV>, d: DateV, i: int) -> Seq<EntryV> {
    if store_has(s, d) && 0 <= i < tasks_of(s, d).len() {
        let k = store_idx(s, d);
        s.update(k, EntryV { date: d, tasks: s[k].tasks.remove(i) })
    } else {
        s
    }
}

impl TaskStore {
    /// A store with no entries at all.
    pub fn empty() -> (s: TaskStore)
        ensures
            s@ =~= Seq::<EntryV>::empty(),
            store_wf(s@),
    {
        TaskStore { entries: Vec::new() }
    }

    /// Position of the entry under `date`, if one exists.
    fn find(&self, date: Date) -> (r: Option<usize>)
        requires
            store_wf(self@),
        ensures
            match r {
                Some(k) => {
                    &&& k < self.entries@.len()
                    &&& store_has(self@, date@)
                    &&& store_idx(self@, date@) == k as int
                },
                None => !store_has(self@, date@),
            },
    {
        let n = self.entries.len();
        let mut k: usize = 0;
        while k < n
            invariant
                k <= n,
                n == self.entries@.len(),
                store_wf(self@),
                forall|j: int| 0 <= j < k ==> (#[trigger] self@[j].date) != date@,
            decreases n - k,
        {
            if self.entries[k].date == date {
                proof {
                    assert(self@[k as int].date == date@);
                    let w = store_idx(self@, date@);
                    assert(0 <= w < self@.len() && self@[w].date == date@);
                    assert(w == k as int);
                }
                return Some(k);
            }
            k += 1;
        }
        proof {
            if store_has(self@, date@) {
                let w = store_idx(self@, date@);
                assert(self@[w].date == date@);
            }
        }
        None
    }

    /// Appends a new task with the given content and kind to `date`'s list,
    /// creating the list if absent. Always succeeds.
    pub fn add(&mut self, date: Date, content: Vec<char>, task_type: TaskType)
        requires
            store_wf(old(self)@),
            valid_date(date@),
        ensures
            final(self)@ == add_s(old(self)@, date@, content@, task_type),
            store_wf(final(self)@),
    {
        let task = Task { content, task_type, completed: false, due_date: None };
        let found = self.find(date);
        match found {
            Some(k) => {
                let ghost pre = self@;
                let entry = &mut self.entries[k];
                entry.tasks.push(task);
                proof {
                    assert(view_tasks(self.entries@[k as int].tasks@) =~= pre[k as int].tasks.push(
                        new_task(task@.content, task_type),
                    ));
                    assert(self@ =~~= add_s(pre, date@, task@.content, task_type));
                }
            },
            None => {
                let ghost pre = self@;
                self.entries.push(DayEntry { date, tasks: vec![task] });
                proof {
                    assert(view_tasks(self.entries@.last().tasks@) =~= seq![
                        new_task(task@.content, task_type),
                    ]);
                    assert(self@ =~~= add_s(pre, date@, task@.content, task_type));
                }
            },
        }
    }

    /// Flips the completion flag of the task at `index` under `date`.
    /// Silently a no-op when the date is absent or the index out of range:
    /// malformed interactive input must never fail the session.
    pub fn toggle(&mut self, date: Date, index: usize)
        requires
            store_wf(old(self)@),
        ensures
            final(self)@ == toggle_s(old(self)@, date@, index as int),
            store_wf(final(self)@),
            !(store_has(old(self)@, date@) && (index as int) < tasks_of(old(self)@, date@).len())
                ==> *final(self) == *old(self),
    {
        let found = self.find(date);
        match found {
            Some(k) => {
                let ghost pre = self@;
                if index < self.entries[k].tasks.len() {
                    let entry = &mut self.entries[k];
                    let t = &mut entry.tasks[index];
                    t.completed = !t.completed;
                    proof {
                        assert(view_tasks(self.entries@[k as int].tasks@) =~= pre[k as int]
                            .tasks
                            .update(index as int, flip_done(pre[k as int].tasks[index as int])));
                        assert(self@ =~~= toggle_s(pre, date@, index as int));
                    }
                }
            },
            None => {
            },
        }
    }

    /// Removes the task at `index` under `date`; later tasks shift down by
    /// one. Silently a no-op when absent or out of range.
    pub fn delete(&mut self, date: Date, index: usize)
        requires
            store_wf(old(self)@),
        ensures
            final(self)@ == delete_s(old(self)@, date@, index as int),
            store_wf(final(self)@),
            !(store_has(old(self)@, date@) && (index as int) < tasks_of(old(self)@, date@).len())
                ==> *final(self) == *old(self),
    {
        let found = self.find(date);
        match found {
            Some(k) => {
                let ghost pre = self@;
                if index < self.entries[k].tasks.len() {
                    let entry = &mut self.entries[k];
                    entry.tasks.remove(index);
                    proof {
                        assert(view_tasks(self.entries@[k as int].tasks@) =~= pre[k as int]
                            .tasks
                            .remove(index as int));
                        assert(self@ =~~= delete_s(pre, date@, index as int));
                    }
                }
            },
            None => {
            },
        }
    }

    /// The ordered task list filed under `date`, empty if none exists.
    pub fn get(&self, date: Date) -> (r: Vec<Task>)
        requires
            store_wf(self@),
        ensures
            view_tasks(r@) == tasks_of(self@, date@),
    {
        let found = self.find(date);
        match found {
            Some(k) => {
                let src = &self.entries[k].tasks;
                let n = src.len();
                let mut out: Vec<Task> = Vec::new();
                let mut j: usize = 0;
                while j < n
                    invariant
                        j <= n,
                        n == src@.len(),
                        out@.len() == j,
                        forall|q: int| 0 <= q < j ==> (#[trigger] out@[q])@ == src@[q]@,
                    decreases n - j,
                {
                    let t = &src[j];
                    let copy = Task {
                        content: clone_chars(&t.content),
                        task_type: t.task_type,
                        completed: t.completed,
                        due_date: t.due_date,
                    };
                    proof {
                        assert(copy@ =~= src@[j as int]@);
                    }
                    out.push(copy);
                    j += 1;
                }
                proof {
                    assert(view_tasks(out@) =~= view_tasks(src@));
                    assert(view_tasks(src@) =~= tasks_of(self@, date@));
                }
                out
            },
            None => {
                let out: Vec<Task> = Vec::new();
                proof {
                    assert(view_tasks(out@) =~= Seq::<TaskV>::empty());
                }
                out
            },
        }
    }

    /// True when any entry (possibly empty) is filed under `date`.
    pub fn contains(&self, date: Date) -> (r: bool)
        requires
            store_wf(self@),
        ensures
            r == store_has(self@, date@),
    {
        let found = self.find(date);
        match found {
            Some(_) => true,
            None => false,
        }
    }
}

/// Copy of a character vector.
pub fn clone_chars(v: &Vec<char>) -> (r: Vec<char>)
    ensures
        r@ == v@,
{
    let n = v.len();
    let mut out: Vec<char> = Vec::new();
    let mut j: usize = 0;
    while j < n
        invariant
            j <= n,
            n == v@.len(),
            out@ =~= v@.take(j as int),
        decreases n - j,
    {
        out.push(v[j]);
        proof {
            assert(out@ =~= v@.take(j as int + 1));
        }
        j += 1;
    }
    proof {
        assert(v@.take(n as int) =~= v@);
    }
    out
}

/// Adding appends exactly the new task at the end of the date's list and
/// leaves every other date's list, and its presence, unchanged.
pub proof fn lemma_add_appends(s: Seq<EntryV>, d: DateV, content: Seq<char>, tt: TaskType)
    requires
        store_wf(s),
    ensures
        tasks_of(add_s(s, d, content, tt), d) == tasks_of(s, d).push(new_task(content, tt)),
        store_has(add_s(s, d, content, tt), d),
        forall|d2: DateV|
            d2 != d ==> #[trigger] tasks_of(add_s(s, d, content, tt), d2) == tasks_of(s, d2),
        forall|d2: DateV|
            d2 != d ==> #[trigger] store_has(add_s(s, d, content, tt), d2) == store_has(s, d2),
{
    let s2 = add_s(s, d, content, tt);
    if store_has(s, d) {
        let k = store_idx(s, d);
        assert(0 <= k < s.len() && s[k].date == d);
        assert(s2[k].date == d);
        lemma_store_idx_unique(s2, d, k);
        assert(tasks_of(s, d) =~= s[k].tasks);
        assert(tasks_of(s2, d) =~= s[k].tasks.push(new_task(content, tt)));
        assert forall|d2: DateV| d2 != d implies #[trigger] store_has(s2, d2) == store_has(
            s,
            d2,
        ) by {
            if store_has(s, d2) {
                let w = store_idx(s, d2);
                assert(s2[w].date == d2);
            }
            if store_has(s2, d2) {
                let w = store_idx(s2, d2);
                assert(s[w].date == d2);
            }
        }
        assert forall|d2: DateV| d2 != d implies #[trigger] tasks_of(s2, d2) == tasks_of(
            s,
            d2,
        ) by {
            if store_has(s, d2) {
                let w = store_idx(s, d2);
                assert(s[w].date == d2);
                assert(s2[w].date == d2);
                lemma_store_idx_unique(s, d2, w);
                lemma_store_idx_unique(s2, d2, w);
                assert(tasks_of(s2, d2) =~= tasks_of(s, d2));
            }
        }
    } else {
        let k = s.len() as int;
        assert(s2[k].date == d);
        lemma_store_idx_unique(s2, d, k);
        assert(tasks_of(s, d) =~= Seq::<TaskV>::empty());
        assert(tasks_of(s2, d) =~= seq![new_task(content, tt)]);
        assert(tasks_of(s2, d) =~= tasks_of(s, d).push(new_task(content, tt)));
        assert forall|d2: DateV| d2 != d implies #[trigger] store_has(s2, d2) == store_has(
            s,
            d2,
        ) by {
            if store_has(s, d2) {
                let w = store_idx(s, d2);
                assert(s2[w].date == d2);
            }
            if store_has(s2, d2) {
                let w = store_idx(s2, d2);
                assert(w != k);
                assert(s[w].date == d2);
            }
        }
        assert forall|d2: DateV| d2 != d implies #[trigger] tasks_of(s2, d2) == tasks_of(
            s,
            d2,
        ) by {
            if store_has(s, d2) {
                let w = store_idx(s, d2);
                assert(s[w].date == d2);
                assert(s2[w].date == d2);
                lemma_store_idx_unique(s, d2, w);
                lemma_store_idx_unique(s2, d2, w);
                assert(tasks_of(s2, d2) =~= tasks_of(s, d2));
            }
        }
    }
}

/// Under distinct keys, the chosen index of a present date is the unique
/// position whose entry carries it.
pub proof fn lemma_store_idx_unique(s: Seq<EntryV>, d: DateV, k: int)
    requires
        forall|k1: int, k2: int|
            0 <= k1 < k2 < s.len() ==> (#[trigger] s[k1].date) != (#[trigger] s[k2].date),
        0 <= k < s.len(),
        s[k].date == d,
    ensures
        store_has(s, d),
        store_idx(s, d) == k,
{
    assert(store_has(s, d));
    let w = store_idx(s, d);
    assert(0 <= w < s.len() && s[w].date == d);
    if w < k {
        assert(s[w].date != s[k].date);
    } else if k < w {
        assert(s[k].date != s[w].date);
    }
}

/// Toggling the same position twice in succession restores the store
/// exactly: toggling is an involution, also on out-of-range positions.
pub proof fn lemma_toggle_involution(s: Seq<EntryV>, d: DateV, i: int)
    requires
        store_wf(s),
    ensures
        toggle_s(toggle_s(s, d, i), d, i) == s,
{
    if store_has(s, d) && 0 <= i < tasks_of(s, d).len() {
        let k = store_idx(s, d);
        assert(0 <= k < s.len() && s[k].date == d);
        let s1 = toggle_s(s, d, i);
        assert(s1[k].date == d);
        lemma_store_idx_unique(s1, d, k);
        assert(tasks_of(s, d) =~= s[k].tasks);
        assert(tasks_of(s1, d) =~= s1[k].tasks);
        assert(s1[k].tasks.len() == s[k].tasks.len());
        assert(flip_done(flip_done(s[k].tasks[i])) =~~= s[k].tasks[i]);
        assert(s1[k].tasks[i] == flip_done(s[k].tasks[i]));
        assert(toggle_s(s1, d, i)[k].tasks =~~= s[k].tasks);
        assert(toggle_s(s1, d, i) =~~= s);
    }
}

/// Deleting position `i` shortens the date's list by one, keeps every task
/// before `i` in place, and shifts every later task down one position.
pub proof fn lemma_delete_shifts(s: Seq<EntryV>, d: DateV, i: int)
    requires
        store_wf(s),
        store_has(s, d),
        0 <= i < tasks_of(s, d).len(),
    ensures
        tasks_of(delete_s(s, d, i), d).len() == tasks_of(s, d).len() - 1,
        forall|j: int| 0 <= j < i ==> #[trigger] tasks_of(delete_s(s, d, i), d)[j] == tasks_of(s, d)[j],
        forall|j: int|
            i <= j < tasks_of(s, d).len() - 1 ==> #[trigger] tasks_of(delete_s(s, d, i), d)[j]
                == tasks_of(s, d)[j + 1],
{
    let k = store_idx(s, d);
    assert(0 <= k < s.len() && s[k].date == d);
    let s1 = delete_s(s, d, i);
    assert(s1[k].date == d);
    lemma_store_idx_unique(s1, d, k);
    assert(tasks_of(s, d) =~= s[k].tasks);
    assert(tasks_of(s1, d) =~= s[k].tasks.remove(i));
}

/// A toggle or delete aimed at an absent date or an out-of-range index
/// leaves the store untouched.
pub proof fn lemma_noop_on_invalid(s: Seq<EntryV>, d: DateV, i: int)
    requires
        !(store_has(s, d) && 0 <= i < tasks_of(s, d).len()),
    ensures
        toggle_s(s, d, i) == s,
        delete_s(s, d, i) == s,
{
}

} // verus!
