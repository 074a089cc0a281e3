//! The task collection and its operations: add, complete, remove, clear,
//! stats. The collection keeps insertion order; ids and texts are unique.

use vstd::prelude::*;

use crate::todo::{Todo, TodoView, MAX_TIMESTAMP};

verus! {

/// A well-formed collection: every task well formed, ids pairwise distinct,
/// texts pairwise distinct.
pub open spec fn wf_seq(s: Seq<TodoView>) -> bool {
    &&& forall|i: int| 0 <= i < s.len() ==> (#[trigger] s[i]).wf()
    &&& forall|i: int, j: int| 0 <= i < j < s.len() ==> s[i].id != s[j].id
    &&& forall|i: int, j: int| 0 <= i < j < s.len() ==> s[i].text != s[j].text
}

pub open spec fn has_id(s: Seq<TodoView>, id: u64) -> bool {
    exists|i: int| 0 <= i < s.len() && s[i].id == id
}

/// The index of the task with this id; meaningful only when `has_id` holds,
/// and then unique because ids are distinct.
pub open spec fn idx_of_id(s: Seq<TodoView>, id: u64) -> int {
    choose|i: int| 0 <= i < s.len() && s[i].id == id
}

pub open spec fn has_text(s: Seq<TodoView>, text: Seq<char>) -> bool {
    exists|i: int| 0 <= i < s.len() && s[i].text == text
}

/// The largest id in a non-empty collection.
pub open spec fn spec_max_id(s: Seq<TodoView>) -> u64
    recommends
        s.len() > 0,
    decreases s.len(),
{
    if s.len() <= 1 {
        s[0].id
    } else {
        let m = spec_max_id(s.drop_last());
        if s.last().id > m {
            s.last().id
        } else {
            m
        }
    }
}

/// The id the next added task receives: one past the largest id, 0 when the
/// collection is empty. Over the unbounded integers, so that the caller can
/// see when it would no longer fit in a `u64`.
pub open spec fn spec_next_id(s: Seq<TodoView>) -> int {
    if s.len() == 0 {
        0
    } else {
        spec_max_id(s) + 1
    }
}

/// The pending tasks, in their original order.
pub open spec fn spec_pending(s: Seq<TodoView>) -> Seq<TodoView> {
    s.filter(|t: TodoView| !t.done)
}

/// The completed tasks, in their original order.
pub open spec fn spec_done(s: Seq<TodoView>) -> Seq<TodoView> {
    s.filter(|t: TodoView| t.done)
}

pub open spec fn spec_count_done(s: Seq<TodoView>) -> int {
    spec_done(s).len() as int
}

/// The completion rate in tenths of a percent: completed / total, scaled by
/// 1000; 0 for the empty collection.
pub open spec fn spec_rate_tenths(s: Seq<TodoView>) -> int {
    if s.len() == 0 {
        0
    } else {
        spec_count_done(s) * 1000 / (s.len() as int)
    }
}

/// How many tasks carry this text.
pub open spec fn count_text(s: Seq<TodoView>, text: Seq<char>) -> nat
    decreases s.len(),
{
    if s.len() == 0 {
        0
    } else {
        count_text(s.drop_last(), text) + (if s.last().text == text {
            1nat
        } else {
            0nat
        })
    }
}

/// Outcome of `add`.
#[derive(Clone, Copy, Debug, PartialEq, Eq, Structural)]
pub enum AddOutcome {
    Added { id: u64 },
    EmptyText,
    DuplicateText,
    IdExhausted,
}

/// Outcome of `mark_done`.
#[derive(Clone, Copy, Debug, PartialEq, Eq, Structural)]
pub enum DoneOutcome {
    Completed,
    AlreadyDone,
    NotFound,
}

/// Totals reported by `stats`; the rate is in tenths of a percent.
#[derive(Clone, Copy, Debug, PartialEq, Eq, Structural)]
pub struct Stats {
    pub total: usize,
    pub completed: usize,
    pub pending: usize,
    pub rate_tenths: u64,
}

/// The in-memory task collection, ordered oldest first.
pub struct TodoList {
    tasks: Vec<Todo>,
}

impl View for TodoList {
    type V = Seq<TodoView>;

    closed spec fn view(&self) -> Seq<TodoView> {
        self.tasks@.map_values(|t: Todo| t@)
    }
}

/// If the task at index `i` carries `id`, it is the task `idx_of_id` picks.
pub proof fn lemma_idx_of_id(s: Seq<TodoView>, id: u64, i: int)
    requires
        wf_seq(s),
        0 <= i < s.len(),
        s[i].id == id,
    ensures
        has_id(s, id),
        idx_of_id(s, id) == i,
{
    assert(has_id(s, id));
    let j = idx_of_id(s, id);
    if i < j {
        assert(s[i].id != s[j].id);
    } else if j < i {
        assert(s[j].id != s[i].id);
    }
}

/// Every id in the collection is at most the largest id.
pub proof fn lemma_max_id_ge(s: Seq<TodoView>, i: int)
    requires
        0 <= i < s.len(),
    ensures
        s[i].id <= spec_max_id(s),
    decreases s.len(),
{
    if s.len() > 1 && i < s.len() - 1 {
        lemma_max_id_ge(s.drop_last(), i);
    }
}

/// Removing one task keeps the collection well formed.
pub proof fn lemma_remove_wf(s: Seq<TodoView>, i: int)
    requires
        wf_seq(s),
        0 <= i < s.len(),
    ensures
        wf_seq(s.remove(i)),
{
    let r = s.remove(i);
    assert forall|a: int, b: int| 0 <= a < b < r.len() implies r[a].id != r[b].id && r[a].text
        != r[b].text by {
        let a0 = if a < i {
            a
        } else {
            a + 1
        };
        let b0 = if b < i {
            b
        } else {
            b + 1
        };
        assert(r[a] == s[a0]);
        assert(r[b] == s[b0]);
    }
    assert forall|a: int| 0 <= a < r.len() implies (#[trigger] r[a]).wf() by {
        let a0 = if a < i {
            a
        } else {
            a + 1
        };
        assert(r[a] == s[a0]);
    }
}

/// After removing the task that carries an id, no task carries it.
///
/// Law: removing a task, then removing the same id again, finds nothing and
/// changes nothing; the second call's outcome follows from `remove`'s
/// contract applied to the collection this lemma describes.
pub proof fn lemma_remove_twice_not_found(s: Seq<TodoView>, id: u64)
    requires
        wf_seq(s),
        has_id(s, id),
    ensures
        wf_seq(s.remove(idx_of_id(s, id))),
        !has_id(s.remove(idx_of_id(s, id)), id),
{
    let i = idx_of_id(s, id);
    lemma_remove_wf(s, i);
    let r = s.remove(i);
    assert forall|a: int| 0 <= a < r.len() implies (#[trigger] r[a]).id != id by {
        let a0 = if a < i {
            a
        } else {
            a + 1
        };
        assert(r[a] == s[a0]);
        if a0 != i {
            lemma_idx_of_id(s, id, i);
            if s[a0].id == id {
                lemma_idx_of_id(s, id, a0);
            }
        }
    }
}

/// Filtering distributes over appending one task (pending version).
pub proof fn lemma_pending_push(s: Seq<TodoView>, t: TodoView)
    ensures
        spec_pending(s.push(t)) == if !t.done {
            spec_pending(s).push(t)
        } else {
            spec_pending(s)
        },
{
    assert(s.push(t).drop_last() =~= s);
    reveal_with_fuel(Seq::filter, 2);
}

/// Filtering distributes over appending one task (done version).
pub proof fn lemma_done_push(s: Seq<TodoView>, t: TodoView)
    ensures
        spec_done(s.push(t)) == if t.done {
            spec_done(s).push(t)
        } else {
            spec_done(s)
        },
{
    assert(s.push(t).drop_last() =~= s);
    reveal_with_fuel(Seq::filter, 2);
}

/// The pending and the done tasks together account for every task.
///
/// Law: `clear` removes exactly the completed subset: what it removes and
/// what it keeps partition the collection.
pub proof fn lemma_pending_done_partition(s: Seq<TodoView>)
    ensures
        spec_pending(s).len() + spec_done(s).len() == s.len(),
    decreases s.len(),
{
    if s.len() == 0 {
        reveal_with_fuel(Seq::filter, 1);
    } else {
        lemma_pending_done_partition(s.drop_last());
        let sl = s.drop_last();
        assert(sl.push(s.last()) =~= s);
        lemma_pending_push(sl, s.last());
        lemma_done_push(sl, s.last());
    }
}

/// A collection with no completed task is left whole by `clear`.
pub proof fn lemma_clear_all_pending(s: Seq<TodoView>)
    requires
        forall|i: int| 0 <= i < s.len() ==> !(#[trigger] s[i]).done,
    ensures
        spec_pending(s) == s,
    decreases s.len(),
{
    if s.len() == 0 {
        reveal_with_fuel(Seq::filter, 1);
    } else {
        let sl = s.drop_last();
        lemma_clear_all_pending(sl);
        assert(sl.push(s.last()) =~= s);
        lemma_pending_push(sl, s.last());
        assert(spec_pending(s) =~= s);
    }
}

/// Appending one more task with a given text raises that text's count by one.
pub proof fn lemma_count_text_push(s: Seq<TodoView>, t: TodoView, text: Seq<char>)
    ensures
        count_text(s.push(t), text) == count_text(s, text) + (if t.text == text {
            1int
        } else {
            0int
        }),
{
    assert(s.push(t).drop_last() =~= s);
}

/// A text is present exactly when its count is positive.
pub proof fn lemma_count_text_has(s: Seq<TodoView>, text: Seq<char>)
    ensures
        has_text(s, text) <==> count_text(s, text) > 0,
    decreases s.len(),
{
    if s.len() > 0 {
        let sl = s.drop_last();
        lemma_count_text_has(sl, text);
        if has_text(sl, text) {
            let i = choose|i: int| 0 <= i < sl.len() && sl[i].text == text;
            assert(s[i].text == text);
        }
        if s.last().text == text {
            assert(has_text(s, text));
        }
        if has_text(s, text) && s.last().text != text {
            let i = choose|i: int| 0 <= i < s.len() && s[i].text == text;
            assert(sl[i] == s[i]);
        }
    }
}

/// Law: a fresh, successful `add` leaves exactly one task with the new text,
/// and that task is pending with no completion time.
pub proof fn lemma_add_gives_unique_pending(s: Seq<TodoView>, t: TodoView)
    requires
        wf_seq(s),
        !has_text(s, t.text),
        !t.done,
        t.completed_at is None,
    ensures
        count_text(s.push(t), t.text) == 1,
        s.push(t).last().text == t.text,
        !s.push(t).last().done,
        s.push(t).last().completed_at is None,
{
    lemma_count_text_has(s, t.text);
    lemma_count_text_push(s, t, t.text);
}

/// Law: adding a text puts it in the collection, so a second `add` of the
/// same text meets `has_text` and is rejected with no mutation by `add`'s
/// contract.
pub proof fn lemma_add_twice_rejected(s: Seq<TodoView>, t: TodoView)
    ensures
        has_text(s.push(t), t.text),
{
    assert(s.push(t)[s.len() as int].text == t.text);
}

/// Law: completing a pending task is idempotent in effect. After the first
/// completion the task is done with its completion time set; the same id
/// still resolves to the same task, so by `mark_done`'s contract a second
/// call reports already-done and changes nothing.
pub proof fn lemma_mark_done_idempotent(s: Seq<TodoView>, id: u64, now: u64)
    requires
        wf_seq(s),
        now <= MAX_TIMESTAMP,
        has_id(s, id),
        !s[idx_of_id(s, id)].done,
    ensures
        ({
            let i = idx_of_id(s, id);
            let s2 = s.update(i, (TodoView { done: true, completed_at: Some(now), ..s[i] }));
            &&& wf_seq(s2)
            &&& has_id(s2, id)
            &&& idx_of_id(s2, id) == i
            &&& s2[i].done
            &&& s2[i].completed_at == Some(now)
            &&& s2[i].created_at == s[i].created_at
            &&& s2[i].text == s[i].text
        }),
{
    let i = idx_of_id(s, id);
    lemma_idx_of_id(s, id, i);
    let s2 = s.update(i, (TodoView { done: true, completed_at: Some(now), ..s[i] }));
    assert(wf_seq(s2));
    lemma_idx_of_id(s2, id, i);
}

impl TodoList {
    pub open spec fn wf(self) -> bool {
        wf_seq(self@)
    }

    /// The empty collection.
    pub fn new() -> (l: TodoList)
        ensures
            l@ =~= Seq::<TodoView>::empty(),
            l.wf(),
    {
        TodoList { tasks: Vec::new() }
    }

    /// Wrap an already validated vector of tasks.
    pub fn from_tasks(tasks: Vec<Todo>) -> (l: TodoList)
        requires
            wf_seq(tasks@.map_values(|t: Todo| t@)),
        ensures
            l@ == tasks@.map_values(|t: Todo| t@),
            l.wf(),
    {
        TodoList { tasks }
    }

    /// Whether a vector of tasks satisfies the collection invariant.
    pub fn check_tasks(tasks: &Vec<Todo>) -> (b: bool)
        ensures
            b == wf_seq(tasks@.map_values(|t: Todo| t@)),
    {
        let ghost v = tasks@.map_values(|t: Todo| t@);
        let n = tasks.len();
        let mut i: usize = 0;
        while i < n
            invariant
                n == v.len(),
                i <= n,
                v == tasks@.map_values(|t: Todo| t@),
                forall|a: int| 0 <= a < i ==> (#[trigger] v[a]).wf(),
                forall|a: int, b: int| 0 <= a < b < v.len() && a < i ==> v[a].id != v[b].id,
                forall|a: int, b: int| 0 <= a < b < v.len() && a < i ==> v[a].text != v[b].text,
            decreases n - i,
        {
            let t = &tasks[i];
            let text_ok = !t.text.as_str().is_empty();
            let flag_ok = match t.completed_at {
                Some(c) => t.done && c <= MAX_TIMESTAMP,
                None => !t.done,
            };
            let time_ok = t.created_at <= MAX_TIMESTAMP;
            if !(text_ok && flag_ok && time_ok) {
                return false;
            }
            assert(v[i as int].wf());
            let mut j: usize = i + 1;
            while j < n
                invariant
                    i < j <= n,
                    n == v.len(),
                    v == tasks@.map_values(|t: Todo| t@),
                    forall|b: int| i < b < j ==> v[i as int].id != (#[trigger] v[b]).id,
                    forall|b: int| i < b < j ==> v[i as int].text != (#[trigger] v[b]).text,
                decreases n - j,
            {
                if tasks[i].id == tasks[j].id {
                    proof {
                        assert(v[i as int].id == v[j as int].id);
                        assert(wf_seq(v) ==> v[i as int].id != v[j as int].id);
                    }
                    return false;
                }
                if tasks[i].text == tasks[j].text {
                    proof {
                        assert(v[i as int].text == v[j as int].text);
                        assert(wf_seq(v) ==> v[i as int].text != v[j as int].text);
                    }
                    return false;
                }
                j = j + 1;
            }
            i = i + 1;
        }
        true
    }

    /// The tasks, for reading.
    pub fn tasks(&self) -> (r: &Vec<Todo>)
        ensures
            r@.map_values(|t: Todo| t@) == self@,
    {
        &self.tasks
    }

    pub fn len(&self) -> (n: usize)
        ensures
            n == self@.len(),
    {
        self.tasks.len()
    }

    pub fn is_empty(&self) -> (b: bool)
        ensures
            b == (self@.len() == 0),
    {
        self.tasks.len() == 0
    }

    /// The index of the task carrying `id`, if any.
    fn find_index(&self, id: u64) -> (r: Option<usize>)
        requires
            self.wf(),
        ensures
            r is None <==> !has_id(self@, id),
            r matches Some(i) ==> i < self@.len() && self@[i as int].id == id && idx_of_id(
                self@,
                id,
            ) == i as int,
    {
        let n = self.tasks.len();
        let mut i: usize = 0;
        while i < n
            invariant
                i <= n,
                n == self@.len(),
                self.wf(),
                forall|a: int| 0 <= a < i ==> (#[trigger] self@[a]).id != id,
            decreases n - i,
        {
            if self.tasks[i].id == id {
                proof {
                    lemma_idx_of_id(self@, id, i as int);
                }
                return Some(i);
            }
            i = i + 1;
        }
        None
    }

    /// Whether some task already carries this text.
    fn contains_text(&self, text: &String) -> (b: bool)
        ensures
            b == has_text(self@, text@),
    {
        let n = self.tasks.len();
        let mut i: usize = 0;
        while i < n
            invariant
                i <= n,
                n == self@.len(),
                forall|a: int| 0 <= a < i ==> (#[trigger] self@[a]).text != text@,
            decreases n - i,
        {
            if self.tasks[i].text == *text {
                assert(self@[i as int].text == text@);
                return true;
            }
            i = i + 1;
        }
        false
    }

    /// The largest id in use.
    fn max_id(&self) -> (m: u64)
        requires
            self@.len() > 0,
        ensures
            m == spec_max_id(self@),
    {
        let ghost v = self@;
        let n = self.tasks.len();
        let mut m: u64 = self.tasks[0].id;
        let mut i: usize = 1;
        assert(v.subrange(0, 1) =~= seq![v[0]]);
        while i < n
            invariant
                1 <= i <= n,
                n == v.len(),
                v == self@,
                m == spec_max_id(v.subrange(0, i as int)),
            decreases n - i,
        {
            let id = self.tasks[i].id;
            proof {
                assert(v.subrange(0, i as int + 1).drop_last() =~= v.subrange(0, i as int));
                assert(v.subrange(0, i as int + 1).last() == v[i as int]);
            }
            if id > m {
                m = id;
            }
            i = i + 1;
        }
        assert(v.subrange(0, n as int) =~= v);
        m
    }

    /// Add a task with this text. Rejected when the text is empty, when the
    /// text is already present, or when no fresh id is left; otherwise the
    /// task is appended with the next id, not done, created now.
    pub fn add(&mut self, text: String, now: u64) -> (r: AddOutcome)
        requires
            old(self).wf(),
            now <= MAX_TIMESTAMP,
        ensures
            final(self).wf(),
            text@.len() == 0 ==> r == AddOutcome::EmptyText && final(self)@ == old(self)@,
            text@.len() > 0 && has_text(old(self)@, text@) ==> r == AddOutcome::DuplicateText
                && final(self)@ == old(self)@,
            text@.len() > 0 && !has_text(old(self)@, text@) && spec_next_id(old(self)@)
                <= u64::MAX ==> r == (AddOutcome::Added {
                id: spec_next_id(old(self)@) as u64,
            }) && final(self)@ == old(self)@.push(
                (TodoView {
                    id: spec_next_id(old(self)@) as u64,
                    text: text@,
                    done: false,
                    created_at: now,
                    completed_at: None::<u64>,
                }),
            ),
            text@.len() > 0 && !has_text(old(self)@, text@) && spec_next_id(old(self)@)
                > u64::MAX ==> r == AddOutcome::IdExhausted && final(self)@ == old(self)@,
    {
        if text.as_str().is_empty() {
            return AddOutcome::EmptyText;
        }
        if self.contains_text(&text) {
            return AddOutcome::DuplicateText;
        }
        let id: u64 = if self.tasks.len() == 0 {
            0
        } else {
            let m = self.max_id();
            if m == u64::MAX {
                return AddOutcome::IdExhausted;
            }
            m + 1
        };
        let ghost v = self@;
        let t = Todo::new(id, text, now);
        proof {
            assert forall|a: int| 0 <= a < v.len() implies (#[trigger] v[a]).id != id by {
                lemma_max_id_ge(v, a);
            }
        }
        self.tasks.push(t);
        proof {
            assert(self@ =~= v.push(t@));
            assert(wf_seq(self@));
        }
        AddOutcome::Added { id }
    }

    /// Mark the task carrying `id` as done now. Reports not-found or
    /// already-done without mutation; otherwise only that task changes, and
    /// only its done flag and completion time.
    pub fn mark_done(&mut self, id: u64, now: u64) -> (r: DoneOutcome)
        requires
            old(self).wf(),
            now <= MAX_TIMESTAMP,
        ensures
            final(self).wf(),
            !has_id(old(self)@, id) ==> r == DoneOutcome::NotFound && final(self)@ == old(self)@,
            has_id(old(self)@, id) && old(self)@[idx_of_id(old(self)@, id)].done ==> r
                == DoneOutcome::AlreadyDone && final(self)@ == old(self)@,
            has_id(old(self)@, id) && !old(self)@[idx_of_id(old(self)@, id)].done ==> r
                == DoneOutcome::Completed && final(self)@ == old(self)@.update(
                idx_of_id(old(self)@, id),
                (TodoView {
                    done: true,
                    completed_at: Some(now),
                    ..old(self)@[idx_of_id(old(self)@, id)]
                }),
            ),
    {
        let i = match self.find_index(id) {
            Some(i) => i,
            None => {
                return DoneOutcome::NotFound;
            },
        };
        if self.tasks[i].done {
            return DoneOutcome::AlreadyDone;
        }
        let ghost v = self@;
        let mut t = self.tasks.remove(i);
        t.mark_done(now);
        self.tasks.insert(i, t);
        proof {
            assert(self@ =~= v.update(i as int, t@));
            assert(wf_seq(self@)) by {
                assert forall|a: int| 0 <= a < self@.len() implies (#[trigger] self@[a]).wf() by {
                    if a != i as int {
                        assert(self@[a] == v[a]);
                    }
                }
                assert forall|a: int, b: int| 0 <= a < b < self@.len() implies self@[a].id
                    != self@[b].id && self@[a].text != self@[b].text by {
                    assert(self@[a].id == v[a].id && self@[a].text == v[a].text);
                    assert(self@[b].id == v[b].id && self@[b].text == v[b].text);
                }
            }
        }
        DoneOutcome::Completed
    }

    /// Remove the task carrying `id` and hand it back; `None` and no change
    /// when no task carries it.
    pub fn remove(&mut self, id: u64) -> (r: Option<Todo>)
        requires
            old(self).wf(),
        ensures
            final(self).wf(),
            !has_id(old(self)@, id) ==> r is None && final(self)@ == old(self)@,
            has_id(old(self)@, id) ==> (r matches Some(t) && t@ == old(self)@[idx_of_id(
                old(self)@,
                id,
            )] && final(self)@ == old(self)@.remove(idx_of_id(old(self)@, id))),
    {
        let i = match self.find_index(id) {
            Some(i) => i,
            None => {
                return None;
            },
        };
        let ghost v = self@;
        let t = self.tasks.remove(i);
        proof {
            assert(self@ =~= v.remove(i as int));
            lemma_remove_wf(v, i as int);
        }
        Some(t)
    }

    /// Delete every completed task; the pending ones stay, in their original
    /// order. Returns how many tasks were removed.
    pub fn clear(&mut self) -> (removed: usize)
        requires
            old(self).wf(),
        ensures
            final(self).wf(),
            final(self)@ == spec_pending(old(self)@),
            removed == spec_count_done(old(self)@),
            removed == old(self)@.len() - final(self)@.len(),
            removed == 0 ==> final(self)@ == old(self)@,
    {
        let ghost v = self@;
        let n = self.tasks.len();
        let mut kept: Vec<Todo> = Vec::new();
        let mut removed: usize = 0;
        let mut i: usize = 0;
        proof {
            assert(v.subrange(0, 0) =~= Seq::<TodoView>::empty());
            reveal_with_fuel(Seq::filter, 1);
        }
        while i < n
            invariant
                i <= n,
                n == v.len(),
                v == self@,
                self.wf(),
                kept@.map_values(|t: Todo| t@) =~= spec_pending(v.subrange(0, i as int)),
                removed == spec_count_done(v.subrange(0, i as int)),
                removed <= i,
            decreases n - i,
        {
            let ghost pre = v.subrange(0, i as int);
            proof {
                assert(v.subrange(0, i as int + 1).drop_last() =~= pre);
                assert(v.subrange(0, i as int + 1) =~= pre.push(v[i as int]));
                lemma_pending_push(pre, v[i as int]);
                lemma_done_push(pre, v[i as int]);
            }
            let done = self.tasks[i].done;
            if done {
                removed = removed + 1;
            } else {
                let ghost kv = kept@.map_values(|t: Todo| t@);
                let t = self.task_clone(i);
                kept.push(t);
                proof {
                    assert(kept@.map_values(|t: Todo| t@) =~= kv.push(v[i as int]));
                }
            }
            i = i + 1;
        }
        proof {
            assert(v.subrange(0, n as int) =~= v);
            lemma_pending_done_partition(v);
            assert forall|a: int, b: int|
                0 <= a < b < spec_pending(v).len() implies spec_pending(v)[a].id != spec_pending(
                v,
            )[b].id && spec_pending(v)[a].text != spec_pending(v)[b].text by {
                lemma_pending_is_sub(v, a, b);
            }
            assert forall|a: int| 0 <= a < spec_pending(v).len() implies (#[trigger] spec_pending(
                v,
            )[a]).wf() by {
                lemma_pending_elt(v, a);
            }
            if spec_count_done(v) == 0 {
                assert(spec_pending(v) =~= v) by {
                    lemma_pending_done_partition(v);
                    assert forall|a: int| 0 <= a < v.len() implies !(#[trigger] v[a]).done by {
                        if v[a].done {
                            lemma_done_member(v, a);
                        }
                    }
                    lemma_clear_all_pending(v);
                }
            }
        }
        self.tasks = kept;
        removed
    }

    /// Clone of the task at an index (the element itself, field by field, so
    /// that its model is preserved).
    fn task_clone(&self, i: usize) -> (t: Todo)
        requires
            i < self@.len(),
        ensures
            t@ == self@[i as int],
    {
        let src = &self.tasks[i];
        Todo {
            id: src.id,
            text: src.text.clone(),
            done: src.done,
            created_at: src.created_at,
            completed_at: src.completed_at,
        }
    }

    /// Totals: how many tasks, how many done, how many pending, and the
    /// completion rate in tenths of a percent.
    pub fn stats(&self) -> (st: Stats)
        ensures
            st.total == self@.len(),
            st.completed == spec_count_done(self@),
            st.pending == self@.len() - spec_count_done(self@),
            st.rate_tenths == spec_rate_tenths(self@),
    {
        let ghost v = self@;
        let n = self.tasks.len();
        let mut completed: usize = 0;
        let mut i: usize = 0;
        proof {
            assert(v.subrange(0, 0) =~= Seq::<TodoView>::empty());
            reveal_with_fuel(Seq::filter, 1);
        }
        while i < n
            invariant
                i <= n,
                n == v.len(),
                v == self@,
                completed == spec_count_done(v.subrange(0, i as int)),
                completed <= i,
            decreases n - i,
        {
            let ghost pre = v.subrange(0, i as int);
            proof {
                assert(v.subrange(0, i as int + 1).drop_last() =~= pre);
                assert(v.subrange(0, i as int + 1) =~= pre.push(v[i as int]));
                lemma_done_push(pre, v[i as int]);
            }
            if self.tasks[i].done {
                completed = completed + 1;
            }
            i = i + 1;
        }
        proof {
            assert(v.subrange(0, n as int) =~= v);
            lemma_pending_done_partition(v);
        }
        let rate: u64 = if n == 0 {
            0
        } else {
            let wide: u128 = (completed as u128) * 1000 / (n as u128);
            proof {
                lemma_rate_bound(completed as int, n as int);
            }
            wide as u64
        };
        Stats { total: n, completed, pending: n - completed, rate_tenths: rate }
    }

    /// The first index whose task is oldest by creation time.
    pub fn oldest_index(&self) -> (r: Option<usize>)
        ensures
            r is None <==> self@.len() == 0,
            r matches Some(i) ==> i < self@.len() && (forall|j: int|
                0 <= j < self@.len() ==> self@[i as int].created_at <= (
                #[trigger] self@[j]).created_at) && (forall|j: int|
                0 <= j < i ==> (#[trigger] self@[j]).created_at > self@[i as int].created_at),
    {
        let n = self.tasks.len();
        if n == 0 {
            return None;
        }
        let mut best: usize = 0;
        let mut i: usize = 1;
        while i < n
            invariant
                best < i <= n,
                n == self@.len(),
                forall|j: int| 0 <= j < i ==> self@[best as int].created_at <= (
                #[trigger] self@[j]).created_at,
                forall|j: int| 0 <= j < best ==> (#[trigger] self@[j]).created_at
                    > self@[best as int].created_at,
            decreases n - i,
        {
            if self.tasks[i].created_at < self.tasks[best].created_at {
                best = i;
            }
            i = i + 1;
        }
        Some(best)
    }

    /// The last index whose task is newest by creation time.
    pub fn newest_index(&self) -> (r: Option<usize>)
        ensures
            r is None <==> self@.len() == 0,
            r matches Some(i) ==> i < self@.len() && (forall|j: int|
                0 <= j < self@.len() ==> self@[i as int].created_at >= (
                #[trigger] self@[j]).created_at) && (forall|j: int|
                i < j < self@.len() ==> (#[trigger] self@[j]).created_at < self@[i as int].created_at),
    {
        let n = self.tasks.len();
        if n == 0 {
            return None;
        }
        let mut best: usize = 0;
        let mut i: usize = 1;
        while i < n
            invariant
                best < i <= n,
                n == self@.len(),
                forall|j: int| 0 <= j < i ==> self@[best as int].created_at >= (
                #[trigger] self@[j]).created_at,
                forall|j: int| best < j < i ==> (#[trigger] self@[j]).created_at
                    < self@[best as int].created_at,
            decreases n - i,
        {
            if self.tasks[i].created_at >= self.tasks[best].created_at {
                best = i;
            }
            i = i + 1;
        }
        Some(best)
    }
}

/// Any two positions of the filtered pending sequence come from two distinct
/// positions of the original, in order; so distinct ids and texts carry over.
proof fn lemma_pending_is_sub(s: Seq<TodoView>, a: int, b: int)
    requires
        wf_seq(s),
        0 <= a < b < spec_pending(s).len(),
    ensures
        spec_pending(s)[a].id != spec_pending(s)[b].id,
        spec_pending(s)[a].text != spec_pending(s)[b].text,
    decreases s.len(),
{
    if s.len() > 0 {
        let sl = s.drop_last();
        assert(sl.push(s.last()) =~= s);
        lemma_pending_push(sl, s.last());
        assert(wf_seq(sl));
        if !s.last().done && b == spec_pending(s).len() - 1 {
            lemma_pending_member(sl, a);
        } else {
            lemma_pending_is_sub(sl, a, b);
        }
    }
}

/// Every pending-sequence element occurs in the original at some position.
proof fn lemma_pending_member(s: Seq<TodoView>, a: int)
    requires
        0 <= a < spec_pending(s).len(),
    ensures
        exists|i: int| 0 <= i < s.len() && s[i] == spec_pending(s)[a],
    decreases s.len(),
{
    if s.len() > 0 {
        let sl = s.drop_last();
        assert(sl.push(s.last()) =~= s);
        lemma_pending_push(sl, s.last());
        if !s.last().done && a == spec_pending(s).len() - 1 {
            assert(s[s.len() - 1] == spec_pending(s)[a]);
        } else {
            lemma_pending_member(sl, a);
            let i = choose|i: int| 0 <= i < sl.len() && sl[i] == spec_pending(sl)[a];
            assert(s[i] == spec_pending(s)[a]);
        }
    }
}

/// Every pending-sequence element is well formed when the original is.
proof fn lemma_pending_elt(s: Seq<TodoView>, a: int)
    requires
        wf_seq(s),
        0 <= a < spec_pending(s).len(),
    ensures
        spec_pending(s)[a].wf(),
        !spec_pending(s)[a].done,
    decreases s.len(),
{
    if s.len() > 0 {
        let sl = s.drop_last();
        assert(sl.push(s.last()) =~= s);
        lemma_pending_push(sl, s.last());
        assert(wf_seq(sl));
        if !s.last().done && a == spec_pending(s).len() - 1 {
            assert(spec_pending(s)[a] == s.last());
        } else {
            lemma_pending_elt(sl, a);
        }
    }
}

/// A done element of the original contributes to the done sequence.
proof fn lemma_done_member(s: Seq<TodoView>, i: int)
    requires
        0 <= i < s.len(),
        s[i].done,
    ensures
        spec_done(s).len() > 0,
    decreases s.len(),
{
    if s.len() > 0 {
        let sl = s.drop_last();
        assert(sl.push(s.last()) =~= s);
        lemma_done_push(sl, s.last());
        if i < s.len() - 1 {
            assert(sl[i] == s[i]);
            lemma_done_member(sl, i);
        }
    }
}

/// The scaled completion rate stays at or under 1000.
proof fn lemma_rate_bound(c: int, t: int)
    requires
        0 <= c <= t,
        0 < t,
    ensures
        0 <= c * 1000 / t <= 1000,
{
    assert(c * 1000 <= t * 1000) by (nonlinear_arith)
        requires
            c <= t,
    ;
    assert(c * 1000 / t <= t * 1000 / t) by {
        vstd::arithmetic::div_mod::lemma_div_is_ordered(c * 1000, t * 1000, t);
    }
    assert(t * 1000 / t == 1000) by {
        vstd::arithmetic::div_mod::lemma_div_by_multiple(1000, t);
    }
    assert(c * 1000 >= 0) by (nonlinear_arith)
        requires
            c >= 0,
    ;
    assert(c * 1000 / t >= 0) by {
        vstd::arithmetic::div_mod::lemma_div_pos_is_pos(c * 1000, t);
    }
}

} // verus!
