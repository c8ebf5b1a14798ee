//! The task state machine: committed entries become tasks, whose status
//! workers advance.

use crate::raft::{entries_view, EntryView, RaftLogEntry};
use crate::text::str_eq;
use vstd::prelude::*;

verus! {

#[derive(Debug, Clone, Copy, PartialEq, Eq, Structural)]
pub enum TaskStatus {
    Pending,
    Running,
    Completed,
    Failed,
}

#[derive(Debug, Clone, PartialEq, Eq)]
pub struct Task {
    pub id: String,
    pub payload: Vec<u8>,
    pub status: TaskStatus,
}

/// The mathematical value of a task.
pub ghost struct TaskView {
    pub id: Seq<char>,
    pub payload: Seq<u8>,
    pub status: TaskStatus,
}

impl View for Task {
    type V = TaskView;

    open spec fn view(&self) -> TaskView {
        TaskView { id: self.id@, payload: self.payload@, status: self.status }
    }
}

/// Pure in-memory task state machine. Applying a committed entry records a
/// task with its id and payload as pending; callers advance its status as
/// workers process it. Each id names at most one task.
#[derive(Debug, Clone)]
pub struct TaskState {
    tasks: Vec<Task>,
}

/// The values of a sequence of strings.
pub open spec fn strings_view(v: Seq<String>) -> Seq<Seq<char>> {
    v.map_values(|s: String| s@)
}

/// The ids of a sequence of tasks.
pub open spec fn task_ids(v: Seq<Task>) -> Seq<Seq<char>> {
    v.map_values(|t: Task| t.id@)
}

/// The tasks keyed by id.
pub open spec fn tasks_by_id(v: Seq<Task>) -> Map<Seq<char>, TaskView> {
    Map::new(|k: Seq<char>| task_ids(v).contains(k), |k: Seq<char>| v[task_ids(v).index_of(k)]@)
}

/// The tasks after applying a committed entry for `id`: a new pending task,
/// unless `id` is already known.
pub open spec fn task_applied(m: Map<Seq<char>, TaskView>, id: Seq<char>, payload: Seq<u8>) -> Map<
    Seq<char>,
    TaskView,
> {
    if m.contains_key(id) {
        m
    } else {
        m.insert(id, TaskView { id, payload, status: TaskStatus::Pending })
    }
}

/// The tasks after setting the status of the task named `id`, if known.
pub open spec fn status_set(m: Map<Seq<char>, TaskView>, id: Seq<char>, status: TaskStatus) -> Map<
    Seq<char>,
    TaskView,
> {
    if m.contains_key(id) {
        m.insert(id, TaskView { status, ..m[id] })
    } else {
        m
    }
}

/// Applying the same task id again changes nothing, whatever payload comes
/// with it.
pub proof fn lemma_apply_idempotent(m: Map<Seq<char>, TaskView>, id: Seq<char>, p: Seq<u8>, q: Seq<u8>)
    ensures
        task_applied(task_applied(m, id, p), id, q) == task_applied(m, id, p),
{
}

/// Applying an id that is already known keeps its payload and status.
pub proof fn lemma_apply_keeps_known_task(m: Map<Seq<char>, TaskView>, id: Seq<char>, p: Seq<u8>)
    requires
        m.contains_key(id),
    ensures
        task_applied(m, id, p)[id] == m[id],
{
}

/// A newly applied task is pending and carries the applied payload.
pub proof fn lemma_new_task_pending(m: Map<Seq<char>, TaskView>, id: Seq<char>, p: Seq<u8>)
    requires
        !m.contains_key(id),
    ensures
        task_applied(m, id, p)[id] == (TaskView { id, payload: p, status: TaskStatus::Pending }),
{
}

/// Setting a status touches no other task and keeps the task's id and
/// payload; setting it for an unknown id changes nothing.
pub proof fn lemma_status_set_local(m: Map<Seq<char>, TaskView>, id: Seq<char>, s: TaskStatus, other: Seq<char>)
    ensures
        status_set(m, id, s).dom() == m.dom(),
        other != id && m.contains_key(other) ==> status_set(m, id, s)[other] == m[other],
        m.contains_key(id) ==> status_set(m, id, s)[id].status == s && status_set(m, id, s)[id].payload
            == m[id].payload,
{
    if m.contains_key(id) {
        assert(status_set(m, id, s).dom() =~= m.dom());
    }
}

/// The tasks after applying each entry in turn, by its task id and payload.
pub open spec fn entries_applied(m: Map<Seq<char>, TaskView>, es: Seq<EntryView>) -> Map<Seq<char>, TaskView>
    decreases es.len(),
{
    if es.len() == 0 {
        m
    } else {
        let p = entries_applied(m, es.drop_last());
        task_applied(p, es.last().task_id, es.last().payload)
    }
}

/// A task table: finitely many tasks, each stored under its own id.
pub open spec fn keyed(m: Map<Seq<char>, TaskView>) -> bool {
    &&& m.dom().finite()
    &&& forall|k: Seq<char>| #[trigger] m.contains_key(k) ==> m[k].id == k
}

/// Recording a task under its id keeps a table keyed; so does setting a
/// status.
pub proof fn lemma_keyed_preserved(m: Map<Seq<char>, TaskView>, id: Seq<char>, p: Seq<u8>, s: TaskStatus)
    requires
        keyed(m),
    ensures
        keyed(task_applied(m, id, p)),
        keyed(status_set(m, id, s)),
{
}

impl View for TaskState {
    type V = Map<Seq<char>, TaskView>;

    closed spec fn view(&self) -> Map<Seq<char>, TaskView> {
        tasks_by_id(self.tasks@)
    }
}

/// A table of tasks with distinct ids is keyed.
proof fn lemma_tasks_keyed(v: Seq<Task>)
    requires
        task_ids(v).no_duplicates(),
    ensures
        keyed(tasks_by_id(v)),
{
    let ids = task_ids(v);
    assert(tasks_by_id(v).dom() =~= ids.to_set());
    ids.unique_seq_to_set();
    assert forall|k: Seq<char>| #[trigger] tasks_by_id(v).contains_key(k) implies tasks_by_id(v)[k].id == k by {
        let j = ids.index_of(k);
        assert(ids[j] == v[j].id@);
    }
}

/// With distinct ids, the task at position `i` is the one stored under its id.
proof fn lemma_lookup(v: Seq<Task>, i: int)
    requires
        task_ids(v).no_duplicates(),
        0 <= i < v.len(),
    ensures
        tasks_by_id(v).contains_key(v[i].id@),
        tasks_by_id(v)[v[i].id@] == v[i]@,
{
    let ids = task_ids(v);
    assert(ids[i] == v[i].id@);
    assert(ids.contains(v[i].id@));
    let j = ids.index_of(v[i].id@);
    assert(ids[j] == ids[i]);
}

impl TaskState {
    /// Each id names at most one task.
    pub closed spec fn wf(&self) -> bool {
        task_ids(self.tasks@).no_duplicates()
    }

    pub fn new() -> (s: Self)
        ensures
            s.wf(),
            s@ == Map::<Seq<char>, TaskView>::empty(),
            keyed(s@),
    {
        let s = TaskState { tasks: Vec::new() };
        assert(s@ =~= Map::<Seq<char>, TaskView>::empty());
        s
    }

    /// The position of the task named `id`.
    fn position(&self, id: &str) -> (r: Option<usize>)
        requires
            self.wf(),
        ensures
            match r {
                Some(i) => i < self.tasks@.len() && self.tasks@[i as int].id@ == id@,
                None => !task_ids(self.tasks@).contains(id@),
            },
    {
        let mut i: usize = 0;
        while i < self.tasks.len()
            invariant
                i <= self.tasks@.len(),
                forall|j: int| 0 <= j < i ==> self.tasks@[j].id@ != id@,
            decreases self.tasks@.len() - i,
        {
            if str_eq(self.tasks[i].id.as_str(), id) {
                return Some(i);
            }
            i = i + 1;
        }
        proof {
            if task_ids(self.tasks@).contains(id@) {
                let j = task_ids(self.tasks@).index_of(id@);
                assert(self.tasks@[j].id@ == id@);
            }
        }
        None
    }

    /// Records a committed task as pending unless its id is already known,
    /// in which case the known task, status included, is kept. Returns the
    /// task stored under `id`.
    pub fn apply(&mut self, id: String, payload: Vec<u8>) -> (t: &Task)
        requires
            old(self).wf(),
        ensures
            final(self).wf(),
            final(self)@ == task_applied(old(self)@, id@, payload@),
            final(self)@.contains_key(id@),
            t@ == final(self)@[id@],
            t@.id == id@,
            keyed(final(self)@),
    {
        proof {
            lemma_tasks_keyed(self.tasks@);
            lemma_keyed_preserved(self@, id@, payload@, TaskStatus::Pending);
        }
        self.apply_inner(id, payload)
    }

    fn apply_inner(&mut self, id: String, payload: Vec<u8>) -> (t: &Task)
        requires
            old(self).wf(),
        ensures
            final(self).wf(),
            final(self)@ == task_applied(old(self)@, id@, payload@),
            final(self)@.contains_key(id@),
            t@ == final(self)@[id@],
    {
        match self.position(id.as_str()) {
            Some(i) => {
                proof { lemma_lookup(self.tasks@, i as int); }
                &self.tasks[i]
            },
            None => {
                let ghost old_tasks = self.tasks@;
                let ghost new_id = id@;
                let task = Task { id, payload, status: TaskStatus::Pending };
                self.tasks.push(task);
                let n = self.tasks.len();
                proof {
                    let ids = task_ids(self.tasks@);
                    assert(task_ids(old_tasks) =~= ids.drop_last());
                    assert forall|a: int, b: int| 0 <= a < ids.len() && 0 <= b < ids.len() && a != b
                        implies ids[a] != ids[b] by {
                        if a < ids.len() - 1 && b < ids.len() - 1 {
                            assert(ids[a] == task_ids(old_tasks)[a]);
                            assert(ids[b] == task_ids(old_tasks)[b]);
                        } else if a == ids.len() - 1 {
                            assert(task_ids(old_tasks)[b] == ids[b]);
                        } else {
                            assert(task_ids(old_tasks)[a] == ids[a]);
                        }
                    }
                    assert forall|k: Seq<char>| #[trigger] tasks_by_id(self.tasks@).contains_key(k)
                        == old(self)@.insert(new_id, self.tasks@[n - 1]@).contains_key(k) by {
                        if ids.contains(k) && k != new_id {
                            let j = ids.index_of(k);
                            assert(task_ids(old_tasks)[j] == k);
                        }
                        if task_ids(old_tasks).contains(k) {
                            let j = task_ids(old_tasks).index_of(k);
                            assert(ids[j] == k);
                        }
                        assert(ids[n - 1] == new_id);
                    }
                    assert forall|k: Seq<char>| #[trigger] tasks_by_id(self.tasks@).contains_key(k) implies
                        tasks_by_id(self.tasks@)[k] == old(self)@.insert(new_id, self.tasks@[n - 1]@)[k] by {
                        let j = ids.index_of(k);
                        lemma_lookup(self.tasks@, j);
                        if k != new_id {
                            assert(task_ids(old_tasks)[j] == k);
                            lemma_lookup(old_tasks, j);
                        } else {
                            lemma_lookup(self.tasks@, n - 1);
                        }
                    }
                    assert(self@ =~= old(self)@.insert(new_id, self.tasks@[n - 1]@));
                    lemma_lookup(self.tasks@, n - 1);
                }
                &self.tasks[n - 1]
            },
        }
    }

    /// Applies each entry in turn, as `apply` does, by its task id and
    /// payload: how the task table is rebuilt from a replayed Raft log.
    pub fn apply_entries(&mut self, entries: &[RaftLogEntry])
        requires
            old(self).wf(),
        ensures
            final(self).wf(),
            final(self)@ == entries_applied(old(self)@, entries_view(entries@)),
            keyed(final(self)@),
    {
        proof { lemma_tasks_keyed(self.tasks@); }
        let ghost es = entries_view(entries@);
        let ghost start = self@;
        let mut i: usize = 0;
        assert(es.take(0) =~= Seq::<EntryView>::empty());
        while i < entries.len()
            invariant
                es == entries_view(entries@),
                i <= es.len(),
                self.wf(),
                self@ == entries_applied(start, es.take(i as int)),
                keyed(self@),
            decreases es.len() - i,
        {
            let e = &entries[i];
            assert(es.take(i + 1).drop_last() =~= es.take(i as int));
            assert(es.take(i + 1).last() == e@);
            let payload = e.payload.clone();
            assert(payload@ =~= e.payload@);
            self.apply(e.task_id.clone(), payload);
            i = i + 1;
        }
        assert(es.take(i as int) =~= es);
    }

    /// The task named `id`, if known.
    pub fn get(&self, id: &str) -> (r: Option<&Task>)
        requires
            self.wf(),
        ensures
            r is Some <==> self@.contains_key(id@),
            r matches Some(t) ==> t@ == self@[id@] && t@.id == id@,
            keyed(self@),
    {
        proof { lemma_tasks_keyed(self.tasks@); }
        match self.position(id) {
            Some(i) => {
                proof { lemma_lookup(self.tasks@, i as int); }
                Some(&self.tasks[i])
            },
            None => None,
        }
    }

    /// Sets the status of the task named `id`, if known, and returns it.
    pub fn set_status(&mut self, id: &str, status: TaskStatus) -> (r: Option<&Task>)
        requires
            old(self).wf(),
        ensures
            final(self).wf(),
            r is Some <==> old(self)@.contains_key(id@),
            final(self)@ == status_set(old(self)@, id@, status),
            r matches Some(t) ==> t@ == final(self)@[id@],
            r matches Some(t) ==> t@ == (TaskView { id: id@, payload: old(self)@[id@].payload, status }),
            keyed(final(self)@),
    {
        proof {
            lemma_tasks_keyed(self.tasks@);
            lemma_keyed_preserved(self@, id@, Seq::empty(), status);
        }
        self.set_status_inner(id, status)
    }

    fn set_status_inner(&mut self, id: &str, status: TaskStatus) -> (r: Option<&Task>)
        requires
            old(self).wf(),
        ensures
            final(self).wf(),
            r is Some <==> old(self)@.contains_key(id@),
            final(self)@ == status_set(old(self)@, id@, status),
            r matches Some(t) ==> t@ == final(self)@[id@],
    {
        match self.position(id) {
            Some(i) => {
                let ghost old_tasks = self.tasks@;
                proof { lemma_lookup(old_tasks, i as int); }
                let mut task = self.tasks.remove(i);
                task.status = status;
                self.tasks.insert(i, task);
                proof {
                    let ids = task_ids(self.tasks@);
                    assert(self.tasks@ =~= old_tasks.update(i as int, self.tasks@[i as int]));
                    assert(self.tasks@[i as int]@ == TaskView { status, ..old_tasks[i as int]@ });
                    assert(ids =~= task_ids(old_tasks));
                    assert forall|k: Seq<char>| #[trigger] tasks_by_id(self.tasks@).contains_key(k) implies
                        tasks_by_id(self.tasks@)[k] == old(self)@.insert(id@, TaskView { status, ..old(self)@[id@] })[k] by {
                        let j = ids.index_of(k);
                        lemma_lookup(self.tasks@, j);
                        lemma_lookup(old_tasks, j);
                        if j != i {
                            assert(self.tasks@[j] == old_tasks[j]);
                            assert(task_ids(old_tasks)[j] == old_tasks[j].id@);
                            assert(task_ids(old_tasks)[i as int] == old_tasks[i as int].id@);
                            assert(old_tasks[j].id@ != id@);
                        }
                    }
                    assert(self@ =~= old(self)@.insert(id@, TaskView { status, ..old(self)@[id@] }));
                    lemma_lookup(self.tasks@, i as int);
                }
                Some(&self.tasks[i])
            },
            None => {
                proof {
                    assert(!old(self)@.contains_key(id@));
                }
                None
            },
        }
    }

    /// The number of known tasks.
    pub fn len(&self) -> (n: usize)
        requires
            self.wf(),
        ensures
            n == self@.len(),
            keyed(self@),
    {
        proof { lemma_tasks_keyed(self.tasks@); }
        proof {
            let ids = task_ids(self.tasks@);
            ids.unique_seq_to_set();
            assert(self@.dom() =~= ids.to_set());
        }
        self.tasks.len()
    }

    pub fn is_empty(&self) -> (b: bool)
        requires
            self.wf(),
        ensures
            b == (self@.len() == 0),
    {
        self.len() == 0
    }

    /// The ids of the known tasks, each once, in the order they were applied.
    pub fn ids(&self) -> (r: Vec<String>)
        requires
            self.wf(),
        ensures
            strings_view(r@).no_duplicates(),
            strings_view(r@).to_set() == self@.dom(),
            keyed(self@),
    {
        proof { lemma_tasks_keyed(self.tasks@); }
        let mut r: Vec<String> = Vec::new();
        let mut i: usize = 0;
        while i < self.tasks.len()
            invariant
                self.wf(),
                i <= self.tasks@.len(),
                strings_view(r@) == task_ids(self.tasks@).take(i as int),
            decreases self.tasks@.len() - i,
        {
            let ghost before = r@;
            let id = self.tasks[i].id.clone();
            assert(id@ == task_ids(self.tasks@)[i as int]);
            r.push(id);
            assert(strings_view(r@) =~= strings_view(before).push(id@));
            assert(task_ids(self.tasks@).take(i + 1) =~= task_ids(self.tasks@).take(i as int).push(id@));
            i = i + 1;
        }
        assert(task_ids(self.tasks@).take(i as int) =~= task_ids(self.tasks@));
        assert(self@.dom() =~= task_ids(self.tasks@).to_set());
        r
    }
}

impl Default for TaskState {
    fn default() -> (s: Self)
        ensures
            s.wf(),
            s@ == Map::<Seq<char>, TaskView>::empty(),
            keyed(s@),
    {
        TaskState::new()
    }
}

} // verus!
