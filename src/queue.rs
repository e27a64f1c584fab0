//! The queue supervisor's task table and lifecycle state machine.
//!
//! Every operation is a synchronous step on the table that returns the
//! events it causes. The events double as instructions for whoever runs the
//! engines: `TaskStarted` starts one, `TaskPaused` and `TaskCancelled` stop
//! one, and a cancelled task's destination and journal are deleted.

use vstd::prelude::*;
use crate::checksum::{expected_of, spells_digest};
use crate::ident::new_task_id;
use crate::progress::{eta, eta_of};
use crate::types::{
    is_removable, is_terminal, legal_transition, priority_rank, ChecksumType, DownloadError,
    DownloadTask, Priority, QueueEvent, TaskStatus,
};

verus! {

/// Number of tasks in `s` whose status is `st`.
pub open spec fn count_status(s: Seq<DownloadTask>, st: TaskStatus) -> nat
    decreases s.len(),
{
    if s.len() == 0 {
        0
    } else {
        count_status(s.drop_last(), st) + if s.last().status == st { 1nat } else { 0nat }
    }
}

/// No two tasks share an id.
pub open spec fn unique_ids(s: Seq<DownloadTask>) -> bool {
    forall|i: int, j: int| 0 <= i < s.len() && 0 <= j < s.len() && i != j ==> #[trigger] s[i].id@ != #[trigger] s[j].id@
}

pub open spec fn has_id(s: Seq<DownloadTask>, id: Seq<char>) -> bool {
    exists|i: int| 0 <= i < s.len() && #[trigger] s[i].id@ == id
}

/// Admission order: higher priority first, then earlier creation, then
/// earlier submission.
pub open spec fn ranks_before(a: DownloadTask, ia: int, b: DownloadTask, ib: int) -> bool {
    ||| priority_rank(a.priority) > priority_rank(b.priority)
    ||| (priority_rank(a.priority) == priority_rank(b.priority) && a.created_at < b.created_at)
    ||| (priority_rank(a.priority) == priority_rank(b.priority) && a.created_at == b.created_at && ia < ib)
}

/// `t` with its status replaced.
pub open spec fn with_status(t: DownloadTask, st: TaskStatus) -> DownloadTask {
    DownloadTask { status: st, ..t }
}

/// A row's own invariants: it carries an error exactly when Failed, and
/// never more bytes than its total once the total is known.
pub open spec fn row_ok(t: DownloadTask) -> bool {
    &&& (t.error is Some <==> t.status == TaskStatus::Failed)
    &&& (t.total_size > 0 ==> t.downloaded <= t.total_size)
}

pub open spec fn rows_ok(s: Seq<DownloadTask>) -> bool {
    forall|k: int| 0 <= k < s.len() ==> row_ok(#[trigger] s[k])
}

/// `t` moved to status `st` with error `error`.
pub open spec fn moved(t: DownloadTask, st: TaskStatus, error: Option<String>) -> DownloadTask {
    DownloadTask { status: st, error, ..t }
}

/// `row` is how a task read from a snapshot is taken in: Downloading comes
/// back Paused, bytes beyond a known total are cut to it, an error is kept
/// only on a Failed task, and a Failed task always has one.
pub open spec fn restored(t: DownloadTask, row: DownloadTask) -> bool {
    &&& row.id == t.id && row.url == t.url && row.dest == t.dest
    &&& row.total_size == t.total_size && row.created_at == t.created_at
    &&& row.priority == t.priority && row.checksum == t.checksum
    &&& row.status == (if t.status == TaskStatus::Downloading { TaskStatus::Paused } else { t.status })
    &&& row.downloaded == (if t.total_size > 0 && t.downloaded > t.total_size { t.total_size } else { t.downloaded })
    &&& (row.status == TaskStatus::Failed && t.error is Some ==> row.error == t.error)
    &&& row_ok(row)
}

/// `final` is `old` with some Pending tasks moved to Downloading.
pub open spec fn only_admitted(old: Seq<DownloadTask>, new: Seq<DownloadTask>) -> bool {
    &&& new.len() == old.len()
    &&& forall|k: int| 0 <= k < old.len() ==> #[trigger] new[k] == old[k]
        || (old[k].status == TaskStatus::Pending && new[k] == with_status(old[k], TaskStatus::Downloading))
}

/// The events announce exactly tasks that moved from Pending to Downloading.
pub open spec fn start_events(old: Seq<DownloadTask>, new: Seq<DownloadTask>, events: Seq<QueueEvent>) -> bool {
    &&& events.len() + count_status(old, TaskStatus::Downloading) == count_status(new, TaskStatus::Downloading)
    &&& forall|e: int| 0 <= e < events.len() ==> (match #[trigger] events[e] {
        QueueEvent::TaskStarted { task_id } => exists|k: int| 0 <= k < new.len()
            && old[k].status == TaskStatus::Pending && new[k].status == TaskStatus::Downloading
            && #[trigger] new[k].id@ == task_id@,
        _ => false,
    })
}

/// Admission has filled every slot it could, best-ranked tasks first.
pub open spec fn admission_done(old: Seq<DownloadTask>, new: Seq<DownloadTask>, max: nat) -> bool {
    &&& count_status(new, TaskStatus::Downloading) == max || count_status(new, TaskStatus::Pending) == 0
    &&& forall|a: int, b: int| 0 <= a < new.len() && 0 <= b < new.len()
        && old[a].status == TaskStatus::Pending && new[a].status == TaskStatus::Downloading
        && new[b].status == TaskStatus::Pending ==> ranks_before(#[trigger] old[a], a, #[trigger] old[b], b)
}

/// Admission ran on `mid` and produced `fin`, announcing each start in `events`.
pub open spec fn admitted(mid: Seq<DownloadTask>, fin: Seq<DownloadTask>, max: nat, events: Seq<QueueEvent>) -> bool {
    &&& only_admitted(mid, fin)
    &&& admission_done(mid, fin, max)
    &&& start_events(mid, fin, events)
}

/// Position of the task with id `id`.
pub open spec fn pos(s: Seq<DownloadTask>, id: Seq<char>) -> int {
    choose|i: int| 0 <= i < s.len() && #[trigger] s[i].id@ == id
}

/// `row` was appended to `old`, admission then ran and produced `fin`, and
/// `events` are `TaskAdded` for the row followed by the admission's starts.
pub open spec fn appended(old: Seq<DownloadTask>, fin: Seq<DownloadTask>, max: nat, row: DownloadTask,
    events: Seq<QueueEvent>) -> bool {
    let mid = old.push(row);
    &&& only_admitted(mid, fin)
    &&& admission_done(mid, fin, max)
    &&& events.len() >= 1
    &&& (events[0] matches QueueEvent::TaskAdded { task_id } && task_id@ == row.id@)
    &&& start_events(mid, fin, events.drop_first())
}

/// A freshly submitted row: Pending, nothing downloaded, no error.
pub open spec fn new_row(id: String, url: String, dest: String, priority: Priority,
    checksum: Option<ChecksumType>, created_at: u64) -> DownloadTask {
    DownloadTask {
        id, url, dest, status: TaskStatus::Pending, total_size: 0, downloaded: 0,
        created_at, error: None, priority, checksum,
    }
}

impl DownloadTask {
    /// A field-by-field copy.
    pub fn duplicate(&self) -> (r: DownloadTask)
        ensures
            r == *self,
    {
        DownloadTask {
            id: self.id.clone(),
            url: self.url.clone(),
            dest: self.dest.clone(),
            status: self.status,
            total_size: self.total_size,
            downloaded: self.downloaded,
            created_at: self.created_at,
            error: match &self.error {
                Some(e) => Some(e.clone()),
                None => None,
            },
            priority: self.priority,
            checksum: match &self.checksum {
                Some(ChecksumType::Md5(h)) => Some(ChecksumType::Md5(h.clone())),
                Some(ChecksumType::Sha1(h)) => Some(ChecksumType::Sha1(h.clone())),
                Some(ChecksumType::Sha256(h)) => Some(ChecksumType::Sha256(h.clone())),
                None => None,
            },
        }
    }
}

/// The task table and its admission limit.
pub struct DownloadQueue {
    pub tasks: Vec<DownloadTask>,
    pub max_concurrent_tasks: usize,
}

impl DownloadQueue {
    /// Ids are unique, every row keeps its own invariants, and no more tasks are Downloading than the limit allows.
    pub open spec fn wf(&self) -> bool {
        &&& unique_ids(self.tasks@)
        &&& rows_ok(self.tasks@)
        &&& count_status(self.tasks@, TaskStatus::Downloading) <= self.max_concurrent_tasks
    }

    pub fn new(max_concurrent_tasks: usize) -> (r: Self)
        ensures
            r.wf(),
            r.tasks@.len() == 0,
            r.max_concurrent_tasks == max_concurrent_tasks,
    {
        DownloadQueue { tasks: Vec::new(), max_concurrent_tasks }
    }

    /// Position of the task with the given id.
    pub fn find(&self, id: &str) -> (r: Option<usize>)
        requires
            self.wf(),
        ensures
            r is None <==> !has_id(self.tasks@, id@),
            r is Some ==> r->0 < self.tasks@.len() && self.tasks@[r->0 as int].id@ == id@,
    {
        let key = id.to_owned();
        let mut i: usize = 0;
        while i < self.tasks.len()
            invariant
                key@ == id@,
                0 <= i <= self.tasks@.len(),
                forall|k: int| 0 <= k < i ==> self.tasks@[k].id@ != id@,
            decreases self.tasks@.len() - i,
        {
            if self.tasks[i].id == key {
                return Some(i);
            }
            i = i + 1;
        }
        None
    }

    /// A copy of the task with the given id.
    pub fn get_task(&self, id: &str) -> (r: Option<DownloadTask>)
        requires
            self.wf(),
        ensures
            r is None <==> !has_id(self.tasks@, id@),
            r is Some ==> exists|i: int| 0 <= i < self.tasks@.len() && self.tasks@[i] == r->0 && r->0.id@ == id@,
    {
        match self.find(id) {
            Some(i) => Some(self.tasks[i].duplicate()),
            None => None,
        }
    }

    /// Copies of all tasks, in submission order.
    pub fn get_all_tasks(&self) -> (r: Vec<DownloadTask>)
        ensures
            r@ == self.tasks@,
    {
        let mut r: Vec<DownloadTask> = Vec::new();
        let mut i: usize = 0;
        while i < self.tasks.len()
            invariant
                0 <= i <= self.tasks@.len(),
                r@ == self.tasks@.subrange(0, i as int),
            decreases self.tasks@.len() - i,
        {
            r.push(self.tasks[i].duplicate());
            proof {
                assert(self.tasks@.subrange(0, i as int + 1) == self.tasks@.subrange(0, i as int).push(self.tasks@[i as int]));
            }
            i = i + 1;
        }
        proof {
            assert(self.tasks@.subrange(0, self.tasks@.len() as int) == self.tasks@);
        }
        r
    }

    /// Number of tasks currently Downloading.
    pub fn active_count(&self) -> (r: usize)
        requires
            self.wf(),
        ensures
            r == count_status(self.tasks@, TaskStatus::Downloading),
    {
        let mut c: usize = 0;
        let mut i: usize = 0;
        while i < self.tasks.len()
            invariant
                self.wf(),
                0 <= i <= self.tasks@.len(),
                c == count_status(self.tasks@.subrange(0, i as int), TaskStatus::Downloading),
            decreases self.tasks@.len() - i,
        {
            proof {
                assert(self.tasks@.subrange(0, i as int + 1).drop_last() == self.tasks@.subrange(0, i as int));
                lemma_count_prefix_le(self.tasks@, i as int + 1, TaskStatus::Downloading);
            }
            if self.tasks[i].status == TaskStatus::Downloading {
                c = c + 1;
            }
            i = i + 1;
        }
        proof {
            assert(self.tasks@.subrange(0, self.tasks@.len() as int) == self.tasks@);
        }
        c
    }

    /// The best-ranked Pending task, if any.
    pub fn next_pending(&self) -> (r: Option<usize>)
        ensures
            r is None <==> count_status(self.tasks@, TaskStatus::Pending) == 0,
            r is Some ==> r->0 < self.tasks@.len() && self.tasks@[r->0 as int].status == TaskStatus::Pending,
            r is Some ==> forall|j: int| 0 <= j < self.tasks@.len() && j != r->0 && self.tasks@[j].status == TaskStatus::Pending
                ==> ranks_before(self.tasks@[r->0 as int], r->0 as int, #[trigger] self.tasks@[j], j),
    {
        let mut best: Option<usize> = None;
        let mut i: usize = 0;
        while i < self.tasks.len()
            invariant
                0 <= i <= self.tasks@.len(),
                best is None <==> (forall|k: int| 0 <= k < i ==> (#[trigger] self.tasks@[k]).status != TaskStatus::Pending),
                best is Some ==> best->0 < i && self.tasks@[best->0 as int].status == TaskStatus::Pending,
                best is Some ==> forall|j: int| 0 <= j < i && j != best->0 && self.tasks@[j].status == TaskStatus::Pending
                    ==> ranks_before(self.tasks@[best->0 as int], best->0 as int, #[trigger] self.tasks@[j], j),
            decreases self.tasks@.len() - i,
        {
            let t = &self.tasks[i];
            if t.status == TaskStatus::Pending {
                match best {
                    None => {
                        best = Some(i);
                    },
                    Some(b) => {
                        let bt = &self.tasks[b];
                        let pb = bt.priority.rank();
                        let pt = t.priority.rank();
                        if pt > pb || (pt == pb && t.created_at < bt.created_at) {
                            best = Some(i);
                        }
                    },
                }
            }
            i = i + 1;
        }
        proof {
            if best is None {
                lemma_count_zero(self.tasks@, TaskStatus::Pending);
            } else {
                lemma_count_pos(self.tasks@, best->0 as int, TaskStatus::Pending);
            }
        }
        best
    }

    /// Moves the task at `i` to `to` when the lifecycle allows it, with
    /// `error` as its error: a message for Failed, none otherwise.
    pub fn transition(&mut self, i: usize, to: TaskStatus, error: Option<String>) -> (r: Result<(), DownloadError>)
        requires
            old(self).wf(),
            i < old(self).tasks@.len(),
            to != TaskStatus::Downloading,
            error is Some <==> to == TaskStatus::Failed,
        ensures
            final(self).wf(),
            final(self).max_concurrent_tasks == old(self).max_concurrent_tasks,
            r is Ok <==> legal_transition(old(self).tasks@[i as int].status, to),
            r is Ok ==> final(self).tasks@ == old(self).tasks@.update(i as int, moved(old(self).tasks@[i as int], to, error)),
            r is Err ==> *final(self) == *old(self),
            r is Err ==> r->Err_0 == (DownloadError::InvalidStateTransition { from: old(self).tasks@[i as int].status, to }),
    {
        let from = self.tasks[i].status;
        if !from.can_transition_to(to) {
            return Err(DownloadError::InvalidStateTransition { from, to });
        }
        let ghost t = moved(self.tasks@[i as int], to, error);
        proof {
            assert(row_ok(self.tasks@[i as int]));
            lemma_count_update(self.tasks@, i as int, t, TaskStatus::Downloading);
            lemma_unique_update(self.tasks@, i as int, t);
            lemma_rows_update(self.tasks@, i as int, t);
        }
        self.tasks[i].status = to;
        self.tasks[i].error = error;
        proof {
            assert(self.tasks@ == old(self).tasks@.update(i as int, t));
        }
        Ok(())
    }

    /// Admission: while fewer than the limit are Downloading, starts the
    /// best-ranked Pending task.
    pub fn process_queue(&mut self) -> (events: Vec<QueueEvent>)
        requires
            old(self).wf(),
        ensures
            final(self).wf(),
            final(self).max_concurrent_tasks == old(self).max_concurrent_tasks,
            only_admitted(old(self).tasks@, final(self).tasks@),
            admission_done(old(self).tasks@, final(self).tasks@, final(self).max_concurrent_tasks as nat),
            start_events(old(self).tasks@, final(self).tasks@, events@),
    {
        let mut events: Vec<QueueEvent> = Vec::new();
        let ghost orig = self.tasks@;
        let mut active = self.active_count();
        while active < self.max_concurrent_tasks
            invariant
                self.wf(),
                self.max_concurrent_tasks == old(self).max_concurrent_tasks,
                orig == old(self).tasks@,
                active == count_status(self.tasks@, TaskStatus::Downloading),
                only_admitted(orig, self.tasks@),
                start_events(orig, self.tasks@, events@),
                forall|a: int, b: int| 0 <= a < self.tasks@.len() && 0 <= b < self.tasks@.len()
                    && orig[a].status == TaskStatus::Pending && self.tasks@[a].status == TaskStatus::Downloading
                    && self.tasks@[b].status == TaskStatus::Pending ==> ranks_before(#[trigger] orig[a], a, #[trigger] orig[b], b),
            ensures
                count_status(self.tasks@, TaskStatus::Downloading) == self.max_concurrent_tasks
                    || count_status(self.tasks@, TaskStatus::Pending) == 0,
            decreases count_status(self.tasks@, TaskStatus::Pending),
        {
            let pick = self.next_pending();
            let i = match pick {
                Some(i) => i,
                None => break,
            };
            let ghost before = self.tasks@;
            let ghost new_task = with_status(before[i as int], TaskStatus::Downloading);
            proof {
                lemma_count_update(before, i as int, new_task, TaskStatus::Downloading);
                lemma_count_update(before, i as int, new_task, TaskStatus::Pending);
            }
            self.tasks[i].status = TaskStatus::Downloading;
            let id = self.tasks[i].id.clone();
            events.push(QueueEvent::TaskStarted { task_id: id });
            active = active + 1;
            proof {
                assert(self.tasks@ == before.update(i as int, new_task));
                lemma_unique_update(before, i as int, new_task);
                assert(row_ok(before[i as int]));
                lemma_rows_update(before, i as int, new_task);
                assert(orig[i as int].status == TaskStatus::Pending) by {
                    assert(before[i as int] == orig[i as int] || orig[i as int].status == TaskStatus::Pending);
                }
                assert forall|k: int| 0 <= k < orig.len() implies #[trigger] self.tasks@[k] == orig[k]
                    || (orig[k].status == TaskStatus::Pending && self.tasks@[k] == with_status(orig[k], TaskStatus::Downloading)) by {
                    if k == i {
                        assert(before[k] == orig[k] || before[k] == with_status(orig[k], TaskStatus::Downloading));
                    } else {
                        assert(self.tasks@[k] == before[k]);
                    }
                }
                let evs = events@;
                assert forall|e: int| 0 <= e < evs.len() implies (match #[trigger] evs[e] {
                    QueueEvent::TaskStarted { task_id } => exists|k: int| 0 <= k < self.tasks@.len()
                        && orig[k].status == TaskStatus::Pending && self.tasks@[k].status == TaskStatus::Downloading
                        && #[trigger] self.tasks@[k].id@ == task_id@,
                    _ => false,
                }) by {
                    if e == evs.len() - 1 {
                        assert(self.tasks@[i as int].id@ == orig[i as int].id@);
                    } else {
                        match evs[e] {
                            QueueEvent::TaskStarted { task_id } => {
                                let k = choose|k: int| 0 <= k < before.len()
                                    && orig[k].status == TaskStatus::Pending && before[k].status == TaskStatus::Downloading
                                    && #[trigger] before[k].id@ == task_id@;
                                assert(k != i);
                                assert(self.tasks@[k] == before[k]);
                            },
                            _ => {},
                        }
                    }
                }
                assert forall|a: int, b: int| 0 <= a < self.tasks@.len() && 0 <= b < self.tasks@.len()
                    && orig[a].status == TaskStatus::Pending && self.tasks@[a].status == TaskStatus::Downloading
                    && self.tasks@[b].status == TaskStatus::Pending implies ranks_before(#[trigger] orig[a], a, #[trigger] orig[b], b) by {
                    assert(b != i);
                    assert(before[b] == self.tasks@[b]);
                    assert(before[b] == orig[b] || orig[b].status == TaskStatus::Pending);
                    assert(before[b] == orig[b]);
                    if a == i {
                        assert(before[a].priority == orig[a].priority && before[a].created_at == orig[a].created_at);
                    } else {
                        assert(before[a] == self.tasks@[a]);
                    }
                }
            }
        }
        events
    }

    /// Records a new Pending task with the given id and runs admission.
    /// Fails when the id is taken.
    pub fn insert_task(&mut self, id: String, url: String, dest: String, priority: Priority,
        checksum: Option<ChecksumType>, created_at: u64) -> (r: Result<Vec<QueueEvent>, DownloadError>)
        requires
            old(self).wf(),
        ensures
            final(self).wf(),
            final(self).max_concurrent_tasks == old(self).max_concurrent_tasks,
            r is Err <==> has_id(old(self).tasks@, id@),
            r is Err ==> *final(self) == *old(self) && r->Err_0 is DuplicateId,
            r is Ok ==> appended(old(self).tasks@, final(self).tasks@, final(self).max_concurrent_tasks as nat,
                new_row(id, url, dest, priority, checksum, created_at), r->Ok_0@),
    {
        if self.find(id.as_str()).is_some() {
            return Err(DownloadError::DuplicateId);
        }
        let task = DownloadTask {
            id: id.clone(), url, dest, status: TaskStatus::Pending, total_size: 0, downloaded: 0,
            created_at, error: None, priority, checksum,
        };
        let ghost old_tasks = self.tasks@;
        self.tasks.push(task);
        proof {
            lemma_count_push(old_tasks, self.tasks@.last(), TaskStatus::Downloading);
            lemma_rows_push(old_tasks, self.tasks@.last());
            assert forall|i: int, j: int| 0 <= i < self.tasks@.len() && 0 <= j < self.tasks@.len() && i != j
                implies #[trigger] self.tasks@[i].id@ != #[trigger] self.tasks@[j].id@ by {
                if i == old_tasks.len() {
                    assert(old_tasks[j].id@ != id@);
                } else if j == old_tasks.len() {
                    assert(old_tasks[i].id@ != id@);
                }
            }
        }
        let ghost mid = self.tasks@;
        let mut events: Vec<QueueEvent> = Vec::new();
        events.push(QueueEvent::TaskAdded { task_id: id });
        let started = self.process_queue();
        let mut k: usize = 0;
        while k < started.len()
            invariant
                events@.len() == k + 1,
                events@[0] matches QueueEvent::TaskAdded { task_id } && task_id@ == id@,
                0 <= k <= started@.len(),
                events@.drop_first() == started@.subrange(0, k as int),
            decreases started@.len() - k,
        {
            events.push(started[k].clone_event());
            proof {
                assert(events@.drop_first() == started@.subrange(0, k as int + 1));
            }
            k = k + 1;
        }
        proof {
            assert(started@.subrange(0, started@.len() as int) == started@);
        }
        Ok(events)
    }

    /// Submits a task with a fresh id, normal priority and no checksum.
    pub fn add_task(&mut self, url: String, dest: String, created_at: u64) -> (r: Result<(String, Vec<QueueEvent>), DownloadError>)
        requires
            old(self).wf(),
        ensures
            final(self).wf(),
            final(self).max_concurrent_tasks == old(self).max_concurrent_tasks,
            r is Ok ==> has_id(final(self).tasks@, r->Ok_0.0@),
            r is Ok ==> final(self).tasks@.len() == old(self).tasks@.len() + 1,
            r is Ok ==> final(self).tasks@[old(self).tasks@.len() as int].id@ == r->Ok_0.0@,
            r is Ok ==> final(self).tasks@[old(self).tasks@.len() as int].status == TaskStatus::Pending
                || final(self).tasks@[old(self).tasks@.len() as int].status == TaskStatus::Downloading,
            r is Ok ==> final(self).tasks@[old(self).tasks@.len() as int].url@ == url@
                && final(self).tasks@[old(self).tasks@.len() as int].dest@ == dest@
                && final(self).tasks@[old(self).tasks@.len() as int].priority == Priority::Normal,
            r is Ok ==> !has_id(old(self).tasks@, r->Ok_0.0@),
            r is Ok ==> appended(old(self).tasks@, final(self).tasks@, final(self).max_concurrent_tasks as nat,
                new_row(r->Ok_0.0, url, dest, Priority::Normal, None, created_at), r->Ok_0.1@),
            old(self).tasks@.len() == 0 ==> r is Ok,
            r is Err ==> old(self).tasks@.len() > 0,
            r is Err ==> *final(self) == *old(self) && r->Err_0 is DuplicateId,
    {
        self.add_task_with_options(url, dest, Priority::Normal, None, created_at)
    }

    /// Submits a task with a fresh id.
    pub fn add_task_with_options(&mut self, url: String, dest: String, priority: Priority,
        checksum: Option<ChecksumType>, created_at: u64) -> (r: Result<(String, Vec<QueueEvent>), DownloadError>)
        requires
            old(self).wf(),
        ensures
            final(self).wf(),
            final(self).max_concurrent_tasks == old(self).max_concurrent_tasks,
            r is Ok ==> has_id(final(self).tasks@, r->Ok_0.0@),
            r is Ok ==> final(self).tasks@.len() == old(self).tasks@.len() + 1,
            r is Ok ==> final(self).tasks@[old(self).tasks@.len() as int].id@ == r->Ok_0.0@,
            r is Ok ==> final(self).tasks@[old(self).tasks@.len() as int].status == TaskStatus::Pending
                || final(self).tasks@[old(self).tasks@.len() as int].status == TaskStatus::Downloading,
            r is Ok ==> final(self).tasks@[old(self).tasks@.len() as int].url@ == url@
                && final(self).tasks@[old(self).tasks@.len() as int].dest@ == dest@
                && final(self).tasks@[old(self).tasks@.len() as int].priority == priority,
            r is Ok ==> final(self).tasks@.subrange(0, old(self).tasks@.len() as int) == old(self).tasks@
                || only_admitted(old(self).tasks@, final(self).tasks@.subrange(0, old(self).tasks@.len() as int)),
            r is Ok ==> !has_id(old(self).tasks@, r->Ok_0.0@),
            r is Ok ==> appended(old(self).tasks@, final(self).tasks@, final(self).max_concurrent_tasks as nat,
                new_row(r->Ok_0.0, url, dest, priority, checksum, created_at), r->Ok_0.1@),
            old(self).tasks@.len() == 0 ==> r is Ok,
            r is Err ==> old(self).tasks@.len() > 0,
            r is Err ==> *final(self) == *old(self) && r->Err_0 is DuplicateId,
    {
        let id = new_task_id();
        let ghost u = url;
        let ghost d = dest;
        let ghost c = checksum;
        let events = self.insert_task(id.clone(), url, dest, priority, checksum, created_at)?;
        proof {
            let n = old(self).tasks@.len() as int;
            let mid = old(self).tasks@.push(new_row(id, u, d, priority, c, created_at));
            assert(mid[n] == new_row(id, u, d, priority, c, created_at));
            assert(self.tasks@[n] == mid[n] || self.tasks@[n] == with_status(mid[n], TaskStatus::Downloading));
            assert(self.tasks@[n].id@ == id@);
            assert(self.tasks@[n].url == u && self.tasks@[n].dest == d);
            assert forall|k: int| 0 <= k < n implies self.tasks@.subrange(0, n)[k] == old(self).tasks@[k]
                || (old(self).tasks@[k].status == TaskStatus::Pending
                    && self.tasks@.subrange(0, n)[k] == with_status(old(self).tasks@[k], TaskStatus::Downloading)) by {
                assert(mid[k] == old(self).tasks@[k]);
            }
        }
        Ok((id, events))
    }

    /// Position of the task with the given id, or `NotFound`.
    pub fn locate(&self, id: &str) -> (r: Result<usize, DownloadError>)
        requires
            self.wf(),
        ensures
            r is Ok <==> has_id(self.tasks@, id@),
            r is Ok ==> r->Ok_0 == pos(self.tasks@, id@) && r->Ok_0 < self.tasks@.len()
                && self.tasks@[r->Ok_0 as int].id@ == id@,
            r is Err ==> r->Err_0 is NotFound,
    {
        match self.find(id) {
            Some(i) => {
                proof {
                    lemma_pos_unique(self.tasks@, id@, i as int);
                }
                Ok(i)
            },
            None => Err(DownloadError::NotFound),
        }
    }

    /// Runs admission and appends its events to `events`.
    fn admit_into(&mut self, events: &mut Vec<QueueEvent>)
        requires
            old(self).wf(),
        ensures
            final(self).wf(),
            final(self).max_concurrent_tasks == old(self).max_concurrent_tasks,
            final(events)@.len() >= old(events)@.len(),
            final(events)@.subrange(0, old(events)@.len() as int) == old(events)@,
            admitted(old(self).tasks@, final(self).tasks@, final(self).max_concurrent_tasks as nat,
                final(events)@.subrange(old(events)@.len() as int, final(events)@.len() as int)),
    {
        let started = self.process_queue();
        let ghost n0 = events@.len();
        let mut k: usize = 0;
        while k < started.len()
            invariant
                events@.len() == n0 + k,
                0 <= k <= started@.len(),
                events@.subrange(0, n0 as int) == old(events)@,
                n0 == old(events)@.len(),
                events@.subrange(n0 as int, events@.len() as int) == started@.subrange(0, k as int),
            decreases started@.len() - k,
        {
            let ghost before = events@;
            events.push(started[k].clone_event());
            proof {
                assert(events@.subrange(0, n0 as int) == before.subrange(0, n0 as int));
                assert(events@.subrange(n0 as int, events@.len() as int) == started@.subrange(0, k as int + 1));
            }
            k = k + 1;
        }
        proof {
            assert(started@.subrange(0, started@.len() as int) == started@);
        }
    }

    /// Pauses a Downloading task. Its worker is to be stopped; the journal
    /// stays for a later resume.
    pub fn pause_task(&mut self, id: &str) -> (r: Result<Vec<QueueEvent>, DownloadError>)
        requires
            old(self).wf(),
        ensures
            final(self).wf(),
            final(self).max_concurrent_tasks == old(self).max_concurrent_tasks,
            r is Err ==> *final(self) == *old(self),
            !has_id(old(self).tasks@, id@) <==> (r is Err && r->Err_0 is NotFound),
            has_id(old(self).tasks@, id@) ==> ({
                let i = pos(old(self).tasks@, id@);
                let t = old(self).tasks@[i];
                &&& (r is Ok <==> legal_transition(t.status, TaskStatus::Paused))
                &&& (r is Err ==> r->Err_0 == (DownloadError::InvalidStateTransition { from: t.status, to: TaskStatus::Paused }))
                &&& (r is Ok ==> final(self).tasks@ == old(self).tasks@.update(i, with_status(t, TaskStatus::Paused)))
                &&& (r is Ok ==> r->Ok_0@.len() == 1 && (r->Ok_0@[0] matches QueueEvent::TaskPaused { task_id } && task_id@ == id@))
            }),
    {
        let i = self.locate(id)?;
        self.transition(i, TaskStatus::Paused, None)?;
        proof {
            assert(row_ok(old(self).tasks@[i as int]));
        }
        let mut events: Vec<QueueEvent> = Vec::new();
        events.push(QueueEvent::TaskPaused { task_id: id.to_owned() });
        Ok(events)
    }

    /// Returns a Paused or Failed task to Pending, clears its error and runs
    /// admission.
    pub fn resume_task(&mut self, id: &str) -> (r: Result<Vec<QueueEvent>, DownloadError>)
        requires
            old(self).wf(),
        ensures
            final(self).wf(),
            final(self).max_concurrent_tasks == old(self).max_concurrent_tasks,
            r is Err ==> *final(self) == *old(self),
            !has_id(old(self).tasks@, id@) <==> (r is Err && r->Err_0 is NotFound),
            has_id(old(self).tasks@, id@) ==> ({
                let i = pos(old(self).tasks@, id@);
                let t = old(self).tasks@[i];
                let mid = old(self).tasks@.update(i, DownloadTask { status: TaskStatus::Pending, error: None, ..t });
                &&& (r is Ok <==> legal_transition(t.status, TaskStatus::Pending))
                &&& (r is Err ==> r->Err_0 == (DownloadError::InvalidStateTransition { from: t.status, to: TaskStatus::Pending }))
                &&& (r is Ok ==> r->Ok_0@.len() >= 1 && (r->Ok_0@[0] matches QueueEvent::TaskResumed { task_id } && task_id@ == id@))
                &&& (r is Ok ==> admitted(mid, final(self).tasks@, final(self).max_concurrent_tasks as nat, r->Ok_0@.drop_first()))
            }),
    {
        let i = self.locate(id)?;
        self.transition(i, TaskStatus::Pending, None)?;
        let mut events: Vec<QueueEvent> = Vec::new();
        events.push(QueueEvent::TaskResumed { task_id: id.to_owned() });
        let ghost pre = events@;
        let ghost mid = self.tasks@;
        self.admit_into(&mut events);
        proof {
            assert(events@.subrange(1, events@.len() as int) == events@.drop_first());
            assert(events@.subrange(0, 1)[0] == events@[0]);
            assert(events@[0] == pre[0]);
            assert(admitted(mid, self.tasks@, self.max_concurrent_tasks as nat, events@.drop_first()));
        }
        Ok(events)
    }

    /// Cancels a task that is not yet Completed or Cancelled, then runs
    /// admission. Its worker, if any, is to be stopped and its destination
    /// file and journal deleted.
    pub fn cancel_task(&mut self, id: &str) -> (r: Result<Vec<QueueEvent>, DownloadError>)
        requires
            old(self).wf(),
        ensures
            final(self).wf(),
            final(self).max_concurrent_tasks == old(self).max_concurrent_tasks,
            r is Err ==> *final(self) == *old(self),
            !has_id(old(self).tasks@, id@) <==> (r is Err && r->Err_0 is NotFound),
            has_id(old(self).tasks@, id@) ==> ({
                let i = pos(old(self).tasks@, id@);
                let t = old(self).tasks@[i];
                let mid = old(self).tasks@.update(i, DownloadTask { status: TaskStatus::Cancelled, error: None, ..t });
                &&& (r is Ok <==> !is_terminal(t.status))
                &&& (r is Ok <==> legal_transition(t.status, TaskStatus::Cancelled))
                &&& (r is Err ==> r->Err_0 == (DownloadError::InvalidStateTransition { from: t.status, to: TaskStatus::Cancelled }))
                &&& (r is Ok ==> r->Ok_0@.len() >= 1 && (r->Ok_0@[0] matches QueueEvent::TaskCancelled { task_id } && task_id@ == id@))
                &&& (r is Ok ==> admitted(mid, final(self).tasks@, final(self).max_concurrent_tasks as nat, r->Ok_0@.drop_first()))
            }),
    {
        let i = self.locate(id)?;
        self.transition(i, TaskStatus::Cancelled, None)?;
        let mut events: Vec<QueueEvent> = Vec::new();
        events.push(QueueEvent::TaskCancelled { task_id: id.to_owned() });
        let ghost pre = events@;
        let ghost mid = self.tasks@;
        self.admit_into(&mut events);
        proof {
            assert(events@.subrange(1, events@.len() as int) == events@.drop_first());
            assert(events@.subrange(0, 1)[0] == events@[0]);
            assert(events@[0] == pre[0]);
            assert(admitted(mid, self.tasks@, self.max_concurrent_tasks as nat, events@.drop_first()));
        }
        Ok(events)
    }

    /// Drops a Completed, Failed or Cancelled task from the table.
    pub fn remove_task(&mut self, id: &str) -> (r: Result<(), DownloadError>)
        requires
            old(self).wf(),
        ensures
            final(self).wf(),
            final(self).max_concurrent_tasks == old(self).max_concurrent_tasks,
            r is Err ==> *final(self) == *old(self),
            !has_id(old(self).tasks@, id@) <==> (r is Err && r->Err_0 is NotFound),
            has_id(old(self).tasks@, id@) ==> ({
                let i = pos(old(self).tasks@, id@);
                let t = old(self).tasks@[i];
                &&& (r is Ok <==> is_removable(t.status))
                &&& (r is Err ==> r->Err_0 == (DownloadError::InvalidStateTransition { from: t.status, to: t.status }))
                &&& (r is Ok ==> final(self).tasks@ == old(self).tasks@.remove(i))
            }),
            r is Ok ==> !has_id(final(self).tasks@, id@),
    {
        let i = self.locate(id)?;
        let st = self.tasks[i].status;
        if !(st == TaskStatus::Completed || st == TaskStatus::Failed || st == TaskStatus::Cancelled) {
            return Err(DownloadError::InvalidStateTransition { from: st, to: st });
        }
        proof {
            lemma_remove_keeps_wf(self.tasks@, i as int);
        }
        self.tasks.remove(i);
        proof {
            let o = old(self).tasks@;
            if has_id(self.tasks@, id@) {
                let k = choose|k: int| 0 <= k < self.tasks@.len() && #[trigger] self.tasks@[k].id@ == id@;
                if k < i {
                    assert(o[k].id@ == o[i as int].id@);
                } else {
                    assert(o[k + 1].id@ == o[i as int].id@);
                }
            }
        }
        Ok(())
    }

    /// Drops every Completed task.
    pub fn clear_completed(&mut self)
        requires
            old(self).wf(),
        ensures
            final(self).wf(),
            final(self).max_concurrent_tasks == old(self).max_concurrent_tasks,
            forall|k: int| 0 <= k < final(self).tasks@.len() ==> (#[trigger] final(self).tasks@[k]).status != TaskStatus::Completed
                && old(self).tasks@.contains(final(self).tasks@[k]),
            forall|k: int| 0 <= k < old(self).tasks@.len() && (#[trigger] old(self).tasks@[k]).status != TaskStatus::Completed
                ==> final(self).tasks@.contains(old(self).tasks@[k]),
    {
        let mut i: usize = 0;
        while i < self.tasks.len()
            invariant
                self.wf(),
                self.max_concurrent_tasks == old(self).max_concurrent_tasks,
                0 <= i <= self.tasks@.len(),
                forall|k: int| 0 <= k < i ==> (#[trigger] self.tasks@[k]).status != TaskStatus::Completed,
                forall|k: int| 0 <= k < self.tasks@.len() ==> old(self).tasks@.contains(#[trigger] self.tasks@[k]),
                forall|k: int| 0 <= k < old(self).tasks@.len() && (#[trigger] old(self).tasks@[k]).status != TaskStatus::Completed
                    ==> self.tasks@.contains(old(self).tasks@[k]),
            decreases self.tasks@.len() - i,
        {
            if self.tasks[i].status == TaskStatus::Completed {
                let ghost before = self.tasks@;
                proof {
                    lemma_remove_keeps_wf(before, i as int);
                }
                self.tasks.remove(i);
                proof {
                    assert forall|k: int| 0 <= k < self.tasks@.len() implies old(self).tasks@.contains(#[trigger] self.tasks@[k]) by {
                        if k < i {
                            assert(self.tasks@[k] == before[k]);
                        } else {
                            assert(self.tasks@[k] == before[k + 1]);
                        }
                    }
                    assert forall|k: int| 0 <= k < old(self).tasks@.len() && (#[trigger] old(self).tasks@[k]).status != TaskStatus::Completed
                        implies self.tasks@.contains(old(self).tasks@[k]) by {
                        let t = old(self).tasks@[k];
                        let j = choose|j: int| 0 <= j < before.len() && before[j] == t;
                        assert(j != i);
                        if j < i {
                            assert(self.tasks@[j] == t);
                        } else {
                            assert(self.tasks@[j - 1] == t);
                        }
                    }
                }
            } else {
                i = i + 1;
            }
        }
    }

    /// Takes in tasks read from a snapshot. A task whose id is already
    /// queued is skipped. The others are added as `restored` describes: one
    /// saved as Downloading comes back Paused, since no worker runs for it,
    /// and a row that breaks a row invariant is mended.
    pub fn load_from_state(&mut self, loaded: Vec<DownloadTask>)
        requires
            old(self).wf(),
        ensures
            final(self).wf(),
            final(self).max_concurrent_tasks == old(self).max_concurrent_tasks,
            final(self).tasks@.len() >= old(self).tasks@.len(),
            final(self).tasks@.subrange(0, old(self).tasks@.len() as int) == old(self).tasks@,
            forall|k: int| 0 <= k < loaded@.len() ==> has_id(final(self).tasks@, #[trigger] loaded@[k].id@),
            forall|k: int| old(self).tasks@.len() <= k < final(self).tasks@.len() ==> (exists|j: int| 0 <= j < loaded@.len()
                && restored(loaded@[j], #[trigger] final(self).tasks@[k])),
            count_status(final(self).tasks@, TaskStatus::Downloading) == count_status(old(self).tasks@, TaskStatus::Downloading),
    {
        let n0 = self.tasks.len();
        let mut j: usize = 0;
        while j < loaded.len()
            invariant
                self.wf(),
                self.max_concurrent_tasks == old(self).max_concurrent_tasks,
                n0 == old(self).tasks@.len(),
                0 <= j <= loaded@.len(),
                self.tasks@.len() >= n0,
                self.tasks@.subrange(0, n0 as int) == old(self).tasks@,
                forall|k: int| 0 <= k < j ==> has_id(self.tasks@, #[trigger] loaded@[k].id@),
                forall|k: int| n0 <= k < self.tasks@.len() ==> (exists|l: int| 0 <= l < loaded@.len()
                    && restored(loaded@[l], #[trigger] self.tasks@[k])),
                count_status(self.tasks@, TaskStatus::Downloading) == count_status(old(self).tasks@, TaskStatus::Downloading),
            decreases loaded@.len() - j,
        {
            let t = &loaded[j];
            if self.find(t.id.as_str()).is_none() {
                let mut c = t.duplicate();
                if c.status == TaskStatus::Downloading {
                    c.status = TaskStatus::Paused;
                }
                if c.total_size > 0 && c.downloaded > c.total_size {
                    c.downloaded = c.total_size;
                }
                if c.status == TaskStatus::Failed {
                    if c.error.is_none() {
                        c.error = Some("failed before the queue was saved".to_owned());
                    }
                } else {
                    c.error = None;
                }
                proof {
                    assert(restored(*t, c));
                }
                let ghost before = self.tasks@;
                self.tasks.push(c);
                proof {
                    lemma_count_push(before, c, TaskStatus::Downloading);
                    lemma_rows_push(before, c);
                    assert forall|a: int, b: int| 0 <= a < self.tasks@.len() && 0 <= b < self.tasks@.len() && a != b
                        implies #[trigger] self.tasks@[a].id@ != #[trigger] self.tasks@[b].id@ by {
                        if a == before.len() {
                            assert(before[b].id@ != t.id@);
                        } else if b == before.len() {
                            assert(before[a].id@ != t.id@);
                        }
                    }
                    assert(self.tasks@.subrange(0, n0 as int) == before.subrange(0, n0 as int));
                    assert forall|k: int| 0 <= k < j + 1 implies has_id(self.tasks@, #[trigger] loaded@[k].id@) by {
                        if k == j {
                            assert(self.tasks@[before.len() as int].id@ == loaded@[k].id@);
                        } else {
                            let w = choose|w: int| 0 <= w < before.len() && #[trigger] before[w].id@ == loaded@[k].id@;
                            assert(self.tasks@[w] == before[w]);
                        }
                    }
                    assert forall|k: int| n0 <= k < self.tasks@.len() implies (exists|l: int| 0 <= l < loaded@.len()
                        && restored(loaded@[l], #[trigger] self.tasks@[k])) by {
                        if k == before.len() {
                            assert(restored(loaded@[j as int], self.tasks@[k]));
                        } else {
                            assert(self.tasks@[k] == before[k]);
                        }
                    }
                }
            }
            j = j + 1;
        }
    }

    /// Records the size the engine found for a task.
    pub fn set_total_size(&mut self, id: &str, total: u64) -> (r: Result<(), DownloadError>)
        requires
            old(self).wf(),
        ensures
            final(self).wf(),
            final(self).max_concurrent_tasks == old(self).max_concurrent_tasks,
            r is Ok <==> has_id(old(self).tasks@, id@),
            r is Err ==> *final(self) == *old(self) && r->Err_0 is NotFound,
            r is Ok ==> ({
                let i = pos(old(self).tasks@, id@);
                let t = old(self).tasks@[i];
                let d = if total > 0 && t.downloaded > total { total } else { t.downloaded };
                final(self).tasks@ == old(self).tasks@.update(i, DownloadTask { total_size: total, downloaded: d, ..t })
            }),
    {
        let i = self.locate(id)?;
        let cur = self.tasks[i].downloaded;
        let d = if total > 0 && cur > total { total } else { cur };
        proof {
            let t = DownloadTask { total_size: total, downloaded: d, ..self.tasks@[i as int] };
            assert(row_ok(self.tasks@[i as int]));
            lemma_unique_update(self.tasks@, i as int, t);
            lemma_rows_update(self.tasks@, i as int, t);
            lemma_count_update(self.tasks@, i as int, t, TaskStatus::Downloading);
        }
        self.tasks[i].total_size = total;
        self.tasks[i].downloaded = d;
        proof {
            assert(self.tasks@ == old(self).tasks@.update(i as int,
                DownloadTask { total_size: total, downloaded: d, ..old(self).tasks@[i as int] }));
        }
        Ok(())
    }

    /// Records the bytes a task has so far (never more than its known total)
    /// and returns the progress event to publish, with the time left at
    /// `speed` bytes per second.
    pub fn record_progress(&mut self, id: &str, downloaded: u64, speed: u64) -> (r: Result<QueueEvent, DownloadError>)
        requires
            old(self).wf(),
        ensures
            final(self).wf(),
            final(self).max_concurrent_tasks == old(self).max_concurrent_tasks,
            r is Ok <==> has_id(old(self).tasks@, id@),
            r is Err ==> *final(self) == *old(self) && r->Err_0 is NotFound,
            r is Ok ==> ({
                let i = pos(old(self).tasks@, id@);
                let t = old(self).tasks@[i];
                let d = if t.total_size > 0 && downloaded > t.total_size { t.total_size } else { downloaded };
                &&& final(self).tasks@ == old(self).tasks@.update(i, DownloadTask { downloaded: d, ..t })
                &&& (r->Ok_0 matches QueueEvent::TaskProgress { task_id, downloaded: rd, total, speed: rs, eta: re }
                    && task_id@ == id@ && rd == d && total == t.total_size && rs == speed
                    && re == eta_of(t.total_size, d, speed))
            }),
    {
        let i = self.locate(id)?;
        let total = self.tasks[i].total_size;
        let d = if total > 0 && downloaded > total { total } else { downloaded };
        proof {
            let t = DownloadTask { downloaded: d, ..self.tasks@[i as int] };
            assert(row_ok(self.tasks@[i as int]));
            lemma_unique_update(self.tasks@, i as int, t);
            lemma_rows_update(self.tasks@, i as int, t);
            lemma_count_update(self.tasks@, i as int, t, TaskStatus::Downloading);
        }
        self.tasks[i].downloaded = d;
        Ok(QueueEvent::TaskProgress { task_id: id.to_owned(), downloaded: d, total, speed, eta: eta(total, d, speed) })
    }

    /// The engine finished a task. With a checksum to check, the task stays
    /// Downloading and verification is announced; otherwise it is Completed
    /// and admission runs.
    pub fn engine_finished(&mut self, id: &str) -> (r: Result<Vec<QueueEvent>, DownloadError>)
        requires
            old(self).wf(),
        ensures
            final(self).wf(),
            final(self).max_concurrent_tasks == old(self).max_concurrent_tasks,
            r is Err ==> *final(self) == *old(self),
            !has_id(old(self).tasks@, id@) <==> (r is Err && r->Err_0 is NotFound),
            has_id(old(self).tasks@, id@) ==> ({
                let i = pos(old(self).tasks@, id@);
                let t = old(self).tasks@[i];
                let mid = old(self).tasks@.update(i, with_status(t, TaskStatus::Completed));
                &&& (r is Ok <==> t.status == TaskStatus::Downloading)
                &&& (r is Err ==> r->Err_0 == (DownloadError::InvalidStateTransition { from: t.status, to: TaskStatus::Completed }))
                &&& (r is Ok && t.checksum is Some ==> *final(self) == *old(self) && r->Ok_0@.len() == 1
                    && (r->Ok_0@[0] matches QueueEvent::VerifyStarted { task_id } && task_id@ == id@))
                &&& (r is Ok && t.checksum is None ==> r->Ok_0@.len() >= 1
                    && (r->Ok_0@[0] matches QueueEvent::TaskCompleted { task_id } && task_id@ == id@)
                    && admitted(mid, final(self).tasks@, final(self).max_concurrent_tasks as nat, r->Ok_0@.drop_first()))
            }),
    {
        let i = self.locate(id)?;
        let st = self.tasks[i].status;
        if st != TaskStatus::Downloading {
            return Err(DownloadError::InvalidStateTransition { from: st, to: TaskStatus::Completed });
        }
        let mut events: Vec<QueueEvent> = Vec::new();
        if self.tasks[i].checksum.is_some() {
            events.push(QueueEvent::VerifyStarted { task_id: id.to_owned() });
            return Ok(events);
        }
        self.complete_at(i, &mut events);
        Ok(events)
    }

    /// Marks the Downloading task at `i` Completed, announces it and runs
    /// admission.
    fn complete_at(&mut self, i: usize, events: &mut Vec<QueueEvent>)
        requires
            old(self).wf(),
            i < old(self).tasks@.len(),
            old(self).tasks@[i as int].status == TaskStatus::Downloading,
            old(events)@.len() == 0,
        ensures
            final(self).wf(),
            final(self).max_concurrent_tasks == old(self).max_concurrent_tasks,
            final(events)@.len() >= 1,
            final(events)@[0] matches QueueEvent::TaskCompleted { task_id } && task_id@ == old(self).tasks@[i as int].id@,
            admitted(old(self).tasks@.update(i as int, with_status(old(self).tasks@[i as int], TaskStatus::Completed)),
                final(self).tasks@, final(self).max_concurrent_tasks as nat, final(events)@.drop_first()),
    {
        proof {
            assert(row_ok(old(self).tasks@[i as int]));
        }
        let r = self.transition(i, TaskStatus::Completed, None);
        let task_id = self.tasks[i].id.clone();
        events.push(QueueEvent::TaskCompleted { task_id });
        let ghost pre = events@;
        self.admit_into(events);
        proof {
            assert(r is Ok);
            assert(events@.subrange(1, events@.len() as int) == events@.drop_first());
            assert(events@.subrange(0, 1)[0] == events@[0]);
            assert(events@[0] == pre[0]);
        }
    }

    /// Marks the Downloading task at `i` Failed with `error` and runs
    /// admission; `first` events come before the failure.
    fn fail_at(&mut self, i: usize, error: String, events: &mut Vec<QueueEvent>)
        requires
            old(self).wf(),
            i < old(self).tasks@.len(),
            old(self).tasks@[i as int].status == TaskStatus::Downloading,
        ensures
            final(self).wf(),
            final(self).max_concurrent_tasks == old(self).max_concurrent_tasks,
            final(events)@.len() >= old(events)@.len() + 1,
            final(events)@.subrange(0, old(events)@.len() as int) == old(events)@,
            final(events)@[old(events)@.len() as int] matches QueueEvent::TaskFailed { task_id, error: e }
                && task_id@ == old(self).tasks@[i as int].id@ && e@ == error@,
            admitted(old(self).tasks@.update(i as int, DownloadTask {
                    status: TaskStatus::Failed, error: Some(error), ..old(self).tasks@[i as int] }),
                final(self).tasks@, final(self).max_concurrent_tasks as nat,
                final(events)@.subrange(old(events)@.len() as int + 1, final(events)@.len() as int)),
    {
        let msg = error.clone();
        let ghost err = error;
        let r = self.transition(i, TaskStatus::Failed, Some(error));
        proof {
            assert(r is Ok);
        }
        let task_id = self.tasks[i].id.clone();
        let ghost mid = self.tasks@;
        proof {
            assert(mid == old(self).tasks@.update(i as int, DownloadTask {
                status: TaskStatus::Failed, error: Some(err), ..old(self).tasks@[i as int] }));
        }
        let ghost n0 = events@.len();
        events.push(QueueEvent::TaskFailed { task_id, error: msg });
        let ghost pre = events@;
        self.admit_into(events);
        proof {
            assert(events@.subrange(0, n0 as int) == pre.subrange(0, n0 as int));
            assert(events@[n0 as int] == events@.subrange(0, n0 as int + 1)[n0 as int]);
            assert(events@.subrange(n0 as int + 1, events@.len() as int) == events@.subrange(pre.len() as int, events@.len() as int));
        }
    }

    /// The engine gave up on a task: it becomes Failed with the message, and
    /// admission runs.
    pub fn engine_failed(&mut self, id: &str, error: String) -> (r: Result<Vec<QueueEvent>, DownloadError>)
        requires
            old(self).wf(),
        ensures
            final(self).wf(),
            final(self).max_concurrent_tasks == old(self).max_concurrent_tasks,
            r is Err ==> *final(self) == *old(self),
            !has_id(old(self).tasks@, id@) <==> (r is Err && r->Err_0 is NotFound),
            has_id(old(self).tasks@, id@) ==> ({
                let i = pos(old(self).tasks@, id@);
                let t = old(self).tasks@[i];
                let mid = old(self).tasks@.update(i, DownloadTask { status: TaskStatus::Failed, error: Some(error), ..t });
                &&& (r is Ok <==> t.status == TaskStatus::Downloading)
                &&& (r is Err ==> r->Err_0 == (DownloadError::InvalidStateTransition { from: t.status, to: TaskStatus::Failed }))
                &&& (r is Ok ==> r->Ok_0@.len() >= 1
                    && (r->Ok_0@[0] matches QueueEvent::TaskFailed { task_id, error: e } && task_id@ == id@ && e@ == error@)
                    && admitted(mid, final(self).tasks@, final(self).max_concurrent_tasks as nat, r->Ok_0@.drop_first()))
            }),
    {
        let i = self.locate(id)?;
        let st = self.tasks[i].status;
        if st != TaskStatus::Downloading {
            return Err(DownloadError::InvalidStateTransition { from: st, to: TaskStatus::Failed });
        }
        let mut events: Vec<QueueEvent> = Vec::new();
        self.fail_at(i, error, &mut events);
        proof {
            assert(events@.subrange(1, events@.len() as int) == events@.drop_first());
        }
        Ok(events)
    }

    /// The digest of a finished task that carries a checksum has been
    /// computed. A match completes the task; a mismatch fails it. Either way
    /// the outcome is announced first and admission runs.
    pub fn verification_done(&mut self, id: &str, digest: &Vec<u8>) -> (r: Result<Vec<QueueEvent>, DownloadError>)
        requires
            old(self).wf(),
        ensures
            final(self).wf(),
            final(self).max_concurrent_tasks == old(self).max_concurrent_tasks,
            r is Err ==> *final(self) == *old(self),
            !has_id(old(self).tasks@, id@) <==> (r is Err && r->Err_0 is NotFound),
            has_id(old(self).tasks@, id@) ==> ({
                let i = pos(old(self).tasks@, id@);
                let t = old(self).tasks@[i];
                let ok = t.checksum is Some && spells_digest(expected_of(t.checksum->0), digest@);
                &&& (r is Ok <==> (t.status == TaskStatus::Downloading && t.checksum is Some))
                &&& (r is Err ==> r->Err_0 is InvalidStateTransition)
                &&& (r is Ok ==> r->Ok_0@.len() >= 2
                    && (r->Ok_0@[0] matches QueueEvent::VerifyCompleted { task_id, success } && task_id@ == id@ && success == ok))
                &&& (r is Ok && ok ==> (r->Ok_0@[1] matches QueueEvent::TaskCompleted { task_id } && task_id@ == id@)
                    && admitted(old(self).tasks@.update(i, with_status(t, TaskStatus::Completed)),
                        final(self).tasks@, final(self).max_concurrent_tasks as nat, r->Ok_0@.subrange(2, r->Ok_0@.len() as int)))
                &&& (r is Ok && !ok ==> (r->Ok_0@[1] matches QueueEvent::TaskFailed { task_id, .. } && task_id@ == id@)
                    && (exists|msg: String| admitted(old(self).tasks@.update(i, DownloadTask {
                            status: TaskStatus::Failed, error: Some(msg), ..t }),
                        final(self).tasks@, final(self).max_concurrent_tasks as nat, r->Ok_0@.subrange(2, r->Ok_0@.len() as int))))
            }),
    {
        let i = self.locate(id)?;
        let st = self.tasks[i].status;
        if st != TaskStatus::Downloading {
            return Err(DownloadError::InvalidStateTransition { from: st, to: TaskStatus::Completed });
        }
        let ok = match &self.tasks[i].checksum {
            Some(c) => c.matches(digest),
            None => {
                return Err(DownloadError::InvalidStateTransition { from: st, to: TaskStatus::Completed });
            },
        };
        let mut events: Vec<QueueEvent> = Vec::new();
        events.push(QueueEvent::VerifyCompleted { task_id: id.to_owned(), success: ok });
        if ok {
            let mut rest: Vec<QueueEvent> = Vec::new();
            self.complete_at(i, &mut rest);
            let ghost head = events@;
            let ghost tail = rest@;
            events.append(&mut rest);
            proof {
                assert(events@ == head + tail);
                assert(events@.subrange(2, events@.len() as int) =~= tail.drop_first());
                assert(events@[1] == tail[0]);
            }
        } else {
            let msg = "checksum mismatch: the file's digest differs from the expected one".to_string();
            let ghost m = msg;
            self.fail_at(i, msg, &mut events);
            proof {
                assert(events@.subrange(0, 1)[0] == events@[0]);
            }
        }
        Ok(events)
    }
}

impl QueueEvent {
    /// A field-by-field copy.
    pub fn clone_event(&self) -> (r: QueueEvent)
        ensures
            r == *self,
    {
        match self {
            QueueEvent::TaskAdded { task_id } => QueueEvent::TaskAdded { task_id: task_id.clone() },
            QueueEvent::TaskStarted { task_id } => QueueEvent::TaskStarted { task_id: task_id.clone() },
            QueueEvent::TaskProgress { task_id, downloaded, total, speed, eta } => QueueEvent::TaskProgress {
                task_id: task_id.clone(), downloaded: *downloaded, total: *total, speed: *speed, eta: *eta,
            },
            QueueEvent::TaskCompleted { task_id } => QueueEvent::TaskCompleted { task_id: task_id.clone() },
            QueueEvent::TaskFailed { task_id, error } => QueueEvent::TaskFailed { task_id: task_id.clone(), error: error.clone() },
            QueueEvent::TaskPaused { task_id } => QueueEvent::TaskPaused { task_id: task_id.clone() },
            QueueEvent::TaskResumed { task_id } => QueueEvent::TaskResumed { task_id: task_id.clone() },
            QueueEvent::TaskCancelled { task_id } => QueueEvent::TaskCancelled { task_id: task_id.clone() },
            QueueEvent::VerifyStarted { task_id } => QueueEvent::VerifyStarted { task_id: task_id.clone() },
            QueueEvent::VerifyCompleted { task_id, success } => QueueEvent::VerifyCompleted { task_id: task_id.clone(), success: *success },
        }
    }
}

proof fn lemma_count_update(s: Seq<DownloadTask>, i: int, t: DownloadTask, st: TaskStatus)
    requires
        0 <= i < s.len(),
    ensures
        count_status(s.update(i, t), st) + (if s[i].status == st { 1int } else { 0int })
            == count_status(s, st) + (if t.status == st { 1int } else { 0int }),
    decreases s.len(),
{
    let u = s.update(i, t);
    if i == s.len() - 1 {
        assert(u.drop_last() =~= s.drop_last());
    } else {
        assert(u.drop_last() =~= s.drop_last().update(i, t));
        lemma_count_update(s.drop_last(), i, t, st);
    }
}

proof fn lemma_count_push(s: Seq<DownloadTask>, t: DownloadTask, st: TaskStatus)
    ensures
        count_status(s.push(t), st) == count_status(s, st) + if t.status == st { 1nat } else { 0nat },
{
    assert(s.push(t).drop_last() =~= s);
}

proof fn lemma_count_zero(s: Seq<DownloadTask>, st: TaskStatus)
    requires
        forall|k: int| 0 <= k < s.len() ==> (#[trigger] s[k]).status != st,
    ensures
        count_status(s, st) == 0,
    decreases s.len(),
{
    if s.len() > 0 {
        let d = s.drop_last();
        assert forall|k: int| 0 <= k < d.len() implies (#[trigger] d[k]).status != st by {
            assert(d[k] == s[k]);
        }
        lemma_count_zero(d, st);
        assert(s.last() == s[s.len() - 1]);
    }
}

proof fn lemma_count_pos(s: Seq<DownloadTask>, i: int, st: TaskStatus)
    requires
        0 <= i < s.len(),
        s[i].status == st,
    ensures
        count_status(s, st) > 0,
    decreases s.len(),
{
    if i < s.len() - 1 {
        assert(s.drop_last()[i] == s[i]);
        lemma_count_pos(s.drop_last(), i, st);
    }
}

proof fn lemma_count_prefix_le(s: Seq<DownloadTask>, k: int, st: TaskStatus)
    requires
        0 <= k <= s.len(),
    ensures
        count_status(s.subrange(0, k), st) <= count_status(s, st),
    decreases s.len() - k,
{
    if k < s.len() {
        assert(s.subrange(0, k + 1).drop_last() =~= s.subrange(0, k));
        lemma_count_prefix_le(s, k + 1, st);
    } else {
        assert(s.subrange(0, k) =~= s);
    }
}

proof fn lemma_rows_update(s: Seq<DownloadTask>, i: int, t: DownloadTask)
    requires
        rows_ok(s),
        0 <= i < s.len(),
        row_ok(t),
    ensures
        rows_ok(s.update(i, t)),
{
    assert forall|k: int| 0 <= k < s.len() implies row_ok(#[trigger] s.update(i, t)[k]) by {
        if k != i {
            assert(s.update(i, t)[k] == s[k]);
        }
    }
}

proof fn lemma_rows_push(s: Seq<DownloadTask>, t: DownloadTask)
    requires
        rows_ok(s),
        row_ok(t),
    ensures
        rows_ok(s.push(t)),
{
    assert forall|k: int| 0 <= k < s.len() + 1 implies row_ok(#[trigger] s.push(t)[k]) by {
        if k < s.len() {
            assert(s.push(t)[k] == s[k]);
        }
    }
}

proof fn lemma_unique_update(s: Seq<DownloadTask>, i: int, t: DownloadTask)
    requires
        unique_ids(s),
        0 <= i < s.len(),
        t.id == s[i].id,
    ensures
        unique_ids(s.update(i, t)),
{
    let u = s.update(i, t);
    assert forall|a: int, b: int| 0 <= a < u.len() && 0 <= b < u.len() && a != b implies #[trigger] u[a].id@ != #[trigger] u[b].id@ by {
        assert(s[a].id@ != s[b].id@);
    }
}

proof fn lemma_pos_unique(s: Seq<DownloadTask>, id: Seq<char>, i: int)
    requires
        unique_ids(s),
        0 <= i < s.len(),
        s[i].id@ == id,
    ensures
        pos(s, id) == i,
{
    let p = pos(s, id);
    assert(0 <= p < s.len() && s[p].id@ == id);
}

proof fn lemma_count_remove(s: Seq<DownloadTask>, i: int, st: TaskStatus)
    requires
        0 <= i < s.len(),
    ensures
        count_status(s.remove(i), st) + (if s[i].status == st { 1int } else { 0int }) == count_status(s, st),
    decreases s.len(),
{
    if i == s.len() - 1 {
        assert(s.remove(i) =~= s.drop_last());
    } else {
        assert(s.remove(i).drop_last() =~= s.drop_last().remove(i));
        lemma_count_remove(s.drop_last(), i, st);
        assert(s.remove(i).last() == s.last());
    }
}

proof fn lemma_remove_keeps_wf(s: Seq<DownloadTask>, i: int)
    requires
        unique_ids(s),
        0 <= i < s.len(),
    ensures
        unique_ids(s.remove(i)),
        rows_ok(s) ==> rows_ok(s.remove(i)),
        count_status(s.remove(i), TaskStatus::Downloading) <= count_status(s, TaskStatus::Downloading),
{
    lemma_count_remove(s, i, TaskStatus::Downloading);
    let r = s.remove(i);
    assert forall|a: int, b: int| 0 <= a < r.len() && 0 <= b < r.len() && a != b implies #[trigger] r[a].id@ != #[trigger] r[b].id@ by {
        let a2 = if a < i { a } else { a + 1 };
        let b2 = if b < i { b } else { b + 1 };
        assert(r[a] == s[a2] && r[b] == s[b2]);
        assert(s[a2].id@ != s[b2].id@);
    }
    if rows_ok(s) {
        assert forall|k: int| 0 <= k < r.len() implies row_ok(#[trigger] r[k]) by {
            let k2 = if k < i { k } else { k + 1 };
            assert(r[k] == s[k2]);
        }
    }
}

/// Adding a task to an empty table, cancelling it and then removing it
/// succeeds at each step and leaves the table empty. The states and results
/// are any that the contracts of `add_task_with_options`, `cancel_task` and
/// `remove_task` allow.
pub proof fn lemma_add_cancel_remove_empties(
    q0: DownloadQueue, q1: DownloadQueue, q2: DownloadQueue, q3: DownloadQueue,
    id: Seq<char>, r2: Result<Vec<QueueEvent>, DownloadError>, r3: Result<(), DownloadError>,
)
    requires
        q0.wf(),
        q0.tasks@.len() == 0,
        q1.wf(),
        q1.tasks@.len() == q0.tasks@.len() + 1,
        q1.tasks@[q0.tasks@.len() as int].id@ == id,
        q1.tasks@[q0.tasks@.len() as int].status == TaskStatus::Pending
            || q1.tasks@[q0.tasks@.len() as int].status == TaskStatus::Downloading,
        q2.wf(),
        r2 is Err ==> q2 == q1,
        !has_id(q1.tasks@, id) <==> (r2 is Err && r2->Err_0 is NotFound),
        has_id(q1.tasks@, id) ==> ({
            let i = pos(q1.tasks@, id);
            let t = q1.tasks@[i];
            let mid = q1.tasks@.update(i, DownloadTask { status: TaskStatus::Cancelled, error: None, ..t });
            &&& (r2 is Ok <==> !is_terminal(t.status))
            &&& (r2 is Ok ==> admitted(mid, q2.tasks@, q2.max_concurrent_tasks as nat, r2->Ok_0@.drop_first()))
        }),
        r3 is Err ==> q3 == q2,
        !has_id(q2.tasks@, id) <==> (r3 is Err && r3->Err_0 is NotFound),
        has_id(q2.tasks@, id) ==> ({
            let i = pos(q2.tasks@, id);
            let t = q2.tasks@[i];
            &&& (r3 is Ok <==> is_removable(t.status))
            &&& (r3 is Ok ==> q3.tasks@ == q2.tasks@.remove(i))
        }),
    ensures
        r2 is Ok,
        r3 is Ok,
        q3.tasks@.len() == 0,
{
    assert(q1.tasks@[0].id@ == id);
    assert(has_id(q1.tasks@, id));
    lemma_pos_unique(q1.tasks@, id, 0);
    let mid = q1.tasks@.update(0, DownloadTask { status: TaskStatus::Cancelled, error: None, ..q1.tasks@[0] });
    assert(r2 is Ok);
    assert(q2.tasks@.len() == 1);
    assert(q2.tasks@[0] == mid[0]);
    assert(has_id(q2.tasks@, id));
    lemma_pos_unique(q2.tasks@, id, 0);
    assert(r3 is Ok);
}

} // verus!
