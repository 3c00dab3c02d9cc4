//! The decisions of the async executor: which tasks wait to be polled, in
//! what order, which wait for the vertical blank, what polling a task did
//! to its stage, and when a task is freed. Tasks are named by number; the
//! futures themselves, and the polling, live outside.
use vstd::prelude::*;

verus! {

/// Where a task's future is.
#[derive(Clone, Copy, Debug, PartialEq, Eq, Structural)]
pub enum Stage {
    /// Still to finish.
    Running,
    /// Finished, its value not yet taken.
    Finished,
    /// Finished and its value taken.
    Extracted,
    /// Aborted.
    Abort,
}

/// What polling a future gave.
#[derive(Clone, Copy, Debug, PartialEq, Eq, Structural)]
pub enum PollOutcome {
    /// It finished.
    Ready,
    /// It is not finished.
    Pending,
}

/// The header of a task: how many handles refer to it, whether it waits to
/// be polled, its stage, and the task to wake when it finishes.
#[derive(Clone, Copy, Debug, PartialEq, Eq, Structural)]
pub struct TaskHeader {
    /// The handles: the executor's and the join handle's.
    pub count: usize,
    /// Whether it waits in a list to be polled.
    pub queued: bool,
    /// The stage of its future.
    pub stage: Stage,
    /// The task waiting for it to finish.
    pub join_waker: Option<usize>,
}

/// The tasks, the list waiting to be polled, the list waiting for the
/// vertical blank, the batch being polled, and the tasks spawned but not
/// yet handed to the executor.
pub struct Scheduler {
    tasks: Vec<TaskHeader>,
    poll: Vec<usize>,
    vblankers: Vec<usize>,
    batch: Vec<usize>,
    batch_pos: usize,
    to_add: Vec<usize>,
}

/// Whether no item of `s` occurs twice.
pub open spec fn distinct(s: Seq<usize>) -> bool {
    forall|i: int, j: int| 0 <= i < j < s.len() ==> s[i] != s[j]
}

/// Whether no item is in both.
pub open spec fn disjoint(a: Seq<usize>, b: Seq<usize>) -> bool {
    forall|x: usize| !(a.contains(x) && b.contains(x))
}

/// The poll list and task headers after handing the tasks `adds` over in
/// order: each task not queued yet is put at the end of the poll list and
/// marked queued; a queued one, or one that does not exist, is left as
/// it is.
pub open spec fn run_after(poll: Seq<usize>, tasks: Seq<TaskHeader>, adds: Seq<usize>) -> (
    Seq<usize>,
    Seq<TaskHeader>,
)
    decreases adds.len(),
{
    if adds.len() == 0 {
        (poll, tasks)
    } else {
        let (p, ts) = run_after(poll, tasks, adds.drop_last());
        let t = adds.last();
        if t >= ts.len() || ts[t as int].queued {
            (p, ts)
        } else {
            (p.push(t), ts.update(t as int, TaskHeader { queued: true, ..ts[t as int] }))
        }
    }
}

/// Handing tasks over keeps the number of tasks.
pub proof fn lemma_run_after_len(poll: Seq<usize>, tasks: Seq<TaskHeader>, adds: Seq<usize>)
    ensures
        run_after(poll, tasks, adds).1.len() == tasks.len(),
    decreases adds.len(),
{
    if adds.len() > 0 {
        lemma_run_after_len(poll, tasks, adds.drop_last());
    }
}

impl Scheduler {
    /// The task headers.
    pub closed spec fn tasks_spec(self) -> Seq<TaskHeader> {
        self.tasks@
    }

    /// The tasks waiting to be polled, in order.
    pub closed spec fn poll_list(self) -> Seq<usize> {
        self.poll@
    }

    /// The tasks waiting for the vertical blank, in order.
    pub closed spec fn vblank_list(self) -> Seq<usize> {
        self.vblankers@
    }

    /// The tasks of the current batch still to be polled, in order.
    pub closed spec fn pending_batch(self) -> Seq<usize> {
        self.batch@.subrange(self.batch_pos as int, self.batch@.len() as int)
    }

    /// The tasks spawned and not yet handed over.
    pub closed spec fn to_add_list(self) -> Seq<usize> {
        self.to_add@
    }

    /// Whether task `t` is in one of the lists waiting to be polled.
    pub open spec fn listed(self, t: usize) -> bool {
        self.poll_list().contains(t) || self.vblank_list().contains(t)
            || self.pending_batch().contains(t)
    }

    /// Every listed task exists, a task is marked queued exactly when it is
    /// listed, and no task is listed twice.
    pub closed spec fn wf(self) -> bool {
        &&& self.batch_pos <= self.batch@.len()
        &&& forall|t: usize| #[trigger] self.listed(t) ==> t < self.tasks@.len()
        &&& forall|t: usize| t < self.tasks@.len() ==> (#[trigger] self.tasks@[t as int].queued <==> self.listed(t))
        &&& forall|k: int| 0 <= k < self.to_add@.len() ==> #[trigger] self.to_add@[k] < self.tasks@.len()
        &&& distinct(self.poll@)
        &&& distinct(self.vblankers@)
        &&& distinct(self.pending_batch())
        &&& disjoint(self.poll@, self.vblankers@)
        &&& disjoint(self.poll@, self.pending_batch())
        &&& disjoint(self.vblankers@, self.pending_batch())
    }

    /// No task.
    pub fn new() -> (r: Self)
        ensures
            r.wf(),
            r.tasks_spec().len() == 0,
            r.poll_list().len() == 0,
            r.vblank_list().len() == 0,
            r.pending_batch().len() == 0,
            r.to_add_list().len() == 0,
    {
        let r = Scheduler {
            tasks: Vec::new(),
            poll: Vec::new(),
            vblankers: Vec::new(),
            batch: Vec::new(),
            batch_pos: 0,
            to_add: Vec::new(),
        };
        proof {
            assert(r.pending_batch() =~= Seq::<usize>::empty());
        }
        r
    }

    /// The number of tasks spawned.
    pub fn num_tasks(&self) -> (r: usize)
        ensures
            r == self.tasks_spec().len(),
    {
        self.tasks.len()
    }

    /// The header of task `t`.
    pub fn header(&self, t: usize) -> (r: TaskHeader)
        requires
            t < self.tasks_spec().len(),
        ensures
            r == self.tasks_spec()[t as int],
    {
        self.tasks[t]
    }

    /// Whether `finish_poll(t, outcome)` may be called: `t` is a task, a
    /// poll that ends it finds a handle to give up, and the task waiting
    /// for it, if any, exists.
    pub fn can_finish_poll(&self, t: usize, outcome: PollOutcome) -> (r: bool)
        ensures
            r == (t < self.tasks_spec().len() && {
                let h = self.tasks_spec()[t as int];
                let ready = h.stage != Stage::Running || outcome == PollOutcome::Ready;
                &&& ready ==> h.count > 0
                &&& h.stage == Stage::Running && outcome == PollOutcome::Ready && h.join_waker is Some
                    ==> h.join_waker->Some_0 < self.tasks_spec().len()
            }),
    {
        if t >= self.tasks.len() {
            return false;
        }
        let h = self.tasks[t];
        let running = match h.stage {
            Stage::Running => true,
            _ => false,
        };
        let ready_outcome = match outcome {
            PollOutcome::Ready => true,
            PollOutcome::Pending => false,
        };
        let ready = !running || ready_outcome;
        if ready && h.count == 0 {
            return false;
        }
        if running && ready_outcome {
            match h.join_waker {
                Some(w) => w < self.tasks.len(),
                None => true,
            }
        } else {
            true
        }
    }

    /// A new running task with two handles, waiting to be handed to the
    /// executor; returns its number.
    pub fn spawn(&mut self) -> (r: usize)
        requires
            old(self).wf(),
        ensures
            final(self).wf(),
            r == old(self).tasks_spec().len(),
            final(self).tasks_spec() == old(self).tasks_spec().push(
                TaskHeader { count: 2, queued: false, stage: Stage::Running, join_waker: None },
            ),
            final(self).to_add_list() == old(self).to_add_list().push(r),
            final(self).poll_list() == old(self).poll_list(),
            final(self).vblank_list() == old(self).vblank_list(),
            final(self).pending_batch() == old(self).pending_batch(),
    {
        let id = self.tasks.len();
        self.tasks.push(TaskHeader { count: 2, queued: false, stage: Stage::Running, join_waker: None });
        self.to_add.push(id);
        proof {
            assert(self.pending_batch() == old(self).pending_batch());
            assert forall|x: usize| #[trigger] self.listed(x) == old(self).listed(x) by {}
            assert forall|t: usize| t < self.tasks@.len() implies (#[trigger] self.tasks@[t as int].queued <==> self.listed(t)) by {
                if t < id {
                    assert(self.tasks@[t as int] == old(self).tasks@[t as int]);
                } else {
                    assert(!old(self).listed(t));
                }
            }
        }
        id
    }

    /// Wakes task `t`: puts it at the end of the poll list unless it is
    /// listed already.
    pub fn add_to_run_list(&mut self, t: usize)
        requires
            old(self).wf(),
            t < old(self).tasks_spec().len(),
        ensures
            final(self).wf(),
            final(self).listed(t),
            old(self).listed(t) ==> *final(self) == *old(self),
            !old(self).listed(t) ==> {
                &&& final(self).poll_list() == old(self).poll_list().push(t)
                &&& final(self).tasks_spec() == old(self).tasks_spec().update(
                    t as int,
                    TaskHeader { queued: true, ..old(self).tasks_spec()[t as int] },
                )
                &&& final(self).vblank_list() == old(self).vblank_list()
                &&& final(self).pending_batch() == old(self).pending_batch()
                &&& final(self).to_add_list() == old(self).to_add_list()
            },
    {
        if self.tasks[t].queued {
            return;
        }
        self.poll.push(t);
        let mut h = self.tasks[t];
        h.queued = true;
        self.tasks.set(t, h);
        proof {
            self.lemma_listed_after_push(*old(self), t);
        }
    }

    proof fn lemma_listed_after_push(self, before: Self, t: usize)
        requires
            before.wf(),
            t < before.tasks@.len(),
            !before.listed(t),
            self.poll@ == before.poll@.push(t),
            self.vblankers@ == before.vblankers@,
            self.batch@ == before.batch@,
            self.batch_pos == before.batch_pos,
            self.to_add@ == before.to_add@,
            self.tasks@ == before.tasks@.update(t as int, TaskHeader { queued: true, ..before.tasks@[t as int] }),
        ensures
            self.wf(),
            self.listed(t),
    {
        assert(self.pending_batch() == before.pending_batch());
        assert(self.poll@[self.poll@.len() - 1] == t);
        assert forall|x: usize| #[trigger] self.listed(x) implies x < self.tasks@.len() by {
            if x != t {
                if self.poll@.contains(x) {
                    let k = choose|k: int| 0 <= k < self.poll@.len() && self.poll@[k] == x;
                    assert(before.poll@[k] == x);
                }
                assert(before.listed(x));
            }
        }
        assert forall|x: usize| x < self.tasks@.len() implies (#[trigger] self.tasks@[x as int].queued <==> self.listed(x)) by {
            if x != t {
                if self.poll@.contains(x) {
                    let k = choose|k: int| 0 <= k < self.poll@.len() && self.poll@[k] == x;
                    assert(before.poll@[k] == x);
                }
                if before.poll@.contains(x) {
                    let k = choose|k: int| 0 <= k < before.poll@.len() && before.poll@[k] == x;
                    assert(self.poll@[k] == x);
                }
            }
        }
        assert forall|x: usize| !(self.poll@.contains(x) && self.vblankers@.contains(x)) by {
            if self.poll@.contains(x) && x != t {
                let k = choose|k: int| 0 <= k < self.poll@.len() && self.poll@[k] == x;
                assert(before.poll@[k] == x);
            }
        }
        assert forall|x: usize| !(self.poll@.contains(x) && self.pending_batch().contains(x)) by {
            if self.poll@.contains(x) && x != t {
                let k = choose|k: int| 0 <= k < self.poll@.len() && self.poll@[k] == x;
                assert(before.poll@[k] == x);
            }
        }
        assert forall|i: int, j: int| 0 <= i < j < self.poll@.len() implies self.poll@[i] != self.poll@[j] by {
            if j == self.poll@.len() - 1 {
                assert(before.poll@.contains(self.poll@[i]));
            }
        }
    }

    /// Hands every spawned task to the executor, in order: each that is not
    /// queued yet goes to the end of the poll list and is marked queued;
    /// the other lists stay as they were.
    pub fn add_waiting(&mut self)
        requires
            old(self).wf(),
        ensures
            final(self).wf(),
            final(self).to_add_list().len() == 0,
            (final(self).poll_list(), final(self).tasks_spec()) == run_after(
                old(self).poll_list(),
                old(self).tasks_spec(),
                old(self).to_add_list(),
            ),
            final(self).vblank_list() == old(self).vblank_list(),
            final(self).pending_batch() == old(self).pending_batch(),
    {
        let mut i: usize = 0;
        while i < self.to_add.len()
            invariant
                self.wf(),
                self.to_add@ == old(self).to_add@,
                i <= self.to_add@.len(),
                (self.poll@, self.tasks@) == run_after(
                    old(self).poll@,
                    old(self).tasks@,
                    old(self).to_add@.take(i as int),
                ),
                self.vblankers@ == old(self).vblankers@,
                self.pending_batch() == old(self).pending_batch(),
            decreases self.to_add@.len() - i,
        {
            let t = self.to_add[i];
            proof {
                lemma_run_after_len(old(self).poll@, old(self).tasks@, old(self).to_add@.take(i as int));
                assert(old(self).to_add@.take(i + 1).drop_last() =~= old(self).to_add@.take(i as int));
                assert(t < self.tasks@.len());
                assert(self.tasks@[t as int].queued <==> self.listed(t));
            }
            self.add_to_run_list(t);
            i = i + 1;
        }
        let ghost before_clear = *self;
        self.to_add.clear();
        proof {
            assert(old(self).to_add@.take(i as int) =~= old(self).to_add@);
            assert(self.pending_batch() == before_clear.pending_batch());
            assert forall|x: usize| #[trigger] self.listed(x) == before_clear.listed(x) by {}
        }
    }

    proof fn lemma_listed_stays(self, before: Self, x: usize)
        requires
            before.listed(x),
            before.poll@.len() <= self.poll@.len(),
            forall|k: int| 0 <= k < before.poll@.len() ==> self.poll@[k] == before.poll@[k],
            self.vblankers@ == before.vblankers@,
            self.pending_batch() == before.pending_batch(),
        ensures
            self.listed(x),
    {
        if before.poll@.contains(x) {
            let k = choose|k: int| 0 <= k < before.poll@.len() && before.poll@[k] == x;
            assert(self.poll@[k] == x);
        }
    }

    /// Puts task `t` on the list waiting for the vertical blank unless it is
    /// listed already.
    pub fn add_to_vblank_list(&mut self, t: usize)
        requires
            old(self).wf(),
            t < old(self).tasks_spec().len(),
        ensures
            final(self).wf(),
            final(self).listed(t),
            old(self).listed(t) ==> *final(self) == *old(self),
            !old(self).listed(t) ==> {
                &&& final(self).vblank_list() == old(self).vblank_list().push(t)
                &&& final(self).poll_list() == old(self).poll_list()
                &&& final(self).pending_batch() == old(self).pending_batch()
                &&& final(self).tasks_spec() == old(self).tasks_spec().update(
                    t as int,
                    TaskHeader { queued: true, ..old(self).tasks_spec()[t as int] },
                )
                &&& final(self).to_add_list() == old(self).to_add_list()
            },
    {
        if self.tasks[t].queued {
            return;
        }
        let ghost before = *self;
        self.vblankers.push(t);
        let mut h = self.tasks[t];
        h.queued = true;
        self.tasks.set(t, h);
        proof {
            assert(self.pending_batch() == before.pending_batch());
            assert(self.vblankers@[self.vblankers@.len() - 1] == t);
            assert forall|x: usize| #[trigger] self.listed(x) implies x < self.tasks@.len() by {
                if x != t {
                    if self.vblankers@.contains(x) {
                        let k = choose|k: int| 0 <= k < self.vblankers@.len() && self.vblankers@[k] == x;
                        assert(before.vblankers@[k] == x);
                    }
                    assert(before.listed(x));
                }
            }
            assert forall|x: usize| x < self.tasks@.len() implies (#[trigger] self.tasks@[x as int].queued <==> self.listed(x)) by {
                if x != t {
                    if self.vblankers@.contains(x) {
                        let k = choose|k: int| 0 <= k < self.vblankers@.len() && self.vblankers@[k] == x;
                        assert(before.vblankers@[k] == x);
                    }
                    if before.vblankers@.contains(x) {
                        let k = choose|k: int| 0 <= k < before.vblankers@.len() && before.vblankers@[k] == x;
                        assert(self.vblankers@[k] == x);
                    }
                }
            }
            assert forall|x: usize| !(self.poll@.contains(x) && self.vblankers@.contains(x)) by {
                if self.vblankers@.contains(x) && x != t {
                    let k = choose|k: int| 0 <= k < self.vblankers@.len() && self.vblankers@[k] == x;
                    assert(before.vblankers@[k] == x);
                }
            }
            assert forall|x: usize| !(self.vblankers@.contains(x) && self.pending_batch().contains(x)) by {
                if self.vblankers@.contains(x) && x != t {
                    let k = choose|k: int| 0 <= k < self.vblankers@.len() && self.vblankers@[k] == x;
                    assert(before.vblankers@[k] == x);
                }
            }
            assert forall|i: int, j: int| 0 <= i < j < self.vblankers@.len() implies self.vblankers@[i] != self.vblankers@[j] by {
                if j == self.vblankers@.len() - 1 {
                    assert(before.vblankers@.contains(self.vblankers@[i]));
                }
            }
        }
    }

    /// Starts polling the tasks waiting: when the last batch is done and the
    /// poll list is not empty, the whole list becomes the batch.
    pub fn take_batch(&mut self) -> (r: bool)
        requires
            old(self).wf(),
            old(self).pending_batch().len() == 0,
        ensures
            final(self).wf(),
            r == (old(self).poll_list().len() > 0),
            r ==> final(self).pending_batch() == old(self).poll_list() && final(self).poll_list().len() == 0,
            !r ==> *final(self) == *old(self),
            final(self).vblank_list() == old(self).vblank_list(),
            final(self).tasks_spec() == old(self).tasks_spec(),
            final(self).to_add_list() == old(self).to_add_list(),
    {
        if self.poll.len() == 0 {
            return false;
        }
        let mut fresh: Vec<usize> = Vec::new();
        std::mem::swap(&mut fresh, &mut self.poll);
        self.batch = fresh;
        self.batch_pos = 0;
        proof {
            assert(self.pending_batch() =~= old(self).poll@);
            assert(old(self).pending_batch() =~= Seq::<usize>::empty());
            assert forall|x: usize| #[trigger] self.listed(x) == old(self).listed(x) by {}
        }
        true
    }

    /// The next task of the batch, no longer queued, if any is left.
    pub fn next_in_batch(&mut self) -> (r: Option<usize>)
        requires
            old(self).wf(),
        ensures
            final(self).wf(),
            old(self).pending_batch().len() == 0 ==> r is None && *final(self) == *old(self),
            old(self).pending_batch().len() > 0 ==> {
                let t = old(self).pending_batch()[0];
                &&& r == Some(t)
                &&& final(self).pending_batch() == old(self).pending_batch().drop_first()
                &&& final(self).tasks_spec() == old(self).tasks_spec().update(
                    t as int,
                    TaskHeader { queued: false, ..old(self).tasks_spec()[t as int] },
                )
                &&& !final(self).listed(t)
            },
            final(self).poll_list() == old(self).poll_list(),
            final(self).vblank_list() == old(self).vblank_list(),
    {
        if self.batch_pos >= self.batch.len() {
            return None;
        }
        let t = self.batch[self.batch_pos];
        let ghost before = *self;
        proof {
            assert(before.pending_batch()[0] == t);
            assert(before.listed(t));
        }
        self.batch_pos = self.batch_pos + 1;
        let mut h = self.tasks[t];
        h.queued = false;
        self.tasks.set(t, h);
        proof {
            assert(self.pending_batch() =~= before.pending_batch().drop_first());
            assert forall|x: usize| #[trigger] self.pending_batch().contains(x) implies before.pending_batch().contains(x) && x != t by {
                let k = choose|k: int| 0 <= k < self.pending_batch().len() && self.pending_batch()[k] == x;
                assert(before.pending_batch()[k + 1] == x);
            }
            assert(!self.pending_batch().contains(t));
            assert forall|i: int, j: int| 0 <= i < j < self.pending_batch().len() implies self.pending_batch()[i] != self.pending_batch()[j] by {
                assert(before.pending_batch()[i + 1] == self.pending_batch()[i]);
                assert(before.pending_batch()[j + 1] == self.pending_batch()[j]);
            }
            assert forall|x: usize| x != t implies #[trigger] self.listed(x) == before.listed(x) by {
                if before.pending_batch().contains(x) {
                    let k = choose|k: int| 0 <= k < before.pending_batch().len() && before.pending_batch()[k] == x;
                    assert(k != 0);
                    assert(self.pending_batch()[k - 1] == x);
                }
            }
            assert forall|x: usize| #[trigger] self.listed(x) implies x < self.tasks@.len() by {
                if x != t {
                    assert(before.listed(x));
                }
            }
            assert forall|x: usize| x < self.tasks@.len() implies (#[trigger] self.tasks@[x as int].queued <==> self.listed(x)) by {
                if x != t {
                    assert(self.listed(x) == before.listed(x));
                }
            }
        }
        Some(t)
    }

    /// Whether polling task `t` polls its future: only while it runs.
    pub fn needs_poll(&self, t: usize) -> (r: bool)
        requires
            t < self.tasks_spec().len(),
        ensures
            r == (self.tasks_spec()[t as int].stage == Stage::Running),
    {
        match self.tasks[t].stage {
            Stage::Running => true,
            _ => false,
        }
    }

    /// Records the result of polling task `t`: a running future that
    /// finished becomes finished and wakes the task waiting for it; a task
    /// no longer running counts as finished. A finished poll gives up the
    /// executor's handle. Returns whether the task was freed.
    pub fn finish_poll(&mut self, t: usize, outcome: PollOutcome) -> (r: bool)
        requires
            old(self).wf(),
            t < old(self).tasks_spec().len(),
            ({
                let h = old(self).tasks_spec()[t as int];
                let ready = h.stage != Stage::Running || outcome == PollOutcome::Ready;
                &&& ready ==> h.count > 0
                &&& h.stage == Stage::Running && outcome == PollOutcome::Ready && h.join_waker is Some
                    ==> h.join_waker->Some_0 < old(self).tasks_spec().len()
            }),
        ensures
            final(self).wf(),
            final(self).tasks_spec().len() == old(self).tasks_spec().len(),
            ({
                let h = old(self).tasks_spec()[t as int];
                let ready = h.stage != Stage::Running || outcome == PollOutcome::Ready;
                let f = final(self).tasks_spec()[t as int];
                &&& f.stage == if h.stage == Stage::Running && outcome == PollOutcome::Ready {
                    Stage::Finished
                } else {
                    h.stage
                }
                &&& f.count == if ready { (h.count - 1) as usize } else { h.count }
                &&& r == (ready && h.count == 1)
                &&& h.stage == Stage::Running && outcome == PollOutcome::Ready && h.join_waker is Some
                    ==> final(self).listed(h.join_waker->Some_0)
            }),
    {
        let mut h = self.tasks[t];
        let ready = match h.stage {
            Stage::Running => {
                match outcome {
                    PollOutcome::Ready => {
                        h.stage = Stage::Finished;
                        let waiter = h.join_waker;
                        h.join_waker = None;
                        self.set_header(t, h);
                        match waiter {
                            Some(w) => {
                                self.add_to_run_list(w);
                            },
                            None => {},
                        }
                        true
                    },
                    PollOutcome::Pending => false,
                }
            },
            _ => true,
        };
        if ready {
            let ghost waker_listed = match old(self).tasks@[t as int].join_waker {
                Some(w) => self.listed(w),
                None => true,
            };
            let mut h2 = self.tasks[t];
            h2.count = h2.count - 1;
            let freed = h2.count == 0;
            self.set_header(t, h2);
            proof {
                if old(self).tasks@[t as int].stage == Stage::Running && old(self).tasks@[t as int].join_waker is Some {
                    assert(self.listed(old(self).tasks@[t as int].join_waker->Some_0));
                }
            }
            freed
        } else {
            false
        }
    }

    /// Replaces the header of `t`, keeping whether it is queued.
    fn set_header(&mut self, t: usize, h: TaskHeader)
        requires
            old(self).wf(),
            t < old(self).tasks_spec().len(),
            h.queued == old(self).tasks_spec()[t as int].queued,
        ensures
            final(self).wf(),
            final(self).tasks_spec() == old(self).tasks_spec().update(t as int, h),
            final(self).poll_list() == old(self).poll_list(),
            final(self).vblank_list() == old(self).vblank_list(),
            final(self).pending_batch() == old(self).pending_batch(),
            final(self).to_add_list() == old(self).to_add_list(),
            forall|x: usize| #[trigger] final(self).listed(x) == old(self).listed(x),
    {
        self.tasks.set(t, h);
        proof {
            assert(self.pending_batch() == old(self).pending_batch());
            assert forall|x: usize| #[trigger] self.listed(x) == old(self).listed(x) by {}
            assert forall|x: usize| x < self.tasks@.len() implies (#[trigger] self.tasks@[x as int].queued <==> self.listed(x)) by {
                assert(self.listed(x) == old(self).listed(x));
                if x != t {
                    assert(self.tasks@[x as int] == old(self).tasks@[x as int]);
                }
            }
        }
    }

    /// The join handle of task `t` asks for its value: a finished task hands
    /// it over once, becoming extracted; otherwise the asking task `waiter`
    /// is to be woken when it finishes. Returns whether the value was handed
    /// over.
    pub fn try_read_value(&mut self, t: usize, waiter: usize) -> (r: bool)
        requires
            old(self).wf(),
            t < old(self).tasks_spec().len(),
        ensures
            final(self).wf(),
            r == (old(self).tasks_spec()[t as int].stage == Stage::Finished),
            final(self).tasks_spec() == old(self).tasks_spec().update(
                t as int,
                if r {
                    TaskHeader { stage: Stage::Extracted, ..old(self).tasks_spec()[t as int] }
                } else {
                    TaskHeader { join_waker: Some(waiter), ..old(self).tasks_spec()[t as int] }
                },
            ),
    {
        let mut h = self.tasks[t];
        let finished = match h.stage {
            Stage::Finished => true,
            _ => false,
        };
        if finished {
            h.stage = Stage::Extracted;
        } else {
            h.join_waker = Some(waiter);
        }
        self.set_header(t, h);
        finished
    }

    /// Aborts task `t`: its future is dropped at its next poll.
    pub fn abort(&mut self, t: usize)
        requires
            old(self).wf(),
            t < old(self).tasks_spec().len(),
        ensures
            final(self).wf(),
            final(self).tasks_spec() == old(self).tasks_spec().update(
                t as int,
                TaskHeader { stage: Stage::Abort, ..old(self).tasks_spec()[t as int] },
            ),
    {
        let mut h = self.tasks[t];
        h.stage = Stage::Abort;
        self.set_header(t, h);
    }

    /// Whether task `t` is done: no longer running.
    pub fn is_done(&self, t: usize) -> (r: bool)
        requires
            t < self.tasks_spec().len(),
        ensures
            r == (self.tasks_spec()[t as int].stage != Stage::Running),
    {
        match self.tasks[t].stage {
            Stage::Running => false,
            _ => true,
        }
    }

    /// The join handle of task `t` is dropped: one handle fewer. Returns
    /// whether the task was freed.
    pub fn drop_join(&mut self, t: usize) -> (r: bool)
        requires
            old(self).wf(),
            t < old(self).tasks_spec().len(),
            old(self).tasks_spec()[t as int].count > 0,
        ensures
            final(self).wf(),
            final(self).tasks_spec() == old(self).tasks_spec().update(
                t as int,
                TaskHeader {
                    count: (old(self).tasks_spec()[t as int].count - 1) as usize,
                    ..old(self).tasks_spec()[t as int]
                },
            ),
            r == (old(self).tasks_spec()[t as int].count == 1),
    {
        let mut h = self.tasks[t];
        h.count = h.count - 1;
        let freed = h.count == 0;
        self.set_header(t, h);
        freed
    }

    /// Handles the interrupts raised, as read from the interrupt queue: a
    /// vertical blank moves the tasks waiting for it to the end of the poll
    /// list.
    pub fn process_interrupts(&mut self, interrupts: u32)
        requires
            old(self).wf(),
        ensures
            final(self).wf(),
            interrupts & 1 != 0 ==> {
                &&& final(self).poll_list() == old(self).poll_list() + old(self).vblank_list()
                &&& final(self).vblank_list().len() == 0
            },
            interrupts & 1 == 0 ==> *final(self) == *old(self),
            final(self).tasks_spec() == old(self).tasks_spec(),
            final(self).pending_batch() == old(self).pending_batch(),
    {
        if interrupts & 1 != 0 {
            let ghost before = *self;
            let mut moved: Vec<usize> = Vec::new();
            std::mem::swap(&mut moved, &mut self.vblankers);
            self.poll.append(&mut moved);
            proof {
                assert(self.poll@ =~= before.poll@ + before.vblankers@);
                assert(self.pending_batch() == before.pending_batch());
                assert forall|x: usize| #[trigger] self.listed(x) == before.listed(x) by {
                    let n = before.poll@.len() as int;
                    if self.poll@.contains(x) {
                        let k = choose|k: int| 0 <= k < self.poll@.len() && self.poll@[k] == x;
                        if k < n {
                            assert(before.poll@[k] == x);
                        } else {
                            assert(before.vblankers@[k - n] == x);
                        }
                    }
                    if before.poll@.contains(x) {
                        let k = choose|k: int| 0 <= k < before.poll@.len() && before.poll@[k] == x;
                        assert(self.poll@[k] == x);
                    }
                    if before.vblankers@.contains(x) {
                        let k = choose|k: int| 0 <= k < before.vblankers@.len() && before.vblankers@[k] == x;
                        assert(self.poll@[n + k] == x);
                    }
                }
                assert forall|i: int, j: int| 0 <= i < j < self.poll@.len() implies self.poll@[i] != self.poll@[j] by {
                    let n = before.poll@.len() as int;
                    if i < n && j >= n {
                        assert(before.vblankers@[j - n] == self.poll@[j]);
                        assert(before.vblankers@.contains(self.poll@[j]));
                        assert(before.poll@.contains(self.poll@[i]));
                    } else if i >= n {
                        assert(before.vblankers@[i - n] == self.poll@[i]);
                        assert(before.vblankers@[j - n] == self.poll@[j]);
                    }
                }
                assert forall|x: usize| !(self.poll@.contains(x) && self.pending_batch().contains(x)) by {
                    if self.poll@.contains(x) {
                        let k = choose|k: int| 0 <= k < self.poll@.len() && self.poll@[k] == x;
                        if k < before.poll@.len() {
                            assert(before.poll@.contains(x));
                        } else {
                            assert(before.vblankers@[k - before.poll@.len()] == x);
                            assert(before.vblankers@.contains(x));
                        }
                    }
                }
            }
        }
    }
}

/// A task waits at most once to be polled: it is in at most one of the
/// lists, at most once in it, and marked queued exactly then.
pub proof fn lemma_listed_once(s: Scheduler, t: usize)
    requires
        s.wf(),
    ensures
        !(s.poll_list().contains(t) && s.vblank_list().contains(t)),
        !(s.poll_list().contains(t) && s.pending_batch().contains(t)),
        !(s.vblank_list().contains(t) && s.pending_batch().contains(t)),
        forall|i: int, j: int|
            0 <= i < j < s.poll_list().len() ==> !(s.poll_list()[i] == t && s.poll_list()[j] == t),
        forall|i: int, j: int|
            0 <= i < j < s.vblank_list().len() ==> !(s.vblank_list()[i] == t && s.vblank_list()[j]
                == t),
        s.listed(t) ==> t < s.tasks_spec().len() && s.tasks_spec()[t as int].queued,
{
}

} // verus!
