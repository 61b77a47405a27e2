//! The scheduling decisions of a fixed-size worker pool.
//!
//! Each worker has its own task queue, and a shared status table records which
//! workers are idle. A submitted task goes to the first idle worker, or to
//! worker `0` when none is idle. Workers mark themselves working when they take
//! a task and idle when it is done. The threads, queues and lock that carry
//! this out live with the caller; this module holds the table and the rules.
//!
//! The dispatch is a best-effort heuristic: two submissions that read the
//! table before either chosen worker has marked itself working go to the same
//! worker, and a busy worker `0` keeps receiving tasks while all are busy.
use vstd::prelude::*;

verus! {

/// What a worker is doing.
#[derive(Clone, Copy, Debug, PartialEq, Eq, Structural)]
pub enum WorkerStatus {
    Idle,
    Working,
}

/// The status table of a pool: one entry per worker, indexed by worker id.
pub struct PoolState {
    statuses: Vec<WorkerStatus>,
}

/// The first idle worker at or after `i`, or `s.len()` if there is none.
pub open spec fn first_idle_from(s: Seq<WorkerStatus>, i: int) -> int
    decreases s.len() - i,
{
    if i < 0 || i >= s.len() {
        s.len() as int
    } else if s[i] == WorkerStatus::Idle {
        i
    } else {
        first_idle_from(s, i + 1)
    }
}

/// The worker that a submission goes to: the first idle one, else worker `0`.
pub open spec fn dispatch_target(s: Seq<WorkerStatus>) -> int {
    if first_idle_from(s, 0) < s.len() {
        first_idle_from(s, 0)
    } else {
        0
    }
}

/// The table after a task is sent to its worker and that worker has marked
/// itself working.
pub open spec fn after_spaced_submission(s: Seq<WorkerStatus>) -> Seq<WorkerStatus> {
    s.update(dispatch_target(s), WorkerStatus::Working)
}

/// The table after `n` submissions, each started before the next one.
pub open spec fn after_spaced_submissions(s: Seq<WorkerStatus>, n: nat) -> Seq<WorkerStatus>
    decreases n,
{
    if n == 0 {
        s
    } else {
        after_spaced_submission(after_spaced_submissions(s, (n - 1) as nat))
    }
}

/// A table of `k` idle workers.
pub open spec fn all_idle(k: nat) -> Seq<WorkerStatus> {
    Seq::new(k, |i: int| WorkerStatus::Idle)
}

impl View for PoolState {
    type V = Seq<WorkerStatus>;

    closed spec fn view(&self) -> Seq<WorkerStatus> {
        self.statuses@
    }
}

impl PoolState {
    /// A pool has at least one worker.
    pub open spec fn wf(&self) -> bool {
        self@.len() > 0
    }

    /// The table of a new pool of `size` workers, all idle.
    pub fn new(size: usize) -> (pool: PoolState)
        requires
            size > 0,
        ensures
            pool.wf(),
            pool@ == all_idle(size as nat),
    {
        let mut statuses: Vec<WorkerStatus> = Vec::new();
        let mut i: usize = 0;
        while i < size
            invariant
                i <= size,
                statuses@ == all_idle(i as nat),
            decreases size - i,
        {
            statuses.push(WorkerStatus::Idle);
            i = i + 1;
            proof {
                assert(statuses@ =~= all_idle(i as nat));
            }
        }
        PoolState { statuses }
    }

    /// The number of workers.
    pub fn size(&self) -> (n: usize)
        ensures
            n == self@.len(),
    {
        self.statuses.len()
    }

    /// The status of worker `id`.
    pub fn status(&self, id: usize) -> (st: WorkerStatus)
        requires
            id < self@.len(),
        ensures
            st == self@[id as int],
    {
        self.statuses[id]
    }

    /// The worker that a task submitted now goes to: the first idle worker, or
    /// worker `0` when every worker is working.
    pub fn dispatch(&self) -> (id: usize)
        requires
            self.wf(),
        ensures
            id == dispatch_target(self@),
            id < self@.len(),
            (exists|i: int| 0 <= i < self@.len() && self@[i] == WorkerStatus::Idle) ==> self@[id as int]
                == WorkerStatus::Idle && forall|j: int|
                0 <= j < id ==> self@[j] == WorkerStatus::Working,
            (forall|i: int| 0 <= i < self@.len() ==> self@[i] == WorkerStatus::Working) ==> id == 0,
    {
        let n = self.statuses.len();
        let mut i: usize = 0;
        while i < n
            invariant
                n == self@.len(),
                i <= n,
                first_idle_from(self@, 0) == first_idle_from(self@, i as int),
                forall|j: int| 0 <= j < i ==> self@[j] == WorkerStatus::Working,
            decreases n - i,
        {
            if self.statuses[i] == WorkerStatus::Idle {
                return i;
            }
            i = i + 1;
        }
        proof {
            assert forall|j: int| 0 <= j < self@.len() implies self@[j] != WorkerStatus::Idle by {
                assert(self@[j] == WorkerStatus::Working);
            }
        }
        0
    }

    /// Worker `id` has taken a task from its queue.
    pub fn task_started(&mut self, id: usize)
        requires
            old(self).wf(),
            id < old(self)@.len(),
        ensures
            final(self).wf(),
            final(self)@ == old(self)@.update(id as int, WorkerStatus::Working),
    {
        self.statuses.set(id, WorkerStatus::Working);
    }

    /// Worker `id` has finished its task.
    pub fn task_finished(&mut self, id: usize)
        requires
            old(self).wf(),
            id < old(self)@.len(),
        ensures
            final(self).wf(),
            final(self)@ == old(self)@.update(id as int, WorkerStatus::Idle),
    {
        self.statuses.set(id, WorkerStatus::Idle);
    }
}

/// After `n` spaced submissions to a pool of `k` idle workers, with `n <= k`,
/// the first `n` workers are working and the others idle.
proof fn lemma_spaced_table(k: nat, n: nat)
    requires
        n <= k,
    ensures
        after_spaced_submissions(all_idle(k), n).len() == k,
        forall|j: int|
            0 <= j < k ==> #[trigger] after_spaced_submissions(all_idle(k), n)[j] == (if j < n {
                WorkerStatus::Working
            } else {
                WorkerStatus::Idle
            }),
    decreases n,
{
    if n > 0 {
        lemma_spaced_table(k, (n - 1) as nat);
        let s = after_spaced_submissions(all_idle(k), (n - 1) as nat);
        lemma_first_idle_of_prefix(s, (n - 1) as int, 0);
    }
}

/// In a table whose first `m` workers are working and the rest idle, the first
/// idle worker at or after `i <= m` is worker `m`.
proof fn lemma_first_idle_of_prefix(s: Seq<WorkerStatus>, m: int, i: int)
    requires
        0 <= i <= m < s.len(),
        forall|j: int| 0 <= j < s.len() ==> #[trigger] s[j] == (if j < m {
            WorkerStatus::Working
        } else {
            WorkerStatus::Idle
        }),
    ensures
        first_idle_from(s, i) == m,
    decreases m - i,
{
    if i < m {
        lemma_first_idle_of_prefix(s, m, i + 1);
    }
}

/// Submitting `n <= k` tasks to a pool of `k` idle workers, each task started
/// before the next is submitted, sends task `i` to worker `i`: no two of them go
/// to the same worker.
pub proof fn lemma_spaced_submissions_distinct(k: nat, n: nat)
    requires
        n <= k,
    ensures
        forall|i: nat| i < n ==> dispatch_target(#[trigger] after_spaced_submissions(all_idle(k), i)) == i,
{
    assert forall|i: nat| i < n implies dispatch_target(
        #[trigger] after_spaced_submissions(all_idle(k), i),
    ) == i by {
        lemma_spaced_table(k, i);
        lemma_first_idle_of_prefix(after_spaced_submissions(all_idle(k), i), i as int, 0);
    }
}

} // verus!
