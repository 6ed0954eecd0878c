//! The cooperative scheduler, modelled as a tick-driven task table: exactly
//! one task body runs at a time, driven by an external per-tick pump, and a
//! task only ever leaves the running state at an explicit suspension point.
//! Task ids are table positions and are never reused; a task that reached a
//! terminal state keeps its record, so the table doubles as the history of
//! every task ever spawned.

use vstd::prelude::*;
use crate::CoordError;

verus! {

/// The completion state of one cooperative task.
#[derive(Clone, Copy, Debug, PartialEq, Eq)]
pub enum TaskState {
    /// Suspended; `wake_at` is the earliest logical tick at which it may run.
    Pending { wake_at: u64 },
    /// Its body returned.
    Completed,
    /// Its cancellation handle was invoked, or an enclosing timeout expired.
    Cancelled,
}

/// The scheduler: a logical clock and the table of all tasks ever spawned.
pub struct Scheduler {
    now: u64,
    tasks: Vec<TaskState>,
}

impl Scheduler {
    /// The current logical tick.
    pub closed spec fn now_spec(self) -> u64 {
        self.now
    }

    /// The state of every task ever spawned, by id.
    pub closed spec fn tasks_seq(self) -> Seq<TaskState> {
        self.tasks@
    }

    pub open spec fn task_count(self) -> nat {
        self.tasks_seq().len()
    }

    pub open spec fn task_state(self, id: usize) -> TaskState
        recommends
            id < self.task_count(),
    {
        self.tasks_seq()[id as int]
    }

    pub fn new() -> (r: Self)
        ensures
            r.now_spec() == 0,
            r.tasks_seq() == Seq::<TaskState>::empty(),
    {
        Scheduler { now: 0, tasks: Vec::new() }
    }

    /// The external pump: one game tick elapses. No task state changes by
    /// itself; tasks become runnable when the clock passes their wake tick.
    pub fn advance(&mut self)
        requires
            old(self).now_spec() < u64::MAX,
        ensures
            final(self).now_spec() == old(self).now_spec() + 1,
            final(self).tasks_seq() == old(self).tasks_seq(),
    {
        self.now = self.now + 1;
    }

    pub fn now(&self) -> (t: u64)
        ensures
            t == self.now_spec(),
    {
        self.now
    }

    /// Enqueues a new cooperative task. The returned id is fresh — the table
    /// only grows, so no id is ever reused — and the task is left suspended:
    /// nothing of its body runs during `spawn` itself.
    pub fn spawn(&mut self) -> (id: usize)
        requires
            old(self).task_count() < usize::MAX,
        ensures
            id == old(self).task_count(),
            final(self).tasks_seq() == old(self).tasks_seq().push(
                TaskState::Pending { wake_at: old(self).now_spec() },
            ),
            final(self).task_state(id) == (TaskState::Pending { wake_at: old(self).now_spec() }),
            final(self).now_spec() == old(self).now_spec(),
    {
        let id = self.tasks.len();
        self.tasks.push(TaskState::Pending { wake_at: self.now });
        id
    }

    /// Requests cancellation: a pending task stops at its next suspension
    /// point; a task already terminal is left as it is (side effects that
    /// were committed are not rolled back).
    pub fn cancel(&mut self, id: usize)
        requires
            id < old(self).task_count(),
        ensures
            final(self).now_spec() == old(self).now_spec(),
            final(self).tasks_seq() == old(self).tasks_seq().update(
                id as int,
                if old(self).task_state(id) is Pending {
                    TaskState::Cancelled
                } else {
                    old(self).task_state(id)
                },
            ),
            !(final(self).task_state(id) is Pending),
    {
        let k = id;
        match self.tasks[k] {
            TaskState::Pending { .. } => {
                self.tasks[k] = TaskState::Cancelled;
            },
            _ => {
                proof {
                    assert(old(self).tasks_seq().update(id as int, old(self).task_state(id))
                        =~= old(self).tasks_seq());
                }
            },
        }
    }

    /// Records that the task's body returned.
    pub fn complete(&mut self, id: usize)
        requires
            id < old(self).task_count(),
            old(self).task_state(id) is Pending,
        ensures
            final(self).now_spec() == old(self).now_spec(),
            final(self).tasks_seq() == old(self).tasks_seq().update(
                id as int,
                TaskState::Completed,
            ),
    {
        let k = id;
        self.tasks[k] = TaskState::Completed;
    }

    /// Suspends a pending task until at least `dur` ticks from now: the task
    /// resumes no earlier than `now + dur`, and never on the current tick
    /// when `dur` is positive.
    pub fn sleep(&mut self, id: usize, dur: u64)
        requires
            id < old(self).task_count(),
            old(self).task_state(id) is Pending,
            old(self).now_spec() + dur <= u64::MAX,
        ensures
            final(self).now_spec() == old(self).now_spec(),
            final(self).tasks_seq() == old(self).tasks_seq().update(
                id as int,
                TaskState::Pending { wake_at: (old(self).now_spec() + dur) as u64 },
            ),
    {
        let k = id;
        self.tasks[k] = TaskState::Pending { wake_at: self.now + dur };
    }

    /// The recorded state of one task.
    pub fn state_of(&self, id: usize) -> (s: TaskState)
        requires
            id < self.task_count(),
        ensures
            s == self.task_state(id),
    {
        self.tasks[id]
    }

    /// Whether the task may run on the current tick.
    pub fn runnable(&self, id: usize) -> (r: bool)
        requires
            id < self.task_count(),
        ensures
            r == (self.task_state(id) matches TaskState::Pending { wake_at } && wake_at
                <= self.now_spec()),
    {
        let k = id;
        match self.tasks[k] {
            TaskState::Pending { wake_at } => wake_at <= self.now,
            _ => false,
        }
    }

    /// Resolves a timeout race between an inner task and a deadline:
    /// the inner result wins if the task completed, otherwise an expired
    /// deadline cancels the task and reports `Timeout`; while neither has
    /// happened the race is still open. Every outcome is a plain value —
    /// neither side panics.
    pub fn poll_timeout(&mut self, id: usize, deadline: u64) -> (r: Option<
        Result<(), CoordError>,
    >)
        requires
            id < old(self).task_count(),
        ensures
            final(self).now_spec() == old(self).now_spec(),
            final(self).task_count() == old(self).task_count(),
            match r {
                Some(out) => if old(self).task_state(id) is Completed {
                    &&& out is Ok
                    &&& final(self).tasks_seq() == old(self).tasks_seq()
                } else {
                    &&& old(self).now_spec() >= deadline
                    &&& (out matches Err(e) && e is Timeout)
                    &&& final(self).tasks_seq() == old(self).tasks_seq().update(
                        id as int,
                        if old(self).task_state(id) is Pending {
                            TaskState::Cancelled
                        } else {
                            old(self).task_state(id)
                        },
                    )
                    &&& !(final(self).task_state(id) is Pending)
                },
                None => {
                    &&& !(old(self).task_state(id) is Completed)
                    &&& old(self).now_spec() < deadline
                    &&& final(self).tasks_seq() == old(self).tasks_seq()
                },
            },
    {
        let k = id;
        match self.tasks[k] {
            TaskState::Completed => Some(Ok(())),
            _ => {
                if self.now >= deadline {
                    self.cancel(id);
                    Some(Err(CoordError::Timeout))
                } else {
                    None
                }
            },
        }
    }
}

/// The module-wide "currently running query" cell: at most one peer-discovery
/// query is ever in flight.
pub struct QueryGuard {
    current: Option<usize>,
}

impl QueryGuard {
    /// The id of the in-flight query task, if one is running.
    pub closed spec fn current_spec(self) -> Option<usize> {
        self.current
    }

    pub open spec fn wf(self, sched: Scheduler) -> bool {
        self.current_spec() matches Some(t) ==> t < sched.task_count()
    }

    pub fn new() -> (r: Self)
        ensures
            r.current_spec() is None,
    {
        QueryGuard { current: None }
    }

    /// Starts a fresh query run, superseding any prior one: the prior
    /// in-flight task (if any) is cancelled before the new task is spawned,
    /// so at no point are two query runs pending at once.
    pub fn begin(&mut self, sched: &mut Scheduler) -> (id: usize)
        requires
            old(self).wf(*old(sched)),
            old(sched).task_count() < usize::MAX,
        ensures
            final(self).wf(*final(sched)),
            final(self).current_spec() == Some(id),
            id == old(sched).task_count(),
            final(sched).task_state(id) is Pending,
            final(sched).task_count() == old(sched).task_count() + 1,
            // the superseded run is cancelled (a run that had already ended
            // keeps its record)
            (old(self).current_spec() matches Some(p) ==> final(sched).task_state(p) == (
            if old(sched).task_state(p) is Pending {
                TaskState::Cancelled
            } else {
                old(sched).task_state(p)
            })),
            (old(self).current_spec() matches Some(p) ==> !(final(sched).task_state(p)
                is Pending)),
            // exactly one fresh run: every task but the new one is terminal
            // or untouched, and none but `id` is the current query
            forall|t: usize| t < old(sched).task_count() && Some(t) != old(self).current_spec()
                ==> final(sched).task_state(t) == old(sched).task_state(t),
    {
        match self.current {
            Some(p) => {
                sched.cancel(p);
            },
            None => {},
        }
        let id = sched.spawn();
        self.current = Some(id);
        id
    }

    /// The id of the in-flight query task, if one is running.
    pub fn current(&self) -> (r: Option<usize>)
        ensures
            r == self.current_spec(),
    {
        self.current
    }

    /// The in-flight query finished (or was torn down): clears the cell.
    pub fn clear(&mut self)
        ensures
            final(self).current_spec() is None,
    {
        self.current = None;
    }
}

} // verus!
