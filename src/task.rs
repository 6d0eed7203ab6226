//! Tasks, their lifecycle states and the workloads they run.

use rand::Rng;
use vstd::prelude::*;

verus! {

/// Work quantum that the idle workload consumes on every dispatch.
pub const IDLE_WORK: u64 = 1;

/// Exclusive upper bound of the quantum a user workload draws
/// (every workload stays below it).
pub const WORK_LIMIT: u64 = 1000;

/// Lifecycle state of a task.
#[derive(Clone, Copy, Debug, PartialEq, Eq, Structural)]
pub enum TaskState {
    Runnable,
    Running,
    Wait,
}

/// What a task does each time it is dispatched.
#[derive(Clone, Copy, Debug, PartialEq, Eq, Structural)]
pub enum Workload {
    /// The per-CPU placeholder: always consumes one unit.
    Idle,
    /// A user workload drawing a uniform quantum in `[1, WORK_LIMIT)`.
    RandomUser,
}

/// Relies on rand's `thread_rng().gen_range(low..high)`: for integers it
/// returns a value in the half-open range `[low, high)` and panics only when
/// the range is empty.
#[verifier::external_body]
fn random_in(low: u64, high: u64) -> (r: u64)
    requires
        low < high,
    ensures
        low <= r < high,
{
    rand::thread_rng().gen_range(low..high)
}

impl Workload {
    /// The display name of the workload.
    pub open spec fn spec_name(self) -> Seq<char> {
        match self {
            Workload::Idle => seq!['i', 'd', 'l', 'e'],
            Workload::RandomUser => seq!['r', 'a', 'n', 'd', 'o', 'm', 'u', 's', 'e', 'r'],
        }
    }

    /// Whether `q` is a quantum this workload may consume in one dispatch.
    pub open spec fn quantum_ok(self, q: u64) -> bool {
        match self {
            Workload::Idle => q == IDLE_WORK,
            Workload::RandomUser => 1 <= q < WORK_LIMIT,
        }
    }

    pub fn name(&self) -> (r: &'static str)
        ensures
            r@ == self.spec_name(),
    {
        match self {
            Workload::Idle => {
                proof {
                    reveal_strlit("idle");
                }
                "idle"
            },
            Workload::RandomUser => {
                proof {
                    reveal_strlit("randomuser");
                }
                "randomuser"
            },
        }
    }

    /// Performs one unit of work and returns the clock time it consumed.
    pub fn do_work(&self) -> (q: u64)
        ensures
            self.quantum_ok(q),
            1 <= q < WORK_LIMIT,
    {
        match self {
            Workload::Idle => IDLE_WORK,
            Workload::RandomUser => random_in(1, WORK_LIMIT),
        }
    }
}

/// What one dispatch of a task produced.
#[derive(Clone, Copy, Debug, PartialEq, Eq, Structural)]
pub struct TaskSliceOutput {
    pub next_state: TaskState,
    pub clock_consumed: u64,
}

/// A schedulable entity: an id, a lifecycle state, the runtime it has
/// accumulated so far and the workload it runs.
#[derive(Clone, Copy, Debug, PartialEq, Eq, Structural)]
pub struct Task {
    pub id: u64,
    pub state: TaskState,
    pub total_runtime: u64,
    pub workload: Workload,
}

impl Task {
    /// A fresh task: runnable, with no runtime yet.
    pub open spec fn fresh(id: u64, workload: Workload) -> Task {
        Task { id, state: TaskState::Runnable, total_runtime: 0, workload }
    }

    pub fn new(id: u64, workload: Workload) -> (t: Task)
        ensures
            t == Task::fresh(id, workload),
    {
        Task { id, state: TaskState::Runnable, total_runtime: 0, workload }
    }

    /// Runs the workload once and adds the consumed time to the task's
    /// runtime. The task asks to go back to the run queue afterwards.
    pub fn run(&mut self) -> (out: TaskSliceOutput)
        requires
            old(self).total_runtime + WORK_LIMIT <= u64::MAX,
        ensures
            old(self).workload.quantum_ok(out.clock_consumed),
            out.next_state == TaskState::Runnable,
            *final(self) == (Task {
                total_runtime: (old(self).total_runtime + out.clock_consumed) as u64,
                ..*old(self)
            }),
    {
        let work_quantity = self.workload.do_work();
        self.total_runtime = self.total_runtime + work_quantity;
        TaskSliceOutput { next_state: TaskState::Runnable, clock_consumed: work_quantity }
    }
}

} // verus!
