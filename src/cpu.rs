//! A virtual CPU: a FIFO run queue of task handles, the handle of the task it
//! is running, its own idle task and a local clock.
//!
//! Tasks live in a table (`Vec<Task>`) shared by all CPUs; a handle is an
//! index into that table.

use std::collections::VecDeque;
use vstd::prelude::*;
use crate::task::{Task, TaskState, Workload, WORK_LIMIT};

verus! {

pub struct Cpu {
    pub id: usize,
    pub clock: u64,
    pub runq: VecDeque<usize>,
    pub running_task: usize,
    pub idle_task: usize,
}

/// The abstract state of a CPU: its run queue as a sequence of handles.
pub struct CpuModel {
    pub id: usize,
    pub clock: u64,
    pub runq: Seq<usize>,
    pub running_task: usize,
    pub idle_task: usize,
}

impl View for Cpu {
    type V = CpuModel;

    open spec fn view(&self) -> CpuModel {
        CpuModel {
            id: self.id,
            clock: self.clock,
            runq: self.runq@,
            running_task: self.running_task,
            idle_task: self.idle_task,
        }
    }
}

/// What one dispatch step did: the task that ran, on which CPU, the runtime
/// it had before, and the work it consumed.
#[derive(Clone, Copy, Debug, PartialEq, Eq, Structural)]
pub struct DispatchRecord {
    pub task_id: u64,
    pub workload: Workload,
    pub cpu_id: usize,
    pub prior_runtime: u64,
    pub work: u64,
}

/// No task of the table is in the middle of a dispatch.
pub open spec fn none_running(tasks: Seq<Task>) -> bool {
    forall|i: int| 0 <= i < tasks.len() ==> #[trigger] tasks[i].state != TaskState::Running
}

impl CpuModel {
    /// The CPU's handles are valid in `tasks`, its idle task runs the idle
    /// workload, the idle task is never in the run queue, and no task is
    /// left `Running` between dispatch steps.
    pub open spec fn wf(self, tasks: Seq<Task>) -> bool {
        &&& self.idle_task < tasks.len()
        &&& tasks[self.idle_task as int].workload == Workload::Idle
        &&& self.running_task < tasks.len()
        &&& forall|k: int| 0 <= k < self.runq.len() ==> #[trigger] self.runq[k] < tasks.len()
        &&& !self.runq.contains(self.idle_task)
        &&& none_running(tasks)
    }

    /// The queue once the previous runner, unless it is the idle task, has
    /// rejoined its tail.
    pub open spec fn requeued(self) -> Seq<usize> {
        if self.running_task != self.idle_task {
            self.runq.push(self.running_task)
        } else {
            self.runq
        }
    }

    /// The task the next dispatch step selects: the head of the requeued
    /// queue, or the idle task when it is empty.
    pub open spec fn next_runner(self) -> usize {
        if self.requeued().len() > 0 {
            self.requeued()[0]
        } else {
            self.idle_task
        }
    }

    /// The run queue after the next dispatch step.
    pub open spec fn next_queue(self) -> Seq<usize> {
        if self.requeued().len() > 0 {
            self.requeued().drop_first()
        } else {
            self.requeued()
        }
    }

    /// The next dispatch step can consume `work`: the runner exists, its
    /// workload allows `work`, and neither the clock nor its runtime overflows.
    pub open spec fn step_ok(self, tasks: Seq<Task>, work: u64) -> bool {
        let r = self.next_runner();
        &&& r < tasks.len()
        &&& tasks[r as int].workload.quantum_ok(work)
        &&& tasks[r as int].total_runtime + work <= u64::MAX
        &&& self.clock + work <= u64::MAX
    }

    /// The CPU after a dispatch step consuming `work`.
    pub open spec fn stepped_cpu(self, work: u64) -> CpuModel {
        CpuModel {
            clock: (self.clock + work) as u64,
            runq: self.next_queue(),
            running_task: self.next_runner(),
            ..self
        }
    }

    /// The task table after a dispatch step consuming `work`: the runner is
    /// runnable again and its runtime has grown by `work`.
    pub open spec fn stepped_tasks(self, tasks: Seq<Task>, work: u64) -> Seq<Task> {
        let r = self.next_runner() as int;
        tasks.update(
            r,
            Task {
                state: TaskState::Runnable,
                total_runtime: (tasks[r].total_runtime + work) as u64,
                ..tasks[r]
            },
        )
    }

    /// One dispatch step of `c0` over the task table `t0`, consuming `work`,
    /// gives `c1` and `t1`.
    pub open spec fn dispatch_step(
        c0: CpuModel,
        t0: Seq<Task>,
        c1: CpuModel,
        t1: Seq<Task>,
        work: u64,
    ) -> bool {
        &&& c0.step_ok(t0, work)
        &&& c1 == c0.stepped_cpu(work)
        &&& t1 == c0.stepped_tasks(t0, work)
    }

    /// The clock and every task's runtime can take `steps` more dispatch
    /// steps without overflowing.
    pub open spec fn headroom(self, tasks: Seq<Task>, steps: nat) -> bool {
        &&& self.clock + steps * WORK_LIMIT <= u64::MAX
        &&& forall|i: int|
            0 <= i < tasks.len() ==> #[trigger] tasks[i].total_runtime + steps * WORK_LIMIT
                <= u64::MAX
    }

    /// A dispatch step keeps the CPU well formed; in particular the idle
    /// task is still absent from the run queue afterwards.
    pub proof fn lemma_step_keeps_wf(c0: CpuModel, t0: Seq<Task>, c1: CpuModel, t1: Seq<Task>, work: u64)
        requires
            c0.wf(t0),
            CpuModel::dispatch_step(c0, t0, c1, t1, work),
        ensures
            c1.wf(t1),
            !c1.runq.contains(c1.idle_task),
    {
        assert(t1[c1.idle_task as int].workload == Workload::Idle);
        assert forall|k: int| 0 <= k < c1.runq.len() implies #[trigger] c1.runq[k] < t1.len() by {
            assert(c1.runq[k] == c0.requeued()[k + 1]);
            if k + 1 < c0.runq.len() {
                assert(c0.runq[k + 1] < t0.len());
            }
        }
        assert(!c1.runq.contains(c1.idle_task)) by {
            if c1.runq.contains(c1.idle_task) {
                let k = choose|k: int| 0 <= k < c1.runq.len() && c1.runq[k] == c1.idle_task;
                assert(c0.requeued()[k + 1] == c0.idle_task);
                if k + 1 < c0.runq.len() {
                    assert(c0.runq.contains(c0.idle_task));
                }
            }
        }
        assert forall|i: int| 0 <= i < t1.len() implies #[trigger] t1[i].state != TaskState::Running by {
            assert(t0[i].state != TaskState::Running);
        }
    }

    /// A dispatch step keeps the tasks the CPU holds (queued, or running
    /// other than the idle task): it only rotates them.
    pub proof fn lemma_step_keeps_members(c0: CpuModel, t0: Seq<Task>, c1: CpuModel, t1: Seq<Task>, work: u64)
        requires
            c0.wf(t0),
            CpuModel::dispatch_step(c0, t0, c1, t1, work),
        ensures
            c1.requeued().to_multiset() == c0.requeued().to_multiset(),
    {
        broadcast use vstd::seq_lib::group_to_multiset_ensures, vstd::multiset::group_multiset_axioms;

        let q = c0.requeued();
        if q.len() > 0 {
            if c0.runq.len() > 0 {
                assert(c0.runq.contains(q[0]));
            }
            assert(q[0] != c0.idle_task);
            assert(c1.requeued() =~= q.remove(0).push(q[0]));
            assert(q.to_multiset().count(q[0]) > 0);
            assert(c1.requeued().to_multiset() =~= q.to_multiset());
        } else {
            assert(c1.requeued() =~= q);
        }
    }

    /// Well-formedness only looks at how many tasks there are, which
    /// workload each runs and that none is running, so it survives a table
    /// that grows or whose runtimes change.
    pub proof fn lemma_wf_table_change(c: CpuModel, t0: Seq<Task>, t1: Seq<Task>)
        requires
            c.wf(t0),
            t0.len() <= t1.len(),
            forall|i: int| 0 <= i < t0.len() ==> #[trigger] t1[i].workload == t0[i].workload,
            none_running(t1),
        ensures
            c.wf(t1),
    {
        assert forall|k: int| 0 <= k < c.runq.len() implies #[trigger] c.runq[k] < t1.len() by {
            assert(c.runq[k] < t0.len());
        }
    }
}

impl Cpu {
    /// A CPU with an empty queue, running a new idle task appended to `tasks`.
    pub fn new(id: usize, tasks: &mut Vec<Task>) -> (c: Cpu)
        ensures
            final(tasks)@ == old(tasks)@.push(Task::fresh(0, Workload::Idle)),
            c.id == id,
            c.clock == 0,
            c.runq@ == Seq::<usize>::empty(),
            c.idle_task == old(tasks)@.len(),
            c.running_task == c.idle_task,
            none_running(old(tasks)@) ==> c@.wf(final(tasks)@),
    {
        let idle_task = tasks.len();
        tasks.push(Task::new(0, Workload::Idle));
        Cpu { id, clock: 0, runq: VecDeque::new(), running_task: idle_task, idle_task }
    }

    /// Appends the task with handle `task` to the tail of the run queue.
    pub fn add_task(&mut self, task: usize)
        requires
            task != old(self).idle_task,
        ensures
            final(self).runq@ == old(self).runq@.push(task),
            final(self).id == old(self).id,
            final(self).clock == old(self).clock,
            final(self).running_task == old(self).running_task,
            final(self).idle_task == old(self).idle_task,
            forall|tasks: Seq<Task>|
                old(self)@.wf(tasks) && task < tasks.len() ==> #[trigger] final(self)@.wf(tasks),
    {
        self.runq.push_back(task);
        proof {
            assert forall|tasks: Seq<Task>|
                old(self)@.wf(tasks) && task < tasks.len() implies #[trigger] self@.wf(tasks) by {
                assert forall|k: int| 0 <= k < self.runq@.len() implies #[trigger] self.runq@[k]
                    < tasks.len() by {
                    if k < old(self).runq@.len() {
                        assert(self.runq@[k] == old(self).runq@[k]);
                    }
                }
                assert(!self.runq@.contains(self.idle_task)) by {
                    if self.runq@.contains(self.idle_task) {
                        let k = choose|k: int| 0 <= k < self.runq@.len() && self.runq@[k] == self.idle_task;
                        if k < old(self).runq@.len() {
                            assert(old(self).runq@[k] == self.idle_task);
                        }
                    }
                }
            }
        }
    }

    /// One dispatch step: the previous runner rejoins the tail of the queue
    /// (unless it is the idle task), the head of the queue (or the idle task)
    /// becomes the runner, runs once, and its work is added to the clock.
    pub fn next_task(&mut self, tasks: &mut Vec<Task>) -> (d: DispatchRecord)
        requires
            old(self)@.wf(old(tasks)@),
            old(self).clock + WORK_LIMIT <= u64::MAX,
            old(tasks)@[old(self)@.next_runner() as int].total_runtime + WORK_LIMIT <= u64::MAX,
        ensures
            CpuModel::dispatch_step(old(self)@, old(tasks)@, final(self)@, final(tasks)@, d.work),
            final(self)@.wf(final(tasks)@),
            d.task_id == old(tasks)@[old(self)@.next_runner() as int].id,
            d.workload == old(tasks)@[old(self)@.next_runner() as int].workload,
            d.prior_runtime == old(tasks)@[old(self)@.next_runner() as int].total_runtime,
            d.cpu_id == old(self).id,
    {
        let ghost c0 = self@;
        let old_task = self.running_task;
        if old_task != self.idle_task {
            self.runq.push_back(old_task);
        }
        assert(self.runq@ == c0.requeued());
        let new_task = match self.runq.pop_front() {
            Some(t) => t,
            None => self.idle_task,
        };
        assert(self.runq@ == c0.next_queue());
        assert(new_task == c0.next_runner());
        assert(new_task < tasks.len()) by {
            if c0.requeued().len() > 0 && c0.running_task != c0.idle_task && c0.runq.len() > 0 {
                assert(c0.runq[0] < tasks.len());
            }
        }
        self.running_task = new_task;
        let ghost t0 = tasks@;
        let mut task = tasks[new_task];
        let prior_runtime = task.total_runtime;
        task.state = TaskState::Running;
        let task_slice_output = task.run();
        self.clock = self.clock + task_slice_output.clock_consumed;
        // `run` never asks to keep running (its contract says so), so the
        // state it returns is applied as it is.
        task.state = task_slice_output.next_state;
        let d = DispatchRecord {
            task_id: task.id,
            workload: task.workload,
            cpu_id: self.id,
            prior_runtime,
            work: task_slice_output.clock_consumed,
        };
        tasks.set(new_task, task);
        proof {
            assert(tasks@ =~= c0.stepped_tasks(t0, d.work));
            CpuModel::lemma_step_keeps_wf(c0, t0, self@, tasks@, d.work);
        }
        d
    }
}

} // verus!
