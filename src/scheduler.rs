//! The scheduler: a fixed pool of CPUs, a task table, static assignment of
//! tasks to CPUs, and a bounded round-robin driver.

use vstd::prelude::*;
use crate::cpu::{none_running, Cpu, CpuModel, DispatchRecord};
use crate::task::{Task, TaskState, Workload, WORK_LIMIT};

verus! {

/// Id of the first task that `add_tasks` creates; the following ones count up.
pub const FIRST_TASK_ID: u64 = 1000;

/// Number of global ticks `run_forever` performs.
pub const TICKS: usize = 1000;

pub struct Scheduler {
    pub cpus: Vec<Cpu>,
    pub tasks: Vec<Task>,
}

/// The handles among `first .. first + count` whose task goes to CPU `c` when
/// there are `n` CPUs, in increasing order. The task with handle `first + k`
/// has id `FIRST_TASK_ID + k`.
pub open spec fn assigned(first: nat, count: nat, n: nat, c: nat) -> Seq<usize>
    decreases count,
{
    if count == 0 {
        Seq::empty()
    } else {
        let k = (count - 1) as nat;
        let rest = assigned(first, k, n, c);
        if (FIRST_TASK_ID + k) % (n as int) == c {
            rest.push((first + k) as usize)
        } else {
            rest
        }
    }
}

/// The abstract states of `cpus`.
pub open spec fn models(cpus: Seq<Cpu>) -> Seq<CpuModel> {
    cpus.map_values(|c: Cpu| c@)
}

/// The work each record of `log` consumed.
pub open spec fn works_of(log: Seq<DispatchRecord>) -> Seq<u64> {
    log.map_values(|d: DispatchRecord| d.work)
}

/// The CPUs and the task table after the ticks whose works are `works`:
/// tick `t` is one dispatch step of the CPU with index `t % n` (`n` CPUs)
/// consuming `works[t]`.
pub open spec fn after_ticks(cpus: Seq<CpuModel>, tasks: Seq<Task>, works: Seq<u64>) -> (Seq<CpuModel>, Seq<Task>)
    decreases works.len(),
{
    if works.len() == 0 {
        (cpus, tasks)
    } else {
        let prev = after_ticks(cpus, tasks, works.drop_last());
        let t = works.len() - 1;
        let i = t % (cpus.len() as int);
        let c = prev.0[i];
        (prev.0.update(i, c.stepped_cpu(works[t])), c.stepped_tasks(prev.1, works[t]))
    }
}

/// The tasks `add_tasks(count)` creates, in order.
pub open spec fn new_user_tasks(count: nat) -> Seq<Task> {
    Seq::new(count, |k: int| Task::fresh((FIRST_TASK_ID + k) as u64, Workload::RandomUser))
}

/// Total work the ticks of `log` that went to CPU index `c` consumed, where
/// tick `t` went to CPU index `t % n`.
pub open spec fn cpu_work(log: Seq<DispatchRecord>, n: nat, c: nat) -> nat
    decreases log.len(),
{
    if log.len() == 0 {
        0
    } else {
        let t = log.len() - 1;
        cpu_work(log.drop_last(), n, c) + if t % (n as int) == c {
            log[t].work as nat
        } else {
            0
        }
    }
}

impl Scheduler {
    /// No task is left running and every CPU is well formed over the task
    /// table.
    pub open spec fn wf(&self) -> bool {
        &&& none_running(self.tasks@)
        &&& forall|i: int| 0 <= i < self.cpus@.len() ==> #[trigger] self.cpus@[i]@.wf(self.tasks@)
    }

    /// Every clock and every runtime can take `steps` more dispatch steps.
    pub open spec fn headroom(&self, steps: nat) -> bool {
        forall|i: int| 0 <= i < self.cpus@.len() ==> #[trigger] self.cpus@[i]@.headroom(self.tasks@, steps)
    }

    pub fn new() -> (s: Scheduler)
        ensures
            s.cpus@ == Seq::<Cpu>::empty(),
            s.tasks@ == Seq::<Task>::empty(),
            s.wf(),
    {
        Scheduler { cpus: Vec::new(), tasks: Vec::new() }
    }

    /// Adds `cpu_count` CPUs with ids `0 .. cpu_count`, each with an empty
    /// queue and its own idle task, appended to the task table.
    pub fn add_cpus(&mut self, cpu_count: usize)
        requires
            old(self).wf(),
        ensures
            final(self).wf(),
            final(self).tasks@ == old(self).tasks@ + Seq::new(
                cpu_count as nat,
                |k: int| Task::fresh(0, Workload::Idle),
            ),
            final(self).cpus@.len() == old(self).cpus@.len() + cpu_count,
            forall|i: int| 0 <= i < old(self).cpus@.len() ==> #[trigger] final(self).cpus@[i] == old(self).cpus@[i],
            forall|k: int|
                0 <= k < cpu_count ==> {
                    let c = #[trigger] final(self).cpus@[old(self).cpus@.len() + k];
                    &&& c.id == k
                    &&& c.clock == 0
                    &&& c.runq@ == Seq::<usize>::empty()
                    &&& c.idle_task == old(self).tasks@.len() + k
                    &&& c.running_task == c.idle_task
                },
    {
        let ghost c0 = self.cpus@;
        let ghost t0 = self.tasks@;
        let mut cpu_id: usize = 0;
        while cpu_id < cpu_count
            invariant
                cpu_id <= cpu_count,
                self.wf(),
                self.tasks@ == t0 + Seq::new(cpu_id as nat, |k: int| Task::fresh(0, Workload::Idle)),
                self.cpus@.len() == c0.len() + cpu_id,
                forall|i: int| 0 <= i < c0.len() ==> #[trigger] self.cpus@[i] == c0[i],
                forall|k: int|
                    0 <= k < cpu_id ==> {
                        let c = #[trigger] self.cpus@[c0.len() + k];
                        &&& c.id == k
                        &&& c.clock == 0
                        &&& c.runq@ == Seq::<usize>::empty()
                        &&& c.idle_task == t0.len() + k
                        &&& c.running_task == c.idle_task
                    },
            decreases cpu_count - cpu_id,
        {
            let ghost t_before = self.tasks@;
            let cpu = Cpu::new(cpu_id, &mut self.tasks);
            proof {
                assert forall|i: int| 0 <= i < self.tasks@.len() implies #[trigger] self.tasks@[i].state
                    != TaskState::Running by {
                    if i < t_before.len() {
                        assert(t_before[i].state != TaskState::Running);
                    }
                }
                assert forall|i: int| 0 <= i < self.cpus@.len() implies #[trigger] self.cpus@[i]@.wf(
                    self.tasks@,
                ) by {
                    CpuModel::lemma_wf_table_change(self.cpus@[i]@, t_before, self.tasks@);
                }
            }
            let ghost cpus_before = self.cpus@;
            self.cpus.push(cpu);
            cpu_id = cpu_id + 1;
            proof {
                assert(self.tasks@ =~= t0 + Seq::new(cpu_id as nat, |k: int| Task::fresh(0, Workload::Idle)));
                assert forall|k: int| 0 <= k < cpu_id implies {
                    let c = #[trigger] self.cpus@[c0.len() + k];
                    &&& c.id == k
                    &&& c.clock == 0
                    &&& c.runq@ == Seq::<usize>::empty()
                    &&& c.idle_task == t0.len() + k
                    &&& c.running_task == c.idle_task
                } by {
                    if k < cpu_id - 1 {
                        assert(self.cpus@[c0.len() + k] == cpus_before[c0.len() + k]);
                    }
                }
            }
        }
    }
    /// Creates `task_count` user tasks with ids counting up from
    /// `FIRST_TASK_ID`, appends them to the task table, and queues each on
    /// the CPU whose index is its id modulo the number of CPUs.
    pub fn add_tasks(&mut self, task_count: u64)
        requires
            old(self).wf(),
            task_count == 0 || old(self).cpus@.len() > 0,
            FIRST_TASK_ID + task_count <= u64::MAX,
            old(self).tasks@.len() + task_count <= usize::MAX,
        ensures
            final(self).wf(),
            final(self).tasks@ == old(self).tasks@ + new_user_tasks(task_count as nat),
            final(self).cpus@.len() == old(self).cpus@.len(),
            forall|c: int|
                0 <= c < old(self).cpus@.len() ==> {
                    let c0 = old(self).cpus@[c];
                    let c1 = #[trigger] final(self).cpus@[c];
                    &&& c1.runq@ == c0.runq@ + assigned(
                        old(self).tasks@.len(),
                        task_count as nat,
                        old(self).cpus@.len(),
                        c as nat,
                    )
                    &&& c1.id == c0.id
                    &&& c1.clock == c0.clock
                    &&& c1.running_task == c0.running_task
                    &&& c1.idle_task == c0.idle_task
                },
    {
        let ghost c0 = self.cpus@;
        let ghost t0 = self.tasks@;
        let cpu_count = self.cpus.len();
        let mut task_id: u64 = FIRST_TASK_ID;
        while task_id < FIRST_TASK_ID + task_count
            invariant
                FIRST_TASK_ID <= task_id <= FIRST_TASK_ID + task_count,
                FIRST_TASK_ID + task_count <= u64::MAX,
                t0.len() + task_count <= usize::MAX,
                cpu_count == c0.len(),
                task_count == 0 || cpu_count > 0,
                self.wf(),
                self.tasks@ == t0 + new_user_tasks((task_id - FIRST_TASK_ID) as nat),
                self.cpus@.len() == c0.len(),
                forall|c: int|
                    0 <= c < c0.len() ==> {
                        let c1 = #[trigger] self.cpus@[c];
                        &&& c1.runq@ == c0[c].runq@ + assigned(
                            t0.len(),
                            (task_id - FIRST_TASK_ID) as nat,
                            c0.len(),
                            c as nat,
                        )
                        &&& c1.id == c0[c].id
                        &&& c1.clock == c0[c].clock
                        &&& c1.running_task == c0[c].running_task
                        &&& c1.idle_task == c0[c].idle_task
                    },
            decreases FIRST_TASK_ID + task_count - task_id,
        {
            let ghost k = (task_id - FIRST_TASK_ID) as nat;
            let ghost t_before = self.tasks@;
            let ghost cpus_before = self.cpus@;
            let handle = self.tasks.len();
            self.tasks.push(Task::new(task_id, Workload::RandomUser));
            let cpu_id = (task_id % (cpu_count as u64)) as usize;
            proof {
                assert forall|i: int| 0 <= i < self.tasks@.len() implies #[trigger] self.tasks@[i].state
                    != TaskState::Running by {
                    if i < t_before.len() {
                        assert(t_before[i].state != TaskState::Running);
                    }
                }
                assert forall|i: int| 0 <= i < self.cpus@.len() implies #[trigger] self.cpus@[i]@.wf(
                    self.tasks@,
                ) by {
                    CpuModel::lemma_wf_table_change(self.cpus@[i]@, t_before, self.tasks@);
                }
                assert(self.cpus@[cpu_id as int]@.wf(self.tasks@));
            }
            self.cpus[cpu_id].add_task(handle);
            task_id = task_id + 1;
            proof {
                assert(self.tasks@ =~= t0 + new_user_tasks((task_id - FIRST_TASK_ID) as nat));
                assert(self.cpus@[cpu_id as int]@.wf(self.tasks@));
                assert forall|i: int| 0 <= i < self.cpus@.len() implies #[trigger] self.cpus@[i]@.wf(
                    self.tasks@,
                ) by {
                    if i != cpu_id {
                        assert(self.cpus@[i] == cpus_before[i]);
                    }
                }
                assert forall|c: int| 0 <= c < c0.len() implies {
                    let c1 = #[trigger] self.cpus@[c];
                    &&& c1.runq@ == c0[c].runq@ + assigned(
                        t0.len(),
                        (task_id - FIRST_TASK_ID) as nat,
                        c0.len(),
                        c as nat,
                    )
                    &&& c1.id == c0[c].id
                    &&& c1.clock == c0[c].clock
                    &&& c1.running_task == c0[c].running_task
                    &&& c1.idle_task == c0[c].idle_task
                } by {
                    let a = assigned(t0.len(), k, c0.len(), c as nat);
                    assert(assigned(t0.len(), k + 1, c0.len(), c as nat) == if (FIRST_TASK_ID + k) % (
                    c0.len() as int) == c {
                        a.push((t0.len() + k) as usize)
                    } else {
                        a
                    });
                    if c == cpu_id {
                        assert(self.cpus@[c].runq@ =~= c0[c].runq@ + a.push(handle));
                    } else {
                        assert(self.cpus@[c] == cpus_before[c]);
                    }
                }
            }
        }
    }

    /// Runs `TICKS` global ticks; tick `t` performs one dispatch step on the
    /// CPU with index `t % n` (`n` CPUs), so the CPUs take turns in index
    /// order. Returns one record per tick. With no CPU there is nothing to run.
    pub fn run_forever(&mut self) -> (log: Vec<DispatchRecord>)
        requires
            old(self).wf(),
            old(self).headroom(TICKS as nat),
        ensures
            final(self).wf(),
            log@.len() == if old(self).cpus@.len() > 0 {
                TICKS as int
            } else {
                0
            },
            (models(final(self).cpus@), final(self).tasks@) == after_ticks(
                models(old(self).cpus@),
                old(self).tasks@,
                works_of(log@),
            ),
            forall|t: int|
                0 <= t < log@.len() ==> {
                    let s = after_ticks(models(old(self).cpus@), old(self).tasks@, works_of(log@).take(t));
                    let c = s.0[t % old(self).cpus@.len() as int];
                    let r = c.next_runner() as int;
                    &&& c.step_ok(s.1, (#[trigger] log@[t]).work)
                    &&& log@[t].cpu_id == c.id
                    &&& log@[t].task_id == s.1[r].id
                    &&& log@[t].workload == s.1[r].workload
                    &&& log@[t].prior_runtime == s.1[r].total_runtime
                },
            final(self).cpus@.len() == old(self).cpus@.len(),
            final(self).tasks@.len() == old(self).tasks@.len(),
            forall|c: int|
                0 <= c < old(self).cpus@.len() ==> {
                    let c0 = old(self).cpus@[c]@;
                    let c1 = #[trigger] final(self).cpus@[c]@;
                    &&& c1.id == c0.id
                    &&& c1.idle_task == c0.idle_task
                    &&& c1.clock == c0.clock + cpu_work(log@, old(self).cpus@.len(), c as nat)
                    &&& c1.requeued().to_multiset() == c0.requeued().to_multiset()
                },
            forall|j: int|
                0 <= j < old(self).tasks@.len() ==> {
                    let t0 = old(self).tasks@[j];
                    let t1 = #[trigger] final(self).tasks@[j];
                    &&& t1.id == t0.id
                    &&& t1.workload == t0.workload
                    &&& t1.total_runtime >= t0.total_runtime
                    &&& t0.state == TaskState::Runnable ==> t1.state == TaskState::Runnable
                },
    {
        let ghost c0 = self.cpus@;
        let ghost m0 = models(self.cpus@);
        let ghost t0 = self.tasks@;
        let cpu_count = self.cpus.len();
        let mut log: Vec<DispatchRecord> = Vec::new();
        if cpu_count == 0 {
            assert(works_of(log@) =~= Seq::<u64>::empty());
            assert(models(self.cpus@) =~= m0);
            return log;
        }
        let mut tick: usize = 0;
        while tick < TICKS
            invariant
                tick <= TICKS,
                cpu_count == c0.len() > 0,
                m0 == models(c0),
                self.wf(),
                self.headroom((TICKS - tick) as nat),
                self.cpus@.len() == c0.len(),
                self.tasks@.len() == t0.len(),
                log@.len() == tick,
                (models(self.cpus@), self.tasks@) == after_ticks(m0, t0, works_of(log@)),
                forall|t: int|
                    0 <= t < log@.len() ==> {
                        let s = after_ticks(m0, t0, works_of(log@).take(t));
                        let c = s.0[t % c0.len() as int];
                        let r = c.next_runner() as int;
                        &&& c.step_ok(s.1, (#[trigger] log@[t]).work)
                        &&& log@[t].cpu_id == c.id
                        &&& log@[t].task_id == s.1[r].id
                        &&& log@[t].workload == s.1[r].workload
                        &&& log@[t].prior_runtime == s.1[r].total_runtime
                    },
                forall|c: int|
                    0 <= c < c0.len() ==> {
                        let c1 = #[trigger] self.cpus@[c]@;
                        &&& c1.id == c0[c].id
                        &&& c1.idle_task == c0[c].idle_task
                        &&& c1.clock == c0[c].clock + cpu_work(log@, c0.len(), c as nat)
                        &&& c1.requeued().to_multiset() == c0[c]@.requeued().to_multiset()
                    },
                forall|j: int|
                    0 <= j < t0.len() ==> {
                        let t1 = #[trigger] self.tasks@[j];
                        &&& t1.id == t0[j].id
                        &&& t1.workload == t0[j].workload
                        &&& t1.total_runtime >= t0[j].total_runtime
                        &&& t0[j].state == TaskState::Runnable ==> t1.state == TaskState::Runnable
                    },
            decreases TICKS - tick,
        {
            let i = tick % cpu_count;
            let ghost cpus_before = self.cpus@;
            let ghost tasks_before = self.tasks@;
            let ghost log_before = log@;
            let ghost steps = (TICKS - tick) as nat;
            let ghost ca = cpus_before[i as int]@;
            assert(ca.wf(self.tasks@));
            assert(ca.headroom(self.tasks@, steps));
            assert(self.tasks@[ca.next_runner() as int].total_runtime + steps * WORK_LIMIT <= u64::MAX);
            let d = self.cpus[i].next_task(&mut self.tasks);
            log.push(d);
            tick = tick + 1;
            proof {
                let cb = self.cpus@[i as int]@;
                CpuModel::lemma_step_keeps_members(ca, tasks_before, cb, self.tasks@, d.work);
                assert(d.work < WORK_LIMIT);
                assert(log@.drop_last() =~= log_before);
                assert(works_of(log@).drop_last() =~= works_of(log_before));
                assert(models(self.cpus@) =~= models(cpus_before).update(i as int, cb));
                assert((models(self.cpus@), self.tasks@) == after_ticks(m0, t0, works_of(log@)));
                assert forall|c: int| 0 <= c < c0.len() && c != i implies #[trigger] self.cpus@[c]
                    == cpus_before[c] by {}
                assert forall|c: int| 0 <= c < c0.len() implies #[trigger] self.cpus@[c]@.wf(
                    self.tasks@,
                ) by {
                    if c != i {
                        CpuModel::lemma_wf_table_change(self.cpus@[c]@, tasks_before, self.tasks@);
                    }
                }
                assert forall|c: int| 0 <= c < c0.len() implies #[trigger] self.cpus@[c]@.headroom(
                    self.tasks@,
                    (TICKS - tick) as nat,
                ) by {
                    assert(cpus_before[c]@.headroom(tasks_before, steps));
                    assert forall|j: int| 0 <= j < self.tasks@.len() implies #[trigger] self.tasks@[j].total_runtime
                        + (TICKS - tick) * WORK_LIMIT <= u64::MAX by {
                        assert(tasks_before[j].total_runtime + steps * WORK_LIMIT <= u64::MAX);
                    }
                }
                assert forall|t: int| 0 <= t < log@.len() implies {
                    let s = after_ticks(m0, t0, works_of(log@).take(t));
                    let c = s.0[t % c0.len() as int];
                    let r = c.next_runner() as int;
                    &&& c.step_ok(s.1, (#[trigger] log@[t]).work)
                    &&& log@[t].cpu_id == c.id
                    &&& log@[t].task_id == s.1[r].id
                    &&& log@[t].workload == s.1[r].workload
                    &&& log@[t].prior_runtime == s.1[r].total_runtime
                } by {
                    if t < log_before.len() {
                        assert(log@[t] == log_before[t]);
                        assert(works_of(log@).take(t) =~= works_of(log_before).take(t));
                    } else {
                        assert(works_of(log@).take(t) =~= works_of(log_before));
                    }
                }
            }
        }
        log
    }
}

} // verus!
