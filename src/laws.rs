//! Properties of the dispatch step and of task assignment, over single steps
//! and over whole traces of steps.

use vstd::prelude::*;
use crate::cpu::CpuModel;
use crate::scheduler::{assigned, FIRST_TASK_ID};
use crate::task::{Task, IDLE_WORK};

verus! {

/// `cpus[i]` over the task table `tables[i]` takes one dispatch step,
/// consuming `works[i]`, to `cpus[i + 1]` over `tables[i + 1]`.
pub open spec fn is_trace(cpus: Seq<CpuModel>, tables: Seq<Seq<Task>>, works: Seq<u64>) -> bool {
    &&& cpus.len() == works.len() + 1
    &&& tables.len() == works.len() + 1
    &&& forall|i: int|
        0 <= i < works.len() ==> #[trigger] CpuModel::dispatch_step(
            cpus[i],
            tables[i],
            cpus[i + 1],
            tables[i + 1],
            works[i],
        )
}

/// The sum of `works`.
pub open spec fn total(works: Seq<u64>) -> nat
    decreases works.len(),
{
    if works.len() == 0 {
        0
    } else {
        total(works.drop_last()) + works.last() as nat
    }
}

/// The sum of the works of the steps in which task `j` was the runner
/// (`cpus[i + 1]` runs the task selected by step `i`).
pub open spec fn gained(cpus: Seq<CpuModel>, works: Seq<u64>, j: usize) -> nat
    decreases works.len(),
{
    if works.len() == 0 {
        0
    } else {
        let i = works.len() - 1;
        gained(cpus, works.drop_last(), j) + if cpus[i + 1].running_task == j {
            works[i] as nat
        } else {
            0
        }
    }
}

proof fn lemma_trace_prefix(cpus: Seq<CpuModel>, tables: Seq<Seq<Task>>, works: Seq<u64>)
    requires
        is_trace(cpus, tables, works),
        works.len() > 0,
    ensures
        is_trace(cpus.drop_last(), tables.drop_last(), works.drop_last()),
{
    assert forall|i: int| 0 <= i < works.len() - 1 implies #[trigger] CpuModel::dispatch_step(
        cpus.drop_last()[i],
        tables.drop_last()[i],
        cpus.drop_last()[i + 1],
        tables.drop_last()[i + 1],
        works.drop_last()[i],
    ) by {
        assert(CpuModel::dispatch_step(cpus[i], tables[i], cpus[i + 1], tables[i + 1], works[i]));
    }
}

/// FIFO fairness: when a task other than the idle task is running and the
/// queue is `[t1, ..., tn]` with `n >= 1`, one step runs `t1` and leaves the
/// queue `[t2, ..., tn, r]`, `r` being the previous runner.
pub proof fn lemma_fifo_fairness(c0: CpuModel, t0: Seq<Task>, c1: CpuModel, t1: Seq<Task>, work: u64)
    requires
        CpuModel::dispatch_step(c0, t0, c1, t1, work),
        c0.running_task != c0.idle_task,
        c0.runq.len() > 0,
    ensures
        c1.running_task == c0.runq[0],
        c1.runq == c0.runq.drop_first().push(c0.running_task),
{
    assert(c1.runq =~= c0.runq.drop_first().push(c0.running_task));
}

/// Idle fallback: with an empty queue and the idle task running, one step
/// runs the idle task again, keeps the queue empty and advances the clock
/// and the idle task's runtime by the idle quantum.
pub proof fn lemma_idle_fallback(c0: CpuModel, t0: Seq<Task>, c1: CpuModel, t1: Seq<Task>, work: u64)
    requires
        c0.wf(t0),
        CpuModel::dispatch_step(c0, t0, c1, t1, work),
        c0.runq.len() == 0,
        c0.running_task == c0.idle_task,
    ensures
        c1.running_task == c1.idle_task,
        c1.runq.len() == 0,
        work == IDLE_WORK,
        c1.clock == c0.clock + IDLE_WORK,
        t1[c0.idle_task as int].total_runtime == t0[c0.idle_task as int].total_runtime + IDLE_WORK,
{
}

/// Clock conservation: after any number of steps the clock has advanced by
/// exactly the sum of the work the steps consumed.
pub proof fn lemma_clock_conservation(cpus: Seq<CpuModel>, tables: Seq<Seq<Task>>, works: Seq<u64>)
    requires
        is_trace(cpus, tables, works),
    ensures
        cpus.last().clock == cpus[0].clock + total(works),
    decreases works.len(),
{
    if works.len() > 0 {
        lemma_trace_prefix(cpus, tables, works);
        lemma_clock_conservation(cpus.drop_last(), tables.drop_last(), works.drop_last());
        let i = works.len() - 1;
        assert(CpuModel::dispatch_step(cpus[i], tables[i], cpus[i + 1], tables[i + 1], works[i]));
    }
}

/// Runtime accounting: each step adds its work to the runtime of the task it
/// runs and leaves every other runtime alone, so a runtime never decreases,
/// and at the end it has grown by the work of the steps that ran the task.
pub proof fn lemma_runtime_accounting(
    cpus: Seq<CpuModel>,
    tables: Seq<Seq<Task>>,
    works: Seq<u64>,
    j: usize,
)
    requires
        is_trace(cpus, tables, works),
        j < tables[0].len(),
    ensures
        forall|i: int| 0 <= i < tables.len() ==> (#[trigger] tables[i]).len() == tables[0].len(),
        forall|i: int|
            0 <= i < works.len() ==> (#[trigger] tables[i + 1][j as int]).total_runtime
                == tables[i][j as int].total_runtime + if cpus[i + 1].running_task == j {
                works[i] as int
            } else {
                0
            },
        forall|a: int, b: int|
            0 <= a <= b < tables.len() ==> (#[trigger] tables[a][j as int]).total_runtime
                <= (#[trigger] tables[b][j as int]).total_runtime,
        tables.last()[j as int].total_runtime == tables[0][j as int].total_runtime + gained(
            cpus,
            works,
            j,
        ),
    decreases works.len(),
{
    if works.len() > 0 {
        let n = works.len() - 1;
        lemma_trace_prefix(cpus, tables, works);
        lemma_runtime_accounting(cpus.drop_last(), tables.drop_last(), works.drop_last(), j);
        assert(CpuModel::dispatch_step(cpus[n], tables[n], cpus[n + 1], tables[n + 1], works[n]));
        assert(gained(cpus.drop_last(), works.drop_last(), j) == gained(cpus, works.drop_last(), j))
            by {
            lemma_gained_prefix(cpus, works.drop_last(), j);
        }
        assert forall|i: int| 0 <= i < tables.len() implies (#[trigger] tables[i]).len()
            == tables[0].len() by {
            if i <= n {
                assert(tables.drop_last()[i] == tables[i]);
            }
        }
        assert forall|i: int| 0 <= i < works.len() implies (#[trigger] tables[i + 1][j as int]).total_runtime
            == tables[i][j as int].total_runtime + if cpus[i + 1].running_task == j {
            works[i] as int
        } else {
            0
        } by {
            assert(CpuModel::dispatch_step(cpus[i], tables[i], cpus[i + 1], tables[i + 1], works[i]));
            if i < n {
                assert(tables.drop_last()[i + 1] == tables[i + 1]);
            }
        }
        assert forall|a: int, b: int| 0 <= a <= b < tables.len() implies (#[trigger] tables[a][j as int]).total_runtime
            <= (#[trigger] tables[b][j as int]).total_runtime by {
            if b == tables.len() - 1 && a < b {
                assert(tables.drop_last()[a] == tables[a]);
                assert(tables.drop_last()[n] == tables[n]);
            } else if b < tables.len() - 1 {
                assert(tables.drop_last()[a] == tables[a]);
                assert(tables.drop_last()[b] == tables[b]);
            }
        }
    }
}

proof fn lemma_gained_prefix(cpus: Seq<CpuModel>, works: Seq<u64>, j: usize)
    requires
        cpus.len() >= works.len() + 2,
    ensures
        gained(cpus.drop_last(), works, j) == gained(cpus, works, j),
    decreases works.len(),
{
    if works.len() > 0 {
        lemma_gained_prefix(cpus.drop_last(), works.drop_last(), j);
        lemma_gained_prefix(cpus, works.drop_last(), j);
    }
}

/// The idle task never enters the run queue: along any trace that starts
/// from a well-formed CPU, every state is well formed and its queue lacks
/// the CPU's idle task.
pub proof fn lemma_idle_never_queued(cpus: Seq<CpuModel>, tables: Seq<Seq<Task>>, works: Seq<u64>)
    requires
        is_trace(cpus, tables, works),
        cpus[0].wf(tables[0]),
    ensures
        forall|i: int|
            0 <= i < cpus.len() ==> (#[trigger] cpus[i]).wf(tables[i]) && !cpus[i].runq.contains(
                cpus[i].idle_task,
            ),
    decreases works.len(),
{
    if works.len() > 0 {
        let n = works.len() - 1;
        lemma_trace_prefix(cpus, tables, works);
        lemma_idle_never_queued(cpus.drop_last(), tables.drop_last(), works.drop_last());
        assert(cpus.drop_last()[n] == cpus[n]);
        assert(CpuModel::dispatch_step(cpus[n], tables[n], cpus[n + 1], tables[n + 1], works[n]));
        CpuModel::lemma_step_keeps_wf(cpus[n], tables[n], cpus[n + 1], tables[n + 1], works[n]);
        assert forall|i: int| 0 <= i < cpus.len() implies (#[trigger] cpus[i]).wf(tables[i])
            && !cpus[i].runq.contains(cpus[i].idle_task) by {
            if i <= n {
                assert(cpus.drop_last()[i] == cpus[i]);
                assert(tables.drop_last()[i] == tables[i]);
            }
        }
    }
}

/// Assignment is never revisited: along any trace from a well-formed CPU the
/// tasks it holds (queued, or running other than the idle task) stay the
/// same, and it keeps its id and idle task.
pub proof fn lemma_members_kept(cpus: Seq<CpuModel>, tables: Seq<Seq<Task>>, works: Seq<u64>)
    requires
        is_trace(cpus, tables, works),
        cpus[0].wf(tables[0]),
    ensures
        cpus.last().requeued().to_multiset() == cpus[0].requeued().to_multiset(),
        cpus.last().id == cpus[0].id,
        cpus.last().idle_task == cpus[0].idle_task,
    decreases works.len(),
{
    if works.len() > 0 {
        let n = works.len() - 1;
        lemma_trace_prefix(cpus, tables, works);
        lemma_members_kept(cpus.drop_last(), tables.drop_last(), works.drop_last());
        lemma_idle_never_queued(cpus, tables, works);
        assert(cpus[n].wf(tables[n]));
        assert(CpuModel::dispatch_step(cpus[n], tables[n], cpus[n + 1], tables[n + 1], works[n]));
        CpuModel::lemma_step_keeps_members(cpus[n], tables[n], cpus[n + 1], tables[n + 1], works[n]);
    }
}

/// Static assignment: among the handles `first .. first + count`, CPU `c` of
/// `n` receives exactly those whose task id (`FIRST_TASK_ID` plus the offset
/// from `first`) is `c` modulo `n`.
pub proof fn lemma_static_assignment(first: nat, count: nat, n: nat, c: nat)
    requires
        n > 0,
        first + count <= usize::MAX,
    ensures
        forall|h: usize|
            #[trigger] assigned(first, count, n, c).contains(h) <==> first <= h < first + count && (
            FIRST_TASK_ID + (h - first)) % (n as int) == c,
    decreases count,
{
    if count > 0 {
        let k = (count - 1) as nat;
        lemma_static_assignment(first, k, n, c);
        let rest = assigned(first, k, n, c);
        assert forall|h: usize| #[trigger] assigned(first, count, n, c).contains(h) <==> first <= h
            < first + count && (FIRST_TASK_ID + (h - first)) % (n as int) == c by {
            if (FIRST_TASK_ID + k) % (n as int) == c {
                assert(assigned(first, count, n, c) == rest.push((first + k) as usize));
                if assigned(first, count, n, c).contains(h) && h != first + k {
                    let i = choose|i: int|
                        0 <= i < assigned(first, count, n, c).len()
                            && assigned(first, count, n, c)[i] == h;
                    assert(rest[i] == h);
                }
                if h != first + k && rest.contains(h) {
                    let i = choose|i: int| 0 <= i < rest.len() && rest[i] == h;
                    assert(assigned(first, count, n, c)[i] == h);
                }
                if h == first + k {
                    assert(assigned(first, count, n, c)[rest.len() as int] == h);
                }
            }
        }
    }
}

} // verus!
