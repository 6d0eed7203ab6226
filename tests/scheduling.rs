use sched_sim::cpu::Cpu;
use sched_sim::scheduler::{Scheduler, FIRST_TASK_ID, TICKS};
use sched_sim::task::{Task, TaskState, Workload, IDLE_WORK, WORK_LIMIT};

fn queue(cpu: &Cpu) -> Vec<usize> {
    cpu.runq.iter().copied().collect()
}

fn user_table(n: u64) -> Vec<Task> {
    (0..n).map(|k| Task::new(FIRST_TASK_ID + k, Workload::RandomUser)).collect()
}

#[test]
fn new_task_is_runnable_with_no_runtime() {
    let t = Task::new(7, Workload::RandomUser);
    assert_eq!(t.id, 7);
    assert_eq!(t.state, TaskState::Runnable);
    assert_eq!(t.total_runtime, 0);
    assert_eq!(t.workload, Workload::RandomUser);
}

#[test]
fn workload_names() {
    assert_eq!(Workload::Idle.name(), "idle");
    assert_eq!(Workload::RandomUser.name(), "randomuser");
}

#[test]
fn idle_work_is_one() {
    for _ in 0..10 {
        assert_eq!(Workload::Idle.do_work(), 1);
    }
}

#[test]
fn user_work_is_drawn_from_one_to_limit() {
    let draws: Vec<u64> = (0..500).map(|_| Workload::RandomUser.do_work()).collect();
    assert!(draws.iter().all(|&q| 1 <= q && q < WORK_LIMIT));
    assert!(draws.iter().any(|&q| q != 1));
    assert!(draws.iter().any(|&q| q != draws[0]));
}

#[test]
fn run_adds_work_to_runtime() {
    let mut t = Task::new(3, Workload::Idle);
    let out = t.run();
    assert_eq!(out.clock_consumed, 1);
    assert_eq!(out.next_state, TaskState::Runnable);
    assert_eq!(t.total_runtime, 1);
    let mut u = Task::new(4, Workload::RandomUser);
    let a = u.run();
    let b = u.run();
    assert_eq!(u.total_runtime, a.clock_consumed + b.clock_consumed);
    assert_eq!(u.id, 4);
}

#[test]
fn new_cpu_runs_its_idle_task() {
    let mut tasks = user_table(2);
    let cpu = Cpu::new(5, &mut tasks);
    assert_eq!(cpu.id, 5);
    assert_eq!(cpu.clock, 0);
    assert!(cpu.runq.is_empty());
    assert_eq!(cpu.idle_task, 2);
    assert_eq!(cpu.running_task, 2);
    assert_eq!(tasks.len(), 3);
    assert_eq!(tasks[2].id, 0);
    assert_eq!(tasks[2].workload, Workload::Idle);
}

#[test]
fn add_task_appends_to_tail() {
    let mut tasks = user_table(3);
    let mut cpu = Cpu::new(0, &mut tasks);
    cpu.add_task(2);
    cpu.add_task(0);
    cpu.add_task(1);
    assert_eq!(queue(&cpu), vec![2, 0, 1]);
}

#[test]
fn fifo_fairness_rotates_the_queue() {
    let mut tasks = user_table(4);
    let mut cpu = Cpu::new(0, &mut tasks);
    for h in 0..4 {
        cpu.add_task(h);
    }
    let d = cpu.next_task(&mut tasks);
    assert_eq!(cpu.running_task, 0);
    assert_eq!(d.task_id, 1000);
    assert_eq!(queue(&cpu), vec![1, 2, 3]);
    // runner 0, queue [1, 2, 3]: the head runs, the runner goes to the tail
    cpu.next_task(&mut tasks);
    assert_eq!(cpu.running_task, 1);
    assert_eq!(queue(&cpu), vec![2, 3, 0]);
    cpu.next_task(&mut tasks);
    assert_eq!(cpu.running_task, 2);
    assert_eq!(queue(&cpu), vec![3, 0, 1]);
    for h in 0..4 {
        assert_eq!(tasks[h].state, TaskState::Runnable);
    }
}

#[test]
fn lone_task_runs_again() {
    let mut tasks = user_table(1);
    let mut cpu = Cpu::new(0, &mut tasks);
    cpu.add_task(0);
    cpu.next_task(&mut tasks);
    let d = cpu.next_task(&mut tasks);
    assert_eq!(cpu.running_task, 0);
    assert!(cpu.runq.is_empty());
    assert_eq!(d.task_id, 1000);
}

#[test]
fn idle_fallback_advances_clock_by_one() {
    let mut tasks = Vec::new();
    let mut cpu = Cpu::new(3, &mut tasks);
    for step in 1..=5u64 {
        let d = cpu.next_task(&mut tasks);
        assert_eq!(cpu.running_task, cpu.idle_task);
        assert!(cpu.runq.is_empty());
        assert_eq!(d.work, IDLE_WORK);
        assert_eq!(d.workload, Workload::Idle);
        assert_eq!(d.cpu_id, 3);
        assert_eq!(cpu.clock, step);
        assert_eq!(tasks[cpu.idle_task].total_runtime, step);
    }
}

#[test]
fn runtime_grows_by_the_work_of_each_dispatch() {
    let mut tasks = user_table(3);
    let mut cpu = Cpu::new(0, &mut tasks);
    for h in 0..3 {
        cpu.add_task(h);
    }
    for _ in 0..30 {
        let before: Vec<u64> = tasks.iter().map(|t| t.total_runtime).collect();
        let d = cpu.next_task(&mut tasks);
        let r = cpu.running_task;
        assert_eq!(d.prior_runtime, before[r]);
        assert_eq!(tasks[r].total_runtime, before[r] + d.work);
        for (h, t) in tasks.iter().enumerate() {
            assert!(t.total_runtime >= before[h]);
            if h != r {
                assert_eq!(t.total_runtime, before[h]);
            }
        }
    }
}

#[test]
fn clock_is_the_sum_of_dispatched_work() {
    let mut tasks = user_table(2);
    let mut cpu = Cpu::new(0, &mut tasks);
    cpu.add_task(0);
    cpu.add_task(1);
    let mut sum = 0;
    for _ in 0..25 {
        sum += cpu.next_task(&mut tasks).work;
        assert_eq!(cpu.clock, sum);
    }
}

#[test]
fn tasks_are_assigned_by_id_modulo_cpu_count() {
    let mut s = Scheduler::new();
    s.add_cpus(8);
    s.add_tasks(64);
    assert_eq!(s.cpus.len(), 8);
    assert_eq!(s.tasks.len(), 8 + 64);
    for (i, cpu) in s.cpus.iter().enumerate() {
        assert_eq!(cpu.id, i);
        let ids: Vec<u64> = cpu.runq.iter().map(|&h| s.tasks[h].id).collect();
        let expected: Vec<u64> = (1000..1064u64).filter(|id| id % 8 == i as u64).collect();
        assert_eq!(ids, expected);
    }
    for t in &s.tasks[8..] {
        assert_eq!(t.workload, Workload::RandomUser);
        assert_eq!(t.state, TaskState::Runnable);
    }
}

#[test]
fn assignment_survives_the_run() {
    let mut s = Scheduler::new();
    s.add_cpus(3);
    s.add_tasks(10);
    let held = |s: &Scheduler| -> Vec<Vec<usize>> {
        s.cpus
            .iter()
            .map(|c| {
                let mut v = queue(c);
                if c.running_task != c.idle_task {
                    v.push(c.running_task);
                }
                v.sort();
                v
            })
            .collect()
    };
    let before = held(&s);
    s.run_forever();
    assert_eq!(held(&s), before);
}

#[test]
fn idle_task_never_enters_a_queue() {
    let mut s = Scheduler::new();
    s.add_cpus(4);
    s.add_tasks(6);
    for _ in 0..50 {
        for i in 0..4 {
            s.cpus[i].next_task(&mut s.tasks);
            for c in &s.cpus {
                assert!(!c.runq.contains(&c.idle_task));
            }
        }
    }
}

#[test]
fn two_cpus_two_tasks() {
    let mut s = Scheduler::new();
    s.add_cpus(2);
    s.add_tasks(2);
    let ids = |s: &Scheduler, i: usize| -> Vec<u64> {
        s.cpus[i].runq.iter().map(|&h| s.tasks[h].id).collect()
    };
    assert_eq!(ids(&s, 0), vec![1000]);
    assert_eq!(ids(&s, 1), vec![1001]);
    let h = s.cpus[0].runq[0];

    let d1 = s.cpus[0].next_task(&mut s.tasks);
    assert_eq!(s.cpus[0].running_task, h);
    assert_eq!(s.tasks[h].id, 1000);
    assert!(s.cpus[0].runq.is_empty());
    assert_eq!(s.cpus[0].clock, d1.work);
    assert_eq!(s.tasks[h].total_runtime, d1.work);
    assert!(1 <= d1.work && d1.work < 1000);

    // 1000 rejoins the queue before the pop, so it is selected again
    let d2 = s.cpus[0].next_task(&mut s.tasks);
    assert_eq!(d2.task_id, 1000);
    assert_eq!(s.cpus[0].running_task, h);
    assert!(s.cpus[0].runq.is_empty());
    assert_eq!(s.cpus[0].clock, d1.work + d2.work);
    assert_eq!(s.tasks[h].total_runtime, d1.work + d2.work);
    assert_eq!(ids(&s, 1), vec![1001]);
    assert_eq!(s.cpus[1].clock, 0);
}

#[test]
fn run_forever_steps_cpus_in_turn() {
    let mut s = Scheduler::new();
    s.add_cpus(8);
    s.add_tasks(64);
    let log = s.run_forever();
    assert_eq!(log.len(), TICKS);
    for (t, d) in log.iter().enumerate() {
        assert_eq!(d.cpu_id, t % 8);
    }
    for (i, cpu) in s.cpus.iter().enumerate() {
        let sum: u64 = log.iter().enumerate().filter(|(t, _)| t % 8 == i).map(|(_, d)| d.work).sum();
        assert_eq!(cpu.clock, sum);
        assert_eq!(tasks_idle_runtime(&s, i), 0);
    }
}

fn tasks_idle_runtime(s: &Scheduler, i: usize) -> u64 {
    s.tasks[s.cpus[i].idle_task].total_runtime
}

#[test]
fn run_forever_with_uneven_cpu_count_stops() {
    let mut s = Scheduler::new();
    s.add_cpus(3);
    s.add_tasks(1);
    let log = s.run_forever();
    assert_eq!(log.len(), TICKS);
    // CPUs 0 and 2 have nothing to run: every one of their ticks is idle
    assert_eq!(s.cpus[0].clock, 334);
    assert_eq!(s.cpus[2].clock, 333);
    assert_eq!(tasks_idle_runtime(&s, 0), 334);
    assert_eq!(tasks_idle_runtime(&s, 1), 0);
}

#[test]
fn run_forever_without_cpus_does_nothing() {
    let mut s = Scheduler::new();
    assert!(s.run_forever().is_empty());
}

#[test]
fn run_forever_two_cpus_one_task() {
    let mut s = Scheduler::new();
    s.add_cpus(2);
    s.add_tasks(1);
    s.run_forever();
    let c1 = &s.cpus[1];
    assert!(c1.runq.is_empty());
    assert_eq!(c1.running_task, c1.idle_task);
    assert_eq!(c1.clock, 500);
    assert_eq!(tasks_idle_runtime(&s, 1), 500);
    let c0 = &s.cpus[0];
    assert_eq!(s.tasks[c0.running_task].id, 1000);
    assert!(c0.runq.is_empty());
    assert_eq!(tasks_idle_runtime(&s, 0), 0);
    assert_eq!(c0.clock, s.tasks[c0.running_task].total_runtime);
    for t in &s.tasks {
        assert_eq!(t.state, TaskState::Runnable);
    }
}

#[test]
fn run_forever_final_queues_for_eight_cpus() {
    let mut s = Scheduler::new();
    s.add_cpus(8);
    s.add_tasks(64);
    s.run_forever();
    for c in 0..8u64 {
        let cpu = &s.cpus[c as usize];
        assert_eq!(s.tasks[cpu.running_task].id, 1032 + c);
        let ids: Vec<u64> = cpu.runq.iter().map(|&h| s.tasks[h].id).collect();
        let expected: Vec<u64> = [40, 48, 56, 0, 8, 16, 24].iter().map(|k| 1000 + k + c).collect();
        assert_eq!(ids, expected);
        assert_eq!(tasks_idle_runtime(&s, c as usize), 0);
        let mut held: u64 = ids.iter().map(|&id| s.tasks.iter().find(|t| t.id == id).unwrap().total_runtime).sum();
        held += s.tasks[cpu.running_task].total_runtime;
        assert_eq!(cpu.clock, held);
    }
}
