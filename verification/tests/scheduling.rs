use cirno_rs::sched::CirnoOpinion;
use cirno_rs::sched::PollResult;
use cirno_rs::sched::Scheduler;
use cirno_rs::task::Task;

fn job(name: &str, cmd: &str) -> Task {
    Task::new(name, cmd)
}

#[test]
fn opinion_health_when_idle_and_ample() {
    let s = Scheduler::new(2);
    assert_eq!(s.cirno_check(20, 100), CirnoOpinion::Health);
}

#[test]
fn opinion_bad_when_over_limit() {
    let mut s = Scheduler::new(1);
    s.admitted(job("a", "sleep 1"));
    s.admitted(job("b", "sleep 1"));
    assert_eq!(s.cirno_check(20, 100), CirnoOpinion::Bad);
}

#[test]
fn opinion_bad_on_low_memory() {
    let s = Scheduler::new(2);
    assert_eq!(s.cirno_check(5, 100), CirnoOpinion::Bad);
}

#[test]
fn opinion_bad_on_high_load() {
    let s = Scheduler::new(2);
    assert_eq!(s.cirno_check(20, 1500), CirnoOpinion::Bad);
}

#[test]
fn opinion_normal_when_full() {
    let mut s = Scheduler::new(1);
    s.admitted(job("a", "sleep 1"));
    assert_eq!(s.cirno_check(20, 100), CirnoOpinion::Normal);
}

#[test]
fn opinion_normal_when_memory_headroom_too_small() {
    let s = Scheduler::new(2);
    // 7 GiB free is above the 6 GiB floor but below floor + per-task cost.
    assert_eq!(s.cirno_check(7, 100), CirnoOpinion::Normal);
}

#[test]
fn opinion_normal_when_load_between_thresholds() {
    let s = Scheduler::new(2);
    assert_eq!(s.cirno_check(20, 900), CirnoOpinion::Normal);
}

#[test]
fn defaults_and_setters() {
    let mut s = Scheduler::new(4);
    assert_eq!(s.max_workers, 4);
    assert_eq!(s.sleep_duration, 10);
    assert_eq!(s.reserved_mem, 6);
    assert_eq!(s.per_task_mem, 3);
    assert_eq!(s.timeout, 7200);
    assert_eq!(s.force_task, 1);
    assert_eq!(s.load_max, 1000);
    assert_eq!(s.load_min, 850);
    s.set_sleep_duration(1);
    s.set_reserved_mem(2);
    s.set_per_task_mem(1);
    s.set_timeout(60);
    s.set_force_task(0);
    s.set_load_max(2000);
    s.set_load_min(1700);
    assert_eq!(s.sleep_duration, 1);
    assert_eq!(s.reserved_mem, 2);
    assert_eq!(s.per_task_mem, 1);
    assert_eq!(s.timeout, 60);
    assert_eq!(s.force_task, 0);
    assert_eq!(s.load_max, 2000);
    assert_eq!(s.load_min, 1700);
}

#[test]
fn two_jobs_admitted_lifo() {
    let mut s = Scheduler::new(2);
    s.submit(job("jobA", "sleep 30"));
    s.submit(job("jobB", "sleep 5"));
    assert!(!s.done());

    let out = s.tick(&Vec::new(), 20, 100);
    assert_eq!(out.opinion, CirnoOpinion::Health);
    let first = out.picked.unwrap();
    assert_eq!(first.name, "jobB");
    assert!(!out.evicted);
    s.admitted(first);

    let out = s.tick(&vec![PollResult::Running], 20, 100);
    assert_eq!(out.opinion, CirnoOpinion::Health);
    let second = out.picked.unwrap();
    assert_eq!(second.name, "jobA");
    s.admitted(second);

    let out = s.tick(&vec![PollResult::Running, PollResult::Running], 20, 100);
    assert_eq!(out.opinion, CirnoOpinion::Normal);
    assert!(out.picked.is_none());

    let out = s.tick(&vec![PollResult::Exited, PollResult::Exited], 20, 100);
    assert_eq!(out.finished.len(), 2);
    assert!(s.done());
}

#[test]
fn single_worker_queues_second_job() {
    let mut s = Scheduler::new(1);
    s.submit(job("jobA", "sleep 30"));
    s.submit(job("jobB", "sleep 5"));

    let out = s.tick(&Vec::new(), 20, 100);
    let first = out.picked.unwrap();
    assert_eq!(first.name, "jobB");
    s.admitted(first);

    // The worker slot is full: the second job waits.
    let out = s.tick(&vec![PollResult::Running], 20, 100);
    assert_eq!(out.opinion, CirnoOpinion::Normal);
    assert!(out.picked.is_none());
    assert_eq!(s.todo_tasks.len(), 1);

    // Once the first job exits, the second is admitted.
    let out = s.tick(&vec![PollResult::Exited], 20, 100);
    assert_eq!(out.finished.len(), 1);
    assert_eq!(out.finished[0].name, "jobB");
    let second = out.picked.unwrap();
    assert_eq!(second.name, "jobA");
    s.admitted(second);
    assert!(!s.done());
}

#[test]
fn low_memory_evicts_running_job() {
    let mut s = Scheduler::new(2);
    s.set_force_task(0);
    s.admitted(job("jobA", "sleep 30"));

    let out = s.tick(&vec![PollResult::Running], 1, 100);
    assert_eq!(out.opinion, CirnoOpinion::Bad);
    assert!(out.evicted);
    assert!(out.picked.is_none());
    assert_eq!(s.runing_tasks.len(), 0);
    assert_eq!(s.todo_tasks.len(), 1);
    assert_eq!(s.todo_tasks[0].name, "jobA");
}

#[test]
fn force_floor_blocks_eviction() {
    let mut s = Scheduler::new(2);
    assert_eq!(s.force_task, 1);
    s.admitted(job("jobA", "sleep 30"));

    let out = s.tick(&vec![PollResult::Running], 1, 100);
    assert_eq!(out.opinion, CirnoOpinion::Bad);
    assert!(!out.evicted);
    assert_eq!(s.runing_tasks.len(), 1);
    assert_eq!(s.todo_tasks.len(), 0);
}

#[test]
fn spawn_failure_drops_job() {
    let mut s = Scheduler::new(2);
    s.submit(job("ghost", "no-such-program x"));
    let out = s.tick(&Vec::new(), 20, 100);
    let t = out.picked.unwrap();
    assert_eq!(t.name, "ghost");
    // The spawn failed: the task is discarded instead of joining the
    // running set, so the scheduler is finished with it.
    drop(t);
    assert_eq!(s.runing_tasks.len(), 0);
    assert!(s.done());
}

#[test]
fn every_job_lands_in_one_bucket() {
    let mut s = Scheduler::new(3);
    s.admitted(job("a", "p 1"));
    s.admitted(job("b", "p 2"));
    s.admitted(job("c", "p 3"));
    let polls = vec![PollResult::Exited, PollResult::Running, PollResult::Failed];
    let out = s.tick(&polls, 1, 100);
    assert_eq!(out.finished.len(), 1);
    assert_eq!(out.finished[0].name, "a");
    assert_eq!(out.failed.len(), 1);
    assert_eq!(out.failed[0].name, "c");
    assert_eq!(s.runing_tasks.len(), 1);
    assert_eq!(s.runing_tasks[0].name, "b");
    assert_eq!(s.todo_tasks.len(), 0);
}

#[test]
fn evicted_job_returns_before_older_work() {
    let mut s = Scheduler::new(1);
    s.set_force_task(0);
    s.submit(job("old", "p 1"));
    s.admitted(job("young", "p 2"));

    // Pressure evicts the running job onto the top of the stack.
    let out = s.tick(&vec![PollResult::Running], 1, 100);
    assert!(out.evicted);
    assert_eq!(s.todo_tasks.len(), 2);
    assert_eq!(s.todo_tasks[1].name, "young");

    // When pressure clears, the evicted job is re-admitted first.
    let out = s.tick(&Vec::new(), 20, 100);
    assert_eq!(out.picked.unwrap().name, "young");
}
