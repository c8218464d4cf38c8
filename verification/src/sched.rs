//! The admission/eviction state machine of the scheduler.
//!
//! Each tick the scheduler reconciles the running set against the poll
//! results observed by the caller, derives a tri-state resource opinion
//! from fresh memory and load readings, and performs at most one
//! admission or one eviction. Load values are carried as thousandths of
//! one core, so that the thresholds of the rule table stay exact
//! integers; memory quantities are whole GiB.
use vstd::prelude::*;
use vstd::multiset::Multiset;
use vstd::seq_lib::group_to_multiset_ensures;
use vstd::multiset::group_multiset_axioms;
use crate::task::Task;

verus! {

/// The scheduler's per-tick resource-pressure verdict.
#[derive(Clone, Copy, Debug, PartialEq, Eq, Structural)]
pub enum CirnoOpinion {
    Health,
    Normal,
    Bad,
}

/// The opinion rule table, evaluated in order, first match wins.
pub open spec fn spec_opinion(
    running: int,
    max_workers: int,
    free_mem: int,
    reserved_mem: int,
    per_task_mem: int,
    load: int,
    load_max: int,
    load_min: int,
) -> CirnoOpinion {
    if running > max_workers {
        CirnoOpinion::Bad
    } else if free_mem < reserved_mem || load > load_max {
        CirnoOpinion::Bad
    } else if running == max_workers {
        CirnoOpinion::Normal
    } else if free_mem >= reserved_mem + per_task_mem && load <= load_min {
        CirnoOpinion::Health
    } else {
        CirnoOpinion::Normal
    }
}

/// What one poll of a running job's process observed.
#[derive(Clone, Copy, Debug, PartialEq, Eq, Structural)]
pub enum PollResult {
    Exited,
    Running,
    Failed,
}

pub open spec fn poll_exited(p: PollResult) -> bool {
    p is Exited
}

pub open spec fn poll_running(p: PollResult) -> bool {
    p is Running
}

pub open spec fn poll_failed(p: PollResult) -> bool {
    p is Failed
}

/// The tasks of `r` whose poll result satisfies `sel`, in order.
pub open spec fn filter_polled(
    r: Seq<Task>,
    p: Seq<PollResult>,
    sel: spec_fn(PollResult) -> bool,
) -> Seq<Task>
    decreases r.len(),
{
    if r.len() == 0 || p.len() == 0 {
        Seq::<Task>::empty()
    } else {
        (if sel(p.first()) {
            seq![r.first()]
        } else {
            Seq::<Task>::empty()
        }) + filter_polled(r.drop_first(), p.drop_first(), sel)
    }
}

proof fn lemma_filter_polled_push(
    r: Seq<Task>,
    p: Seq<PollResult>,
    sel: spec_fn(PollResult) -> bool,
    t: Task,
    q: PollResult,
)
    requires
        r.len() == p.len(),
    ensures
        filter_polled(r.push(t), p.push(q), sel) == filter_polled(r, p, sel) + (if sel(q) {
            seq![t]
        } else {
            Seq::<Task>::empty()
        }),
    decreases r.len(),
{
    let rp = r.push(t);
    let pp = p.push(q);
    if r.len() == 0 {
        assert(rp.drop_first() =~= Seq::<Task>::empty());
        assert(pp.drop_first() =~= Seq::<PollResult>::empty());
        assert(rp.first() == t && pp.first() == q);
        assert(filter_polled(rp.drop_first(), pp.drop_first(), sel) == Seq::<Task>::empty());
        assert(filter_polled(rp, pp, sel) =~= filter_polled(r, p, sel) + (if sel(q) {
            seq![t]
        } else {
            Seq::<Task>::empty()
        }));
    } else {
        assert(rp.drop_first() =~= r.drop_first().push(t));
        assert(pp.drop_first() =~= p.drop_first().push(q));
        lemma_filter_polled_push(r.drop_first(), p.drop_first(), sel, t, q);
        assert(rp.first() == r.first() && pp.first() == p.first());
        assert(filter_polled(rp.drop_first(), pp.drop_first(), sel) == filter_polled(
            r.drop_first(),
            p.drop_first(),
            sel,
        ) + (if sel(q) {
            seq![t]
        } else {
            Seq::<Task>::empty()
        }));
        assert(filter_polled(rp, pp, sel) =~= filter_polled(r, p, sel) + (if sel(q) {
            seq![t]
        } else {
            Seq::<Task>::empty()
        }));
    }
}

/// The scheduler: a LIFO todo stack of not-yet-run tasks, an ordered
/// list of in-flight tasks, and the admission limits.
pub struct Scheduler {
    pub todo_tasks: Vec<Task>,
    pub runing_tasks: Vec<Task>,
    pub max_workers: usize,
    pub sleep_duration: usize,
    pub reserved_mem: usize,
    pub per_task_mem: usize,
    pub timeout: usize,
    pub force_task: usize,
    pub load_max: u64,
    pub load_min: u64,
}

/// The configuration fields of two scheduler values agree.
pub open spec fn same_config(a: Scheduler, b: Scheduler) -> bool {
    &&& a.max_workers == b.max_workers
    &&& a.sleep_duration == b.sleep_duration
    &&& a.reserved_mem == b.reserved_mem
    &&& a.per_task_mem == b.per_task_mem
    &&& a.timeout == b.timeout
    &&& a.force_task == b.force_task
    &&& a.load_max == b.load_max
    &&& a.load_min == b.load_min
}

/// The opinion of a tick depends on nothing but the running count, the
/// configured limits and the fresh readings: two schedulers that agree
/// on those get the same verdict, whatever tasks their queues hold.
pub proof fn lemma_opinion_is_pure(a: Scheduler, b: Scheduler, free_mem: usize, load: u64)
    requires
        a.runing_tasks@.len() == b.runing_tasks@.len(),
        same_config(a, b),
    ensures
        spec_opinion(
            a.runing_tasks@.len() as int,
            a.max_workers as int,
            free_mem as int,
            a.reserved_mem as int,
            a.per_task_mem as int,
            load as int,
            a.load_max as int,
            a.load_min as int,
        ) == spec_opinion(
            b.runing_tasks@.len() as int,
            b.max_workers as int,
            free_mem as int,
            b.reserved_mem as int,
            b.per_task_mem as int,
            load as int,
            b.load_max as int,
            b.load_min as int,
        ),
{
}

/// What one tick decided, handed back to the caller so that it can
/// spawn, stop and report processes accordingly.
pub struct TickOutcome {
    /// Tasks whose process exited; they have left the scheduler.
    pub finished: Vec<Task>,
    /// Tasks whose poll failed; they are dropped, not requeued.
    pub failed: Vec<Task>,
    /// The verdict of this tick.
    pub opinion: CirnoOpinion,
    /// The task popped for admission, to be spawned by the caller; it
    /// rejoins the running set through `admitted` once its spawn
    /// succeeded, and is discarded on spawn failure.
    pub picked: Option<Task>,
    /// Whether the most recently started running task was pushed back
    /// onto the todo stack; the caller must stop its process.
    pub evicted: bool,
}

impl Scheduler {
    /// A scheduler with the default limits and empty queues.
    pub fn new(max_workers: usize) -> (s: Scheduler)
        ensures
            s.todo_tasks@.len() == 0,
            s.runing_tasks@.len() == 0,
            s.max_workers == max_workers,
            s.sleep_duration == 10usize,
            s.reserved_mem == 6usize,
            s.per_task_mem == 3usize,
            s.timeout == 7200usize,
            s.force_task == 1usize,
            s.load_max == 1000u64,
            s.load_min == 850u64,
    {
        Scheduler {
            todo_tasks: Vec::new(),
            runing_tasks: Vec::new(),
            max_workers,
            sleep_duration: 10,
            reserved_mem: 6,
            per_task_mem: 3,
            timeout: 7200,
            force_task: 1,
            load_max: 1000,
            load_min: 850,
        }
    }

    pub fn set_sleep_duration(&mut self, duration: usize)
        ensures
            *final(self) == (Scheduler { sleep_duration: duration, ..*old(self) }),
    {
        self.sleep_duration = duration;
    }

    pub fn set_reserved_mem(&mut self, mem: usize)
        ensures
            *final(self) == (Scheduler { reserved_mem: mem, ..*old(self) }),
    {
        self.reserved_mem = mem;
    }

    pub fn set_timeout(&mut self, timeout: usize)
        ensures
            *final(self) == (Scheduler { timeout: timeout, ..*old(self) }),
    {
        self.timeout = timeout;
    }

    pub fn set_per_task_mem(&mut self, mem: usize)
        ensures
            *final(self) == (Scheduler { per_task_mem: mem, ..*old(self) }),
    {
        self.per_task_mem = mem;
    }

    pub fn set_force_task(&mut self, force_task: usize)
        ensures
            *final(self) == (Scheduler { force_task: force_task, ..*old(self) }),
    {
        self.force_task = force_task;
    }

    /// Sets the load ceiling, in thousandths of one core.
    pub fn set_load_max(&mut self, load_max: u64)
        ensures
            *final(self) == (Scheduler { load_max: load_max, ..*old(self) }),
    {
        self.load_max = load_max;
    }

    /// Sets the load floor for admission, in thousandths of one core.
    pub fn set_load_min(&mut self, load_min: u64)
        ensures
            *final(self) == (Scheduler { load_min: load_min, ..*old(self) }),
    {
        self.load_min = load_min;
    }

    /// Pushes a task onto the todo stack; the most recently submitted
    /// task is admitted first.
    pub fn submit(&mut self, task: Task)
        ensures
            final(self).todo_tasks@ == old(self).todo_tasks@.push(task),
            final(self).runing_tasks@ == old(self).runing_tasks@,
            same_config(*old(self), *final(self)),
    {
        self.todo_tasks.push(task);
    }

    /// True when both queues are empty: the loop's termination condition.
    pub fn done(&self) -> (r: bool)
        ensures
            r == (self.todo_tasks@.len() + self.runing_tasks@.len() == 0),
    {
        self.todo_tasks.len() == 0 && self.runing_tasks.len() == 0
    }

    /// Derives the opinion for this tick from the current running count
    /// and fresh readings: free memory in GiB and normalized load in
    /// thousandths of one core.
    pub fn cirno_check(&self, free_mem: usize, load: u64) -> (o: CirnoOpinion)
        ensures
            o == spec_opinion(
                self.runing_tasks@.len() as int,
                self.max_workers as int,
                free_mem as int,
                self.reserved_mem as int,
                self.per_task_mem as int,
                load as int,
                self.load_max as int,
                self.load_min as int,
            ),
    {
        let runing_amount = self.runing_tasks.len();
        if runing_amount > self.max_workers {
            return CirnoOpinion::Bad;
        }
        if free_mem < self.reserved_mem || load > self.load_max {
            return CirnoOpinion::Bad;
        }
        if runing_amount == self.max_workers {
            return CirnoOpinion::Normal;
        }
        if free_mem - self.reserved_mem >= self.per_task_mem && load <= self.load_min {
            return CirnoOpinion::Health;
        }
        CirnoOpinion::Normal
    }

    /// One scheduler tick over the events the caller observed.
    ///
    /// First every running task is reconciled against its poll result,
    /// in order: exited tasks are handed back in `finished`, failed
    /// polls in `failed`, and only still-running tasks stay. Then the
    /// opinion is derived from the fresh readings. On `Health` the most
    /// recently pushed todo task, if any, is popped for admission; on
    /// `Bad` the most recently started running task is evicted back
    /// onto the todo stack, but never below the `force_task` floor; on
    /// `Normal` nothing moves. At most one admission or one eviction
    /// happens per tick, and every task of the old queues is accounted
    /// for exactly once.
    #[verifier::loop_isolation(false)]
    pub fn tick(&mut self, polls: &Vec<PollResult>, free_mem: usize, load: u64) -> (out:
        TickOutcome)
        requires
            polls@.len() == old(self).runing_tasks@.len(),
        ensures
            same_config(*old(self), *final(self)),
            out.finished@ == filter_polled(
                old(self).runing_tasks@,
                polls@,
                |x: PollResult| poll_exited(x),
            ),
            out.failed@ == filter_polled(
                old(self).runing_tasks@,
                polls@,
                |x: PollResult| poll_failed(x),
            ),
            ({
                let kept = filter_polled(
                    old(self).runing_tasks@,
                    polls@,
                    |x: PollResult| poll_running(x),
                );
                let ot = old(self).todo_tasks@;
                &&& out.opinion == spec_opinion(
                    kept.len() as int,
                    old(self).max_workers as int,
                    free_mem as int,
                    old(self).reserved_mem as int,
                    old(self).per_task_mem as int,
                    load as int,
                    old(self).load_max as int,
                    old(self).load_min as int,
                )
                &&& (out.opinion is Health && ot.len() > 0 ==> out.picked == Some(ot.last())
                    && final(self).todo_tasks@ == ot.drop_last() && final(self).runing_tasks@
                    == kept && !out.evicted)
                &&& (out.opinion is Health && ot.len() == 0 ==> out.picked is None && final(self).todo_tasks@ == ot && final(self).runing_tasks@ == kept && !out.evicted)
                &&& (out.opinion is Normal ==> out.picked is None && !out.evicted && final(self).todo_tasks@ == ot && final(self).runing_tasks@ == kept)
                &&& (out.opinion is Bad && kept.len() > old(self).force_task ==> out.picked is None
                    && out.evicted && final(self).runing_tasks@ == kept.drop_last() && final(self).todo_tasks@ == ot.push(kept.last()))
                &&& (out.opinion is Bad && kept.len() <= old(self).force_task ==> out.picked is None
                    && !out.evicted && final(self).runing_tasks@ == kept && final(self).todo_tasks@
                    == ot)
            }),
            old(self).runing_tasks@.to_multiset().add(old(self).todo_tasks@.to_multiset()) == final(self).runing_tasks@.to_multiset().add(final(self).todo_tasks@.to_multiset()).add(
                out.finished@.to_multiset(),
            ).add(out.failed@.to_multiset()).add(
                match out.picked {
                    Some(t) => Multiset::singleton(t),
                    None => Multiset::empty(),
                },
            ),
    {
        broadcast use group_to_multiset_ensures;
        broadcast use group_multiset_axioms;

        let ghost or = self.runing_tasks@;
        let ghost ot = self.todo_tasks@;
        let ghost run_sel = |x: PollResult| poll_running(x);
        let ghost exit_sel = |x: PollResult| poll_exited(x);
        let ghost fail_sel = |x: PollResult| poll_failed(x);
        let total: usize = polls.len();
        let mut pending: Vec<Task> = Vec::new();
        core::mem::swap(&mut self.runing_tasks, &mut pending);
        let mut finished: Vec<Task> = Vec::new();
        let mut failed: Vec<Task> = Vec::new();
        let mut i: usize = 0;
        proof {
            assert(or.skip(0) =~= or);
            assert(or.take(0) =~= Seq::<Task>::empty());
            assert(polls@.take(0) =~= Seq::<PollResult>::empty());
        }
        while pending.len() > 0
            invariant
                or == old(self).runing_tasks@,
                ot == old(self).todo_tasks@,
                polls@.len() == or.len(),
                run_sel == (|x: PollResult| poll_running(x)),
                exit_sel == (|x: PollResult| poll_exited(x)),
                fail_sel == (|x: PollResult| poll_failed(x)),
                total == or.len(),
                0 <= i <= or.len(),
                i + pending@.len() == or.len(),
                pending@ == or.skip(i as int),
                self.runing_tasks@ == filter_polled(or.take(i as int), polls@.take(i as int), run_sel),
                finished@ == filter_polled(or.take(i as int), polls@.take(i as int), exit_sel),
                failed@ == filter_polled(or.take(i as int), polls@.take(i as int), fail_sel),
                or.take(i as int).to_multiset() == self.runing_tasks@.to_multiset().add(
                    finished@.to_multiset(),
                ).add(failed@.to_multiset()),
                self.todo_tasks@ == ot,
                same_config(*old(self), *self),
            decreases pending@.len(),
        {
            let t = pending.remove(0);
            proof {
                assert(or.skip(i as int)[0] == or[i as int]);
                assert(or.skip(i as int).drop_first() =~= or.skip(i + 1));
                assert(pending@ == or.skip(i as int).remove(0));
                assert(or.skip(i as int).remove(0) =~= or.skip(i as int).drop_first());
                assert(or.take(i + 1) =~= or.take(i as int).push(or[i as int]));
                assert(polls@.take(i + 1) =~= polls@.take(i as int).push(polls@[i as int]));
                lemma_filter_polled_push(
                    or.take(i as int),
                    polls@.take(i as int),
                    run_sel,
                    or[i as int],
                    polls@[i as int],
                );
                lemma_filter_polled_push(
                    or.take(i as int),
                    polls@.take(i as int),
                    exit_sel,
                    or[i as int],
                    polls@[i as int],
                );
                lemma_filter_polled_push(
                    or.take(i as int),
                    polls@.take(i as int),
                    fail_sel,
                    or[i as int],
                    polls@[i as int],
                );
            }
            let ghost pre_run = self.runing_tasks@;
            let ghost pre_fin = finished@;
            let ghost pre_fail = failed@;
            match polls[i] {
                PollResult::Running => {
                    self.runing_tasks.push(t);
                    proof {
                        assert(self.runing_tasks@ == pre_run.push(or[i as int]));
                        assert(or.take(i as int).push(or[i as int]).to_multiset() == or.take(
                            i as int,
                        ).to_multiset().insert(or[i as int]));
                        assert(pre_run.push(or[i as int]).to_multiset() == pre_run.to_multiset()
                            .insert(or[i as int]));
                        assert(or.take(i + 1).to_multiset() =~= self.runing_tasks@.to_multiset()
                            .add(pre_fin.to_multiset()).add(pre_fail.to_multiset()));
                    }
                },
                PollResult::Exited => {
                    finished.push(t);
                    proof {
                        assert(finished@ == pre_fin.push(or[i as int]));
                        assert(or.take(i as int).push(or[i as int]).to_multiset() == or.take(
                            i as int,
                        ).to_multiset().insert(or[i as int]));
                        assert(pre_fin.push(or[i as int]).to_multiset() == pre_fin.to_multiset()
                            .insert(or[i as int]));
                        assert(or.take(i + 1).to_multiset() =~= pre_run.to_multiset().add(
                            finished@.to_multiset(),
                        ).add(pre_fail.to_multiset()));
                    }
                },
                PollResult::Failed => {
                    failed.push(t);
                    proof {
                        assert(failed@ == pre_fail.push(or[i as int]));
                        assert(or.take(i as int).push(or[i as int]).to_multiset() == or.take(
                            i as int,
                        ).to_multiset().insert(or[i as int]));
                        assert(pre_fail.push(or[i as int]).to_multiset() == pre_fail.to_multiset()
                            .insert(or[i as int]));
                        assert(or.take(i + 1).to_multiset() =~= pre_run.to_multiset().add(
                            pre_fin.to_multiset(),
                        ).add(failed@.to_multiset()));
                    }
                },
            }
            i = i + 1;
        }
        proof {
            assert(or.take(or.len() as int) =~= or);
            assert(polls@.take(or.len() as int) =~= polls@);
        }
        let ghost kept = self.runing_tasks@;
        let opinion = self.cirno_check(free_mem, load);
        let mut picked: Option<Task> = None;
        let mut evicted = false;
        match opinion {
            CirnoOpinion::Health => {
                if self.todo_tasks.len() > 0 {
                    let t = self.todo_tasks.pop().unwrap();
                    proof {
                        assert(ot.drop_last() =~= ot.subrange(0, ot.len() - 1));
                        assert(ot =~= ot.drop_last().push(ot.last()));
                    }
                    picked = Some(t);
                }
            },
            CirnoOpinion::Normal => {},
            CirnoOpinion::Bad => {
                if self.runing_tasks.len() > self.force_task {
                    let t = self.runing_tasks.pop().unwrap();
                    self.todo_tasks.push(t);
                    proof {
                        assert(kept.drop_last() =~= kept.subrange(0, kept.len() - 1));
                        assert(kept =~= kept.drop_last().push(kept.last()));
                    }
                    evicted = true;
                }
            },
        }
        let out = TickOutcome { finished, failed, opinion, picked, evicted };
        proof {
            assert(or.to_multiset().add(ot.to_multiset()) =~= final(self).runing_tasks@.to_multiset()
                .add(final(self).todo_tasks@.to_multiset()).add(out.finished@.to_multiset()).add(
                out.failed@.to_multiset(),
            ).add(
                match out.picked {
                    Some(t) => Multiset::singleton(t),
                    None => Multiset::empty(),
                },
            ));
        }
        out
    }

    /// Moves a task whose spawn succeeded into the running set; it
    /// becomes the most recently started task, the first to be evicted.
    pub fn admitted(&mut self, t: Task)
        ensures
            final(self).runing_tasks@ == old(self).runing_tasks@.push(t),
            final(self).todo_tasks@ == old(self).todo_tasks@,
            same_config(*old(self), *final(self)),
    {
        self.runing_tasks.push(t);
    }
}

} // verus!
