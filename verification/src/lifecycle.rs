//! The escalation tables of the task lifecycle.
//!
//! Stopping a task and nudging one past its soft timeout are bounded
//! retry protocols: the caller polls the process, performs the signal,
//! sleep or kill that the table dictates, and polls again. The tables
//! decide; the caller acts.
use vstd::prelude::*;
use crate::sched::PollResult;

verus! {

/// How many failed polls a graceful stop retries before force-killing
/// the whole process tree.
pub const STOP_RETRIES: u64 = 3;

/// How many failed polls a soft-timeout nudge retries before giving up
/// for this tick.
pub const TIMEOUT_RETRIES: u64 = 9;

/// The next move of an escalating stop.
#[derive(Clone, Copy, Debug, PartialEq, Eq, Structural)]
pub enum StopStep {
    /// The process has exited: report its status.
    Done,
    /// The poll itself failed: the stop fails with that error.
    Fatal,
    /// Send the graceful terminate signal, back off briefly, poll again.
    TermAndWait,
    /// Retries are exhausted: send the terminate signal once more, then
    /// kill the whole process tree and reap.
    ForceKill,
}

/// The stop table: the process's exit ends the stop, a poll error
/// aborts it, and a still-running process is asked to terminate again
/// until the retries run out, after which it is asked one final time
/// and the whole tree is killed.
pub open spec fn spec_stop_step(polls_done: int, poll: PollResult) -> StopStep {
    match poll {
        PollResult::Exited => StopStep::Done,
        PollResult::Failed => StopStep::Fatal,
        PollResult::Running => if polls_done < STOP_RETRIES as int {
            StopStep::TermAndWait
        } else {
            StopStep::ForceKill
        },
    }
}

/// Decides the next move of a stop after its `polls_done`-th poll of a
/// still-unreaped process came back with `poll`.
pub fn stop_decide(polls_done: u64, poll: PollResult) -> (s: StopStep)
    ensures
        s == spec_stop_step(polls_done as int, poll),
{
    match poll {
        PollResult::Exited => StopStep::Done,
        PollResult::Failed => StopStep::Fatal,
        PollResult::Running => {
            if polls_done < STOP_RETRIES {
                StopStep::TermAndWait
            } else {
                StopStep::ForceKill
            }
        },
    }
}

/// A stop never waits forever: once the retries are spent, a running
/// process gets one last terminate signal and is force-killed, so a
/// stop makes at most `STOP_RETRIES` graceful rounds before escalating.
pub proof fn lemma_stop_bounded(polls_done: int, poll: PollResult)
    ensures
        spec_stop_step(polls_done, poll) == StopStep::TermAndWait ==> polls_done
            < STOP_RETRIES as int,
        polls_done >= STOP_RETRIES as int && poll is Running ==> spec_stop_step(polls_done, poll)
            == StopStep::ForceKill,
{
}

/// The next move of a soft-timeout check.
#[derive(Clone, Copy, Debug, PartialEq, Eq, Structural)]
pub enum WaitStep {
    /// The process has exited: report its status.
    Done,
    /// The poll itself failed: the check fails with that error.
    Fatal,
    /// Within its time budget, or no budget set: report still running.
    Keep,
    /// Over budget: send the timeout signal, back off briefly, poll again.
    AlarmAndWait,
    /// Over budget and retries exhausted: send the timeout signal once
    /// more and report still running; this nudge is best effort only.
    GiveUp,
}

/// The soft-timeout table. A timeout of zero disables the check. The
/// check escalates only when the task has run strictly longer than its
/// budget, and even then it never guarantees termination: after the
/// retries it reports the task as still running.
pub open spec fn spec_wait_step(
    timeout: int,
    elapsed: int,
    over_polls: int,
    poll: PollResult,
) -> WaitStep {
    match poll {
        PollResult::Exited => WaitStep::Done,
        PollResult::Failed => WaitStep::Fatal,
        PollResult::Running => if timeout == 0 || elapsed <= timeout {
            WaitStep::Keep
        } else if over_polls < TIMEOUT_RETRIES as int {
            WaitStep::AlarmAndWait
        } else {
            WaitStep::GiveUp
        },
    }
}

/// Decides the next move of a soft-timeout check: `timeout` is the
/// budget in seconds (zero disables it), `elapsed` the seconds since
/// the spawn, and `over_polls` how many over-budget polls of this call
/// already came back still running.
pub fn timeout_decide(timeout: u64, elapsed: u64, over_polls: u64, poll: PollResult) -> (s:
    WaitStep)
    ensures
        s == spec_wait_step(timeout as int, elapsed as int, over_polls as int, poll),
{
    match poll {
        PollResult::Exited => WaitStep::Done,
        PollResult::Failed => WaitStep::Fatal,
        PollResult::Running => {
            if timeout == 0 || elapsed <= timeout {
                WaitStep::Keep
            } else if over_polls < TIMEOUT_RETRIES {
                WaitStep::AlarmAndWait
            } else {
                WaitStep::GiveUp
            }
        },
    }
}

/// The soft-timeout nudge is bounded and best effort: it only ever
/// fires past the budget, it retries at most `TIMEOUT_RETRIES` times,
/// and when it gives up the verdict is still-running, not a kill.
pub proof fn lemma_soft_timeout_bounded(timeout: int, elapsed: int, over_polls: int, poll: PollResult)
    requires
        timeout >= 0,
        elapsed >= 0,
    ensures
        spec_wait_step(timeout, elapsed, over_polls, poll) == WaitStep::AlarmAndWait ==> over_polls
            < TIMEOUT_RETRIES as int && timeout > 0 && elapsed > timeout,
        spec_wait_step(timeout, elapsed, over_polls, poll) == WaitStep::GiveUp ==> over_polls
            >= TIMEOUT_RETRIES as int && timeout > 0 && elapsed > timeout,
        timeout == 0 && poll is Running ==> spec_wait_step(timeout, elapsed, over_polls, poll)
            == WaitStep::Keep,
{
}

} // verus!
