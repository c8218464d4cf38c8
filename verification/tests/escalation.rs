use cirno_rs::lifecycle::STOP_RETRIES;
use cirno_rs::lifecycle::StopStep;
use cirno_rs::lifecycle::TIMEOUT_RETRIES;
use cirno_rs::lifecycle::WaitStep;
use cirno_rs::lifecycle::stop_decide;
use cirno_rs::lifecycle::timeout_decide;
use cirno_rs::sched::PollResult;

#[test]
fn stop_ends_on_exit_or_error() {
    assert_eq!(stop_decide(0, PollResult::Exited), StopStep::Done);
    assert_eq!(stop_decide(2, PollResult::Exited), StopStep::Done);
    assert_eq!(stop_decide(0, PollResult::Failed), StopStep::Fatal);
    assert_eq!(stop_decide(3, PollResult::Failed), StopStep::Fatal);
}

#[test]
fn stop_retries_then_force_kills() {
    assert_eq!(STOP_RETRIES, 3);
    assert_eq!(stop_decide(0, PollResult::Running), StopStep::TermAndWait);
    assert_eq!(stop_decide(1, PollResult::Running), StopStep::TermAndWait);
    assert_eq!(stop_decide(2, PollResult::Running), StopStep::TermAndWait);
    assert_eq!(stop_decide(3, PollResult::Running), StopStep::ForceKill);
    assert_eq!(stop_decide(100, PollResult::Running), StopStep::ForceKill);
}

#[test]
fn timeout_zero_disables_check() {
    assert_eq!(timeout_decide(0, 100000, 0, PollResult::Running), WaitStep::Keep);
}

#[test]
fn timeout_keeps_within_budget() {
    assert_eq!(timeout_decide(30, 30, 0, PollResult::Running), WaitStep::Keep);
    assert_eq!(timeout_decide(30, 5, 0, PollResult::Running), WaitStep::Keep);
}

#[test]
fn timeout_escalates_bounded_then_gives_up() {
    assert_eq!(TIMEOUT_RETRIES, 9);
    for n in 0..9 {
        assert_eq!(timeout_decide(1, 2, n, PollResult::Running), WaitStep::AlarmAndWait);
    }
    assert_eq!(timeout_decide(1, 2, 9, PollResult::Running), WaitStep::GiveUp);
    assert_eq!(timeout_decide(1, 2, 50, PollResult::Running), WaitStep::GiveUp);
}

#[test]
fn timeout_reports_exit_and_errors() {
    assert_eq!(timeout_decide(1, 2, 0, PollResult::Exited), WaitStep::Done);
    assert_eq!(timeout_decide(1, 2, 4, PollResult::Failed), WaitStep::Fatal);
}
