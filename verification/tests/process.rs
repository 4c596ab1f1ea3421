//! Recorder process control and the single-instance locks.

use rewynd::clock::Duration;
use rewynd::process::{
    begin_stop, is_recorder_image, lock_step, next_stop, parse_pid, parse_start_time, pid_line,
    recorder_alive, request_recorder_save, settings_running, still_running, stop_recorder,
    wait_millis, LockOutcome, LockStep, StopAction, StopEvent,
    next_probe, ProbeAction, ProbeEvent,
};

#[test]
fn parse_pid_takes_the_first_line() {
    assert_eq!(parse_pid("1234\n"), Some(1234));
    assert_eq!(parse_pid(" 42 \nleftover-tail"), Some(42));
    assert_eq!(parse_pid(""), None);
    assert_eq!(parse_pid("not-a-pid\n"), None);
    assert_eq!(parse_pid("-5\n"), None, "negative pids don't parse as u32");
}

#[test]
fn parse_start_time_survives_hostile_comm() {
    // comm may hold spaces and parens; fields resume after the LAST ')'.
    let stat = "123 ((a) b(c)) S 1 2 3 4 5 6 7 8 9 10 11 12 13 14 15 16 17 18 START 23 24 25";
    assert_eq!(parse_start_time(stat).as_deref(), Some("START"));
    assert_eq!(
        parse_start_time("123 (short) S 1 2"),
        None,
        "too few fields"
    );
    assert_eq!(parse_start_time("no parens at all"), None);
}

#[test]
fn pid_lock_overwrites_a_longer_stale_pid() {
    // A leftover pid longer than ours must not leave a trailing tail in what is read.
    let written = pid_line(4711);
    assert_eq!(written, "4711\n");
    assert_eq!(parse_pid(&format!("{written}99999999")), Some(4711));
}

#[test]
fn process_stop_process_terminates_a_matching_child() {
    let comm = "sleep";
    let mut action = begin_stop(77);
    assert_eq!(action, StopAction::Identify);
    action = next_stop(action, StopEvent::Comm(Some("sleep\n".to_owned())), comm);
    assert_eq!(action, StopAction::Pin);
    action = next_stop(action, StopEvent::Pinned, comm);
    assert_eq!(action, StopAction::Terminate);
    action = next_stop(action, StopEvent::Signalled(true), comm);
    assert_eq!(action, StopAction::AwaitTerminate);
    action = next_stop(action, StopEvent::Exited(true), comm);
    assert_eq!(action, StopAction::Done(true), "SIGTERM ends the child");
}

#[test]
fn stop_process_refuses_a_comm_mismatch() {
    let action = next_stop(
        begin_stop(77),
        StopEvent::Comm(Some("sleep".to_owned())),
        "rewynd",
    );
    assert_eq!(
        action,
        StopAction::Done(true),
        "a mismatched comm reports done without signalling"
    );
}

#[test]
fn a_process_that_outlives_the_request_is_killed() {
    let mut action = StopAction::AwaitTerminate;
    action = next_stop(action, StopEvent::Exited(false), "sleep");
    assert_eq!(action, StopAction::Kill);
    action = next_stop(action, StopEvent::Signalled(true), "sleep");
    assert_eq!(action, StopAction::AwaitKill);
    assert_eq!(
        next_stop(action, StopEvent::Exited(false), "sleep"),
        StopAction::Done(false),
        "survived both signals"
    );
    assert_eq!(
        next_stop(StopAction::Kill, StopEvent::Signalled(false), "sleep"),
        StopAction::Done(true),
        "already gone"
    );
}

#[test]
fn group_pids_are_never_signalled() {
    assert_eq!(begin_stop(0), StopAction::Done(true));
    assert_eq!(begin_stop(u32::MAX), StopAction::Done(true));
    assert_eq!(stop_recorder(None), StopAction::Done(true));
    assert_eq!(stop_recorder(Some(77)), StopAction::Identify);
    assert_eq!(request_recorder_save(Some(0), true), None);
    assert_eq!(request_recorder_save(Some(77), false), None);
    assert_eq!(request_recorder_save(Some(77), true), Some(77));
    assert_eq!(request_recorder_save(None, true), None);
}

#[test]
fn identity_is_the_start_time_where_there_is_one() {
    assert!(still_running(Some("5"), Some("5"), false));
    assert!(!still_running(Some("5"), Some("6"), true), "a reused pid");
    assert!(!still_running(Some("5"), None, true));
    assert!(still_running(None, None, true));
    assert!(recorder_alive(Some("rewynd-recorder\n")));
    assert!(!recorder_alive(Some("bash")));
    assert!(!recorder_alive(None));
    assert!(is_recorder_image(Some("Rewynd-Recorder.EXE")));
    assert!(!is_recorder_image(Some("rewynd.exe")));
}

#[test]
fn waits_saturate() {
    assert_eq!(wait_millis(Duration::from_millis(1500)), 1500);
    assert_eq!(wait_millis(Duration::from_secs(u64::MAX)), u32::MAX);
}

#[test]
fn instance_lock_is_exclusive_and_releases_on_drop() {
    assert_eq!(lock_step(LockOutcome::Taken), LockStep::Acquired);
    assert_eq!(
        lock_step(LockOutcome::WouldBlock),
        LockStep::Refused,
        "a second lock on the same file is refused"
    );
    assert_eq!(lock_step(LockOutcome::Interrupted), LockStep::Retry);
    assert_eq!(lock_step(LockOutcome::Failed), LockStep::Fail);
}

#[test]
fn settings_probe_tracks_the_lock_holder() {
    assert!(
        !settings_running(true, LockStep::Acquired),
        "free lock reads as not running"
    );
    assert!(
        settings_running(true, LockStep::Refused),
        "held lock reads as running"
    );
    assert!(settings_running(true, LockStep::Fail));
    assert!(settings_running(false, LockStep::Acquired));
}

/// Probes a lock that is held by nobody (`false`) or by somebody (`true`), the first attempts
/// being interrupted; gives the verdict and whether the lock is held afterwards.
fn probe(first: ProbeAction, held: bool, interrupts: usize, dir: bool, fails: bool) -> (bool, bool) {
    let (mut action, mut ours, mut interrupts) = (first, false, interrupts);
    loop {
        let event = match action {
            ProbeAction::MakeDir => ProbeEvent::Dir(dir),
            ProbeAction::TryLock if interrupts > 0 => {
                interrupts -= 1;
                ProbeEvent::Lock(LockOutcome::Interrupted)
            }
            ProbeAction::TryLock if fails => ProbeEvent::Lock(LockOutcome::Failed),
            ProbeAction::TryLock if held => ProbeEvent::Lock(LockOutcome::WouldBlock),
            ProbeAction::TryLock => {
                ours = true;
                ProbeEvent::Lock(LockOutcome::Taken)
            }
            ProbeAction::Release => {
                ours = false;
                ProbeEvent::Released
            }
            ProbeAction::Done(running) => return (running, held || ours),
        };
        action = next_probe(action, event);
    }
}

#[test]
fn a_probe_tells_and_leaves_the_lock_as_it_was() {
    for first in [ProbeAction::MakeDir, ProbeAction::TryLock] {
        for interrupts in [0, 3] {
            assert_eq!(probe(first, false, interrupts, true, false), (false, false));
            assert_eq!(probe(first, true, interrupts, true, false), (true, true));
            assert_eq!(probe(first, false, interrupts, true, true), (true, false));
        }
    }
    assert_eq!(probe(ProbeAction::MakeDir, false, 0, false, false), (true, false));
}
