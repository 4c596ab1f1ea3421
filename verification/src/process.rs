//! Recorder process control: reading the pid file and stopping a running recorder. The comm and
//! start-time identity checks ensure a stale or reused pid is never signalled.

use crate::clock::Duration;
use crate::text::{decimal, find_char, first_of, is_white, lemma_decimal_value, parse_unsigned};
use crate::text::{digit, lemma_first_of, parse_up_to, push_decimal, same, start_of_text, string_of};
use crate::text::{end_of_text, lemma_trim_start, lemma_word_len, lowered, to_chars, to_lower};
use crate::text::{trim, trim_start, trimmed, word_len, words};
use vstd::prelude::*;

verus! {

/// The first line of a text.
pub open spec fn first_line(s: Seq<char>) -> Seq<char> {
    s.take(first_of(s, '\n'))
}

/// First line of a pid file, trimmed and parsed. The file is newline-framed, so the first line
/// is a clean pid even mid-rewrite.
pub fn parse_pid(contents: &str) -> (r: Option<u32>)
    ensures
        match r {
            Some(pid) => parse_unsigned(trim(first_line(contents@)), u32::MAX as nat) == Some(
                pid as nat,
            ),
            None => parse_unsigned(trim(first_line(contents@)), u32::MAX as nat) is None,
        },
{
    let chars = to_chars(contents);
    let n: usize = chars.len();
    proof {
        assert(chars@.subrange(0, n as int) =~= contents@);
        lemma_first_of(contents@, '\n');
    }
    let line: usize = find_char(&chars, 0, n, '\n');
    proof {
        assert(chars@.subrange(0, line as int) =~= first_line(contents@));
    }
    let start: usize = start_of_text(&chars, 0, line);
    let end: usize = end_of_text(&chars, start, line);
    match parse_up_to(&chars, start, end, u32::MAX as u64) {
        Some(pid) => Some(pid as u32),
        None => None,
    }
}

/// What a pid file holds.
pub fn pid_line(pid: u32) -> (r: String)
    ensures
        r@ == decimal(pid as nat) + "\n"@,
{
    let mut line = String::new();
    push_decimal(&mut line, pid as u64);
    line.append("\n");
    proof {
        assert(line@ =~= decimal(pid as nat) + "\n"@);
    }
    line
}

/// A pid that was written is read back, whatever an earlier, longer content leaves behind it.
pub proof fn law_pid_survives_a_stale_tail(pid: u32, tail: Seq<char>)
    ensures
        parse_unsigned(
            trim(first_line(decimal(pid as nat) + "\n"@ + tail)),
            u32::MAX as nat,
        ) == Some(pid as nat),
{
    reveal_strlit("\n");
    let digits = decimal(pid as nat);
    let whole = digits + "\n"@ + tail;
    lemma_decimal_value(pid as nat);
    lemma_first_of(whole, '\n');
    assert(whole[digits.len() as int] == '\n');
    let at = first_of(whole, '\n');
    if at < digits.len() {
        assert(whole[at] == digits[at]);
        assert(digit(digits[at]));
    }
    assert(first_line(whole) =~= digits);
    assert(digit(digits[0]));
    assert(digit(digits[digits.len() - 1]));
    assert(trim(digits) == digits);
    crate::text::law_parse_decimal(pid as nat, u32::MAX as nat);
}

/// The place of the last `c`, or -1.
pub open spec fn last_of(s: Seq<char>, c: char) -> int
    decreases s.len(),
{
    if s.len() == 0 {
        -1
    } else if s.last() == c {
        s.len() - 1
    } else {
        last_of(s.drop_last(), c)
    }
}

/// Field 22 (start time in clock ticks) of `/proc/<pid>/stat` content: with the pid, a stable
/// identity that distinguishes the original process from a reused pid. The comm (field 2) is
/// parenthesised and may itself contain spaces and parens, so fields are counted from behind
/// the last `)`.
pub open spec fn start_time(stat: Seq<char>) -> Option<Seq<char>> {
    let close = last_of(stat, ')');
    let fields = words(stat.skip(close + 1));
    if close < 0 || fields.len() <= 19 {
        None
    } else {
        Some(fields[19])
    }
}

/// Field 22 (start time in clock ticks) of `/proc/<pid>/stat` content.
pub fn parse_start_time(stat: &str) -> (r: Option<String>)
    ensures
        crate::paths::owned_text(r) == start_time(stat@),
{
    let chars = to_chars(stat);
    let n: usize = chars.len();
    let mut close: usize = n;
    proof {
        assert(chars@.take(n as int) =~= stat@);
    }
    while close > 0 && chars[close - 1] != ')'
        invariant
            close <= n,
            n == chars@.len(),
            last_of(chars@.take(close as int), ')') == last_of(chars@.take(n as int), ')'),
        decreases close,
    {
        proof {
            assert(chars@.take(close as int).drop_last() =~= chars@.take(close - 1));
        }
        close = close - 1;
    }
    if close == 0 {
        return None;
    }
    let ghost tail = stat@.skip(close as int);
    let ghost fields = words(tail);
    let mut at: usize = close;
    let mut k: usize = 0;
    proof {
        assert(chars@.subrange(close as int, n as int) =~= tail);
        assert(fields.skip(0) =~= fields);
    }
    loop
        invariant
            close <= at <= n,
            n == chars@.len(),
            chars@ == stat@,
            k <= 19,
            close - 1 == last_of(stat@, ')'),
            close > 0,
            tail == stat@.skip(close as int),
            fields == words(tail),
            k <= fields.len(),
            fields.skip(k as int) == words(chars@.subrange(at as int, n as int)),
        decreases n - at + 20 - k,
    {
        let ghost here = chars@.subrange(at as int, n as int);
        let from: usize = start_of_text(&chars, at, n);
        let ghost t = trim_start(here);
        proof {
            lemma_trim_start(here);
            lemma_word_len(t);
        }
        if from == n {
            proof {
                assert(fields.skip(k as int).len() == 0);
            }
            return None;
        }
        let mut to: usize = from;
        proof {
            assert(t.skip(0) =~= t);
        }
        while to < n && !is_white(chars[to])
            invariant
                from <= to <= n,
                n == chars@.len(),
                t == chars@.subrange(from as int, n as int),
                word_len(t) == (to - from) + word_len(t.skip(to - from)),
            decreases n - to,
        {
            proof {
                assert(t.skip(to - from)[0] == chars@[to as int]);
                assert(t.skip(to - from).skip(1) =~= t.skip(to - from + 1));
            }
            to = to + 1;
        }
        proof {
            if to < n {
                assert(t.skip(to - from)[0] == chars@[to as int]);
            }
            assert(word_len(t) == to - from);
            assert(t.take(to - from) =~= chars@.subrange(from as int, to as int));
            assert(t.skip(to - from) =~= chars@.subrange(to as int, n as int));
            assert(fields.skip(k as int)[0] == chars@.subrange(from as int, to as int));
        }
        if k == 19 {
            return Some(string_of(&chars, from, to));
        }
        proof {
            assert(fields.skip(k as int).skip(1) =~= fields.skip(k + 1));
            assert(words(here).skip(1) =~= words(t.skip(to - from)));
        }
        k = k + 1;
        at = to;
    }
}

/// Whether the original process (pid + start-time identity) is still running, given the start
/// time that its pid has now and whether the pid exists. Without an identity the bare pid
/// counts.
pub fn still_running(identity: Option<&str>, current: Option<&str>, exists: bool) -> (r: bool)
    ensures
        r == match crate::paths::text_of(identity) {
            Some(start) => crate::paths::text_of(current) == Some(start),
            None => exists,
        },
{
    match identity {
        Some(start) => match current {
            Some(now) => same(now, start),
            None => false,
        },
        None => exists,
    }
}

/// Whether a process with this comm is a recorder. A reused pid must never read as alive.
pub fn recorder_alive(comm: Option<&str>) -> (r: bool)
    ensures
        r == (comm matches Some(name) && trim(name@) == "rewynd-recorder"@),
{
    match comm {
        Some(name) => {
            let shown = trimmed(name);
            same(shown.as_str(), "rewynd-recorder")
        },
        None => false,
    }
}

/// Whether a process with this image name is a recorder, where the image name stands in for the
/// comm: file names there do not tell letter case apart.
pub fn is_recorder_image(image: Option<&str>) -> (r: bool)
    ensures
        r == (image matches Some(name) && lowered(name@) == "rewynd-recorder.exe"@),
{
    match image {
        Some(name) => {
            let low = to_lower(name);
            same(low.as_str(), "rewynd-recorder.exe")
        },
        None => false,
    }
}

/// Whether a pid names a single process: 0 and negative numbers target whole process groups.
pub open spec fn single_process(pid: u32) -> bool {
    0 < pid <= i32::MAX
}

/// Which process to ask for a save: the running recorder, where there is one.
pub fn request_recorder_save(pid: Option<u32>, alive: bool) -> (r: Option<i32>)
    ensures
        match r {
            Some(target) => pid matches Some(p) && single_process(p) && alive && target == p,
            None => !(pid matches Some(p) && single_process(p) && alive),
        },
{
    match pid {
        Some(p) => if p > 0 && p <= i32::MAX as u32 && alive {
            Some(p as i32)
        } else {
            None
        },
        None => None,
    }
}

/// The next thing to do about a process that is to be stopped.
#[derive(Debug, Clone, Copy, PartialEq, Eq, Structural)]
pub enum StopAction {
    /// Read its comm.
    Identify,
    /// Read its start time, to tell it from a reused pid.
    Pin,
    /// Ask it to exit.
    Terminate,
    /// Wait for it to exit, as long as a request to exit is given.
    AwaitTerminate,
    /// Make it exit.
    Kill,
    /// Wait for it to exit, as long as a kill is given.
    AwaitKill,
    /// Nothing: it is gone (or was never ours), or it survived both signals.
    Done(bool),
}

/// What came of an action.
#[derive(Debug)]
pub enum StopEvent {
    /// The comm, where it could be read.
    Comm(Option<String>),
    /// The start time was read (or not).
    Pinned,
    /// The signal was sent, or the process was already gone.
    Signalled(bool),
    /// Whether the process had exited when the wait ended.
    Exited(bool),
}

/// Where to start: a pid that does not name a single process is left alone.
pub fn begin_stop(pid: u32) -> (r: StopAction)
    ensures
        r == if single_process(pid) {
            StopAction::Identify
        } else {
            StopAction::Done(true)
        },
{
    if pid > 0 && pid <= i32::MAX as u32 {
        StopAction::Identify
    } else {
        StopAction::Done(true)
    }
}

/// Where to start with the recorder that the pid file names: without one, nothing is running.
pub fn stop_recorder(pid: Option<u32>) -> (r: StopAction)
    ensures
        r == match pid {
            Some(p) if single_process(p) => StopAction::Identify,
            _ => StopAction::Done(true),
        },
{
    match pid {
        Some(p) => begin_stop(p),
        None => StopAction::Done(true),
    }
}

/// What follows an action and what came of it: the process is signalled only once its comm was
/// found to be the expected one, and killed only once it outlived the request to exit.
pub open spec fn stop_step(action: StopAction, event: StopEvent, expected: Seq<char>) -> StopAction {
    match (action, event) {
        (StopAction::Identify, StopEvent::Comm(Some(comm))) => if trim(comm@) == expected {
            StopAction::Pin
        } else {
            StopAction::Done(true)
        },
        (StopAction::Identify, _) => StopAction::Done(true),
        (StopAction::Pin, _) => StopAction::Terminate,
        (StopAction::Terminate, StopEvent::Signalled(true)) => StopAction::AwaitTerminate,
        (StopAction::Terminate, _) => StopAction::Done(true),
        (StopAction::AwaitTerminate, StopEvent::Exited(true)) => StopAction::Done(true),
        (StopAction::AwaitTerminate, _) => StopAction::Kill,
        (StopAction::Kill, StopEvent::Signalled(true)) => StopAction::AwaitKill,
        (StopAction::Kill, _) => StopAction::Done(true),
        (StopAction::AwaitKill, StopEvent::Exited(gone)) => StopAction::Done(gone),
        (StopAction::AwaitKill, _) => StopAction::Done(false),
        (StopAction::Done(gone), _) => StopAction::Done(gone),
    }
}

/// The action that follows `action` and what came of it, for a process whose comm must be
/// `expected_comm`.
pub fn next_stop(action: StopAction, event: StopEvent, expected_comm: &str) -> (r: StopAction)
    ensures
        r == stop_step(action, event, expected_comm@),
{
    match (action, event) {
        (StopAction::Identify, StopEvent::Comm(Some(comm))) => {
            let shown = trimmed(comm.as_str());
            if same(shown.as_str(), expected_comm) {
                StopAction::Pin
            } else {
                StopAction::Done(true)
            }
        },
        (StopAction::Identify, _) => StopAction::Done(true),
        (StopAction::Pin, _) => StopAction::Terminate,
        (StopAction::Terminate, StopEvent::Signalled(true)) => StopAction::AwaitTerminate,
        (StopAction::Terminate, _) => StopAction::Done(true),
        (StopAction::AwaitTerminate, StopEvent::Exited(true)) => StopAction::Done(true),
        (StopAction::AwaitTerminate, _) => StopAction::Kill,
        (StopAction::Kill, StopEvent::Signalled(true)) => StopAction::AwaitKill,
        (StopAction::Kill, _) => StopAction::Done(true),
        (StopAction::AwaitKill, StopEvent::Exited(gone)) => StopAction::Done(gone),
        (StopAction::AwaitKill, _) => StopAction::Done(false),
        (StopAction::Done(gone), _) => StopAction::Done(gone),
    }
}

/// How far a stop has come.
pub open spec fn stage(action: StopAction) -> nat {
    match action {
        StopAction::Identify => 0,
        StopAction::Pin => 1,
        StopAction::Terminate => 2,
        StopAction::AwaitTerminate => 3,
        StopAction::Kill => 4,
        StopAction::AwaitKill => 5,
        StopAction::Done(_) => 6,
    }
}

/// A stop always comes to an end: every step is one further, whatever happens.
pub proof fn law_stop_ends(action: StopAction, event: StopEvent, expected: Seq<char>)
    ensures
        action is Done || stage(stop_step(action, event, expected)) > stage(action),
{
}

/// A process whose comm is not the expected one is never signalled: from the comm on, the stop
/// is over, and it reports the process gone.
pub proof fn law_foreign_process_is_never_signalled(comm: Option<String>, expected: Seq<char>)
    requires
        !(comm matches Some(name) && trim(name@) == expected),
    ensures
        stop_step(StopAction::Identify, StopEvent::Comm(comm), expected) == StopAction::Done(true),
{
}

/// A span as a millisecond timeout of 32 bits, saturating.
pub fn wait_millis(wait: Duration) -> (r: u32)
    ensures
        r == if wait@ / 1_000_000 <= u32::MAX {
            wait@ / 1_000_000
        } else {
            u32::MAX as nat
        },
{
    let millis: u128 = wait.as_millis();
    if millis <= u32::MAX as u128 {
        millis as u32
    } else {
        u32::MAX
    }
}

/// What came of trying to take a single-instance lock.
#[derive(Debug, Clone, Copy, PartialEq, Eq, Structural)]
pub enum LockOutcome {
    /// It is ours.
    Taken,
    /// Another process holds it.
    WouldBlock,
    /// A signal interrupted the call before it took effect.
    Interrupted,
    /// It failed.
    Failed,
}

/// What to do about the outcome of trying to take a lock.
#[derive(Debug, Clone, Copy, PartialEq, Eq, Structural)]
pub enum LockStep {
    /// Go on as the holder.
    Acquired,
    /// Go on as a refused second instance.
    Refused,
    /// Try again: treating the lock as free would let a second instance through.
    Retry,
    /// Report the failure.
    Fail,
}

/// What to do about the outcome of trying to take a lock.
pub fn lock_step(outcome: LockOutcome) -> (r: LockStep)
    ensures
        r == match outcome {
            LockOutcome::Taken => LockStep::Acquired,
            LockOutcome::WouldBlock => LockStep::Refused,
            LockOutcome::Interrupted => LockStep::Retry,
            LockOutcome::Failed => LockStep::Fail,
        },
{
    match outcome {
        LockOutcome::Taken => LockStep::Acquired,
        LockOutcome::WouldBlock => LockStep::Refused,
        LockOutcome::Interrupted => LockStep::Retry,
        LockOutcome::Failed => LockStep::Fail,
    }
}

/// Whether a settings window counts as open, given whether the instance dir could be made and
/// what became of briefly taking the lock. Errors count as open: callers must not disturb a
/// live window.
pub fn settings_running(dir_ready: bool, probe: LockStep) -> (r: bool)
    ensures
        r == !(dir_ready && probe == LockStep::Acquired),
{
    !(dir_ready && probe == LockStep::Acquired)
}

/// The next thing to do about finding out whether a settings window is open.
#[derive(Debug, Clone, Copy, PartialEq, Eq, Structural)]
pub enum ProbeAction {
    /// Make the instance dir, where the lock is a file in it.
    MakeDir,
    /// Try to take the lock, without waiting for it.
    TryLock,
    /// Let go of the lock that was taken.
    Release,
    /// Nothing: a window counts as open, or not.
    Done(bool),
}

/// What came of a step of a probe.
#[derive(Debug, Clone, Copy, PartialEq, Eq, Structural)]
pub enum ProbeEvent {
    /// Whether the instance dir is there.
    Dir(bool),
    /// What came of trying to take the lock.
    Lock(LockOutcome),
    /// The lock was let go of.
    Released,
}

/// What follows a step of a probe and what came of it: a lock that was taken is let go of at
/// once, and an attempt that a signal interrupted is made again.
pub open spec fn probe_step(action: ProbeAction, event: ProbeEvent) -> ProbeAction {
    match (action, event) {
        (ProbeAction::MakeDir, ProbeEvent::Dir(true)) => ProbeAction::TryLock,
        (ProbeAction::MakeDir, _) => ProbeAction::Done(true),
        (ProbeAction::TryLock, ProbeEvent::Lock(LockOutcome::Taken)) => ProbeAction::Release,
        (ProbeAction::TryLock, ProbeEvent::Lock(LockOutcome::Interrupted)) => ProbeAction::TryLock,
        (ProbeAction::TryLock, _) => ProbeAction::Done(true),
        (ProbeAction::Release, _) => ProbeAction::Done(false),
        (ProbeAction::Done(running), _) => ProbeAction::Done(running),
    }
}

/// The step of a probe that follows `action` and what came of it.
pub fn next_probe(action: ProbeAction, event: ProbeEvent) -> (r: ProbeAction)
    ensures
        r == probe_step(action, event),
{
    match (action, event) {
        (ProbeAction::MakeDir, ProbeEvent::Dir(true)) => ProbeAction::TryLock,
        (ProbeAction::MakeDir, _) => ProbeAction::Done(settings_running(false, LockStep::Fail)),
        (ProbeAction::TryLock, ProbeEvent::Lock(outcome)) => match lock_step(outcome) {
            LockStep::Acquired => ProbeAction::Release,
            LockStep::Retry => ProbeAction::TryLock,
            refused => ProbeAction::Done(settings_running(true, refused)),
        },
        (ProbeAction::TryLock, _) => ProbeAction::Done(settings_running(true, LockStep::Fail)),
        (ProbeAction::Release, _) => ProbeAction::Done(settings_running(true, LockStep::Acquired)),
        (ProbeAction::Done(running), _) => ProbeAction::Done(running),
    }
}

/// Who holds a single-instance lock.
pub enum Holder {
    /// Nobody.
    Nobody,
    /// Another process.
    Other,
    /// This process, for a probe.
    Probe,
}

/// Whether `event` can come of `action` while `holder` has the lock: one process at a time has
/// it, and an attempt that was interrupted or failed says nothing of it.
pub open spec fn can_come(holder: Holder, action: ProbeAction, event: ProbeEvent) -> bool {
    match (action, event) {
        (ProbeAction::MakeDir, ProbeEvent::Dir(_)) => true,
        (ProbeAction::TryLock, ProbeEvent::Lock(LockOutcome::Taken)) => holder is Nobody,
        (ProbeAction::TryLock, ProbeEvent::Lock(LockOutcome::WouldBlock)) => holder is Other,
        (ProbeAction::TryLock, ProbeEvent::Lock(_)) => true,
        (ProbeAction::Release, ProbeEvent::Released) => holder is Probe,
        _ => false,
    }
}

/// Who has the lock after `event` came of `action`.
pub open spec fn holder_after(holder: Holder, action: ProbeAction, event: ProbeEvent) -> Holder {
    match (action, event) {
        (ProbeAction::TryLock, ProbeEvent::Lock(LockOutcome::Taken)) => Holder::Probe,
        (ProbeAction::Release, ProbeEvent::Released) => Holder::Nobody,
        _ => holder,
    }
}

/// How far a probe has come, and who has the lock then, once `events` came of its steps from
/// `first` on; `None` where they cannot.
pub open spec fn probed(first: ProbeAction, holder: Holder, events: Seq<ProbeEvent>) -> Option<
    (ProbeAction, Holder),
>
    decreases events.len(),
{
    if events.len() == 0 {
        Some((first, holder))
    } else {
        match probed(first, holder, events.drop_last()) {
            Some((action, now)) => if can_come(now, action, events.last()) {
                Some(
                    (
                        probe_step(action, events.last()),
                        holder_after(now, action, events.last()),
                    ),
                )
            } else {
                None
            },
            None => None,
        }
    }
}

/// Whether something in the way of a probe came up: no dir, or no attempt at the lock.
pub open spec fn hindered(events: Seq<ProbeEvent>) -> bool {
    events.contains(ProbeEvent::Dir(false)) || events.contains(
        ProbeEvent::Lock(LockOutcome::Failed),
    )
}

/// A probe that came to its end tells the truth of a lock that no other process takes or lets go
/// of meanwhile: a window is open while another process has the lock, none is where nobody has
/// it, and one counts as open whenever the lock cannot be probed. Either way the lock is left as
/// it was.
pub proof fn law_probe_tracks_the_holder(
    first: ProbeAction,
    holder: Holder,
    events: Seq<ProbeEvent>,
    running: bool,
    after: Holder,
)
    requires
        first == ProbeAction::MakeDir || first == ProbeAction::TryLock,
        holder is Nobody || holder is Other,
        probed(first, holder, events) == Some((ProbeAction::Done(running), after)),
    ensures
        after == holder,
        holder is Other ==> running,
        holder is Nobody && !hindered(events) ==> !running,
        hindered(events) ==> running,
{
    lemma_probed(first, holder, events);
}

/// What holds of a probe at every step.
proof fn lemma_probed(first: ProbeAction, holder: Holder, events: Seq<ProbeEvent>)
    requires
        first == ProbeAction::MakeDir || first == ProbeAction::TryLock,
        holder is Nobody || holder is Other,
    ensures
        match probed(first, holder, events) {
            None => true,
            Some((ProbeAction::Release, now)) => now is Probe && holder is Nobody && !hindered(
                events,
            ),
            Some((ProbeAction::Done(running), now)) => now == holder && running == (holder is Other
                || hindered(events)),
            Some((_, now)) => now == holder && !hindered(events),
        },
    decreases events.len(),
{
    if events.len() > 0 {
        let before = events.drop_last();
        lemma_probed(first, holder, before);
        assert(events =~= before.push(events.last()));
        assert forall|e: ProbeEvent| #[trigger] events.contains(e) == (before.contains(e) || e
            == events.last()) by {
            if before.contains(e) {
                let i = choose|i: int| 0 <= i < before.len() && before[i] == e;
                assert(events[i] == e);
            }
            if e == events.last() {
                assert(events[events.len() - 1] == e);
            }
        }
    }
}

/// The recorder is asked before it is forced: a process is killed only where it was asked to exit
/// and outlived that, is asked only once it was identified and pinned, and is identified only by
/// the expected comm.
pub proof fn law_stop_asks_before_it_forces(
    action: StopAction,
    event: StopEvent,
    expected: Seq<char>,
)
    ensures
        stop_step(action, event, expected) is Kill ==> action is AwaitTerminate && !(event
            == StopEvent::Exited(true)),
        stop_step(action, event, expected) is AwaitTerminate ==> action is Terminate,
        stop_step(action, event, expected) is Terminate ==> action is Pin,
        stop_step(action, event, expected) is Pin ==> action is Identify && (
        event matches StopEvent::Comm(Some(comm)) && trim(comm@) == expected),
        !(stop_step(action, event, expected) is Identify),
        action is AwaitKill && event != StopEvent::Exited(true) ==> stop_step(
            action,
            event,
            expected,
        ) != StopAction::Done(true),
{
}

/// A stop carries through: a recorder that was identified is asked to exit, and one that outlives
/// that is killed. It is reported gone exactly where it exited or was not there to be signalled,
/// and as still there where it survived both.
pub proof fn law_stop_carries_through(comm: String, expected: Seq<char>)
    requires
        trim(comm@) == expected,
    ensures
        ({
            let at = |a: StopAction, e: StopEvent| stop_step(a, e, expected);
            let pinned = at(StopAction::Identify, StopEvent::Comm(Some(comm)));
            let asked = at(at(pinned, StopEvent::Pinned), StopEvent::Signalled(true));
            let forced = at(at(asked, StopEvent::Exited(false)), StopEvent::Signalled(true));
            &&& at(pinned, StopEvent::Pinned) is Terminate
            &&& at(asked, StopEvent::Exited(true)) == StopAction::Done(true)
            &&& at(asked, StopEvent::Exited(false)) is Kill
            &&& at(forced, StopEvent::Exited(true)) == StopAction::Done(true)
            &&& at(forced, StopEvent::Exited(false)) == StopAction::Done(false)
            &&& at(at(pinned, StopEvent::Pinned), StopEvent::Signalled(false)) == StopAction::Done(
                true,
            )
        }),
{
}

/// The start time is the twentieth word behind the comm, whatever the comm holds: parentheses and
/// spaces in it do not shift the fields.
pub proof fn law_start_time_is_behind_the_comm(comm: Seq<char>, fields: Seq<char>)
    requires
        forall|i: int| 0 <= i < fields.len() ==> #[trigger] fields[i] != ')',
    ensures
        start_time(comm.push(')') + fields) == if words(fields).len() <= 19 {
            None
        } else {
            Some(words(fields)[19])
        },
{
    let stat = comm.push(')') + fields;
    lemma_last_of(stat, ')', comm.len() as int);
    assert(stat.skip(comm.len() as int + 1) =~= fields);
}

proof fn lemma_last_of(s: Seq<char>, c: char, k: int)
    requires
        0 <= k < s.len(),
        s[k] == c,
        forall|i: int| k < i < s.len() ==> #[trigger] s[i] != c,
    ensures
        last_of(s, c) == k,
    decreases s.len(),
{
    if k < s.len() - 1 {
        assert(s[s.len() - 1] != c);
        lemma_last_of(s.drop_last(), c, k);
    }
}

/// A reused pid is not the recorder: with a start time to tell it by, a process counts as running
/// only where the pid still has that very start time.
pub proof fn law_reused_pid_is_not_running(
    identity: Option<&str>,
    current: Option<&str>,
    exists: bool,
    r: bool,
)
    requires
        call_ensures(still_running, (identity, current, exists), r),
    ensures
        identity is Some ==> (r <==> current is Some && current->0@ == identity->0@),
        identity is None ==> r == exists,
{
}

/// A save is asked of one process, the running recorder, and of no process group.
pub proof fn law_save_goes_to_one_process(pid: Option<u32>, alive: bool, r: Option<i32>)
    requires
        call_ensures(request_recorder_save, (pid, alive), r),
    ensures
        r matches Some(target) ==> target > 0 && alive && pid is Some && pid->0 == target,
        alive && (pid matches Some(p) && 0 < p <= 0x7fff_ffff) ==> r is Some,
{
}

/// Only a number that stands for one process is looked at: zero and what a signal would take for
/// a group of processes count as stopped.
pub proof fn law_only_one_process_is_stopped(
    pid: u32,
    r: StopAction,
    read: StopAction,
    none: StopAction,
)
    requires
        call_ensures(begin_stop, (pid,), r),
        call_ensures(stop_recorder, (Some(pid),), read),
        call_ensures(stop_recorder, (None,), none),
    ensures
        0 < pid < 0x8000_0000 ==> r == StopAction::Identify,
        pid == 0 || pid >= 0x8000_0000 ==> r == StopAction::Done(true),
        read == r,
        none == StopAction::Done(true),
{
}

} // verus!
