//! The installer's window logic and the parts of an install that are decided rather than done:
//! one window with a single Install button, driving the embedded Setup.exe silently.

use crate::paths::{join, joined};
use crate::text::{byte_len, decimal, find_char, first_of, lemma_byte_len_front, lemma_first_of};
use crate::text::{push_decimal, string_of, to_chars, trim, trimmed, utf8_len_of};
use vstd::prelude::*;

verus! {

/// The published Setup.exe asset name, used for the dev-build sibling fallback.
pub const SETUP_FILE: &'static str = "rewynd-win-Setup.exe";

/// How much of the Setup.exe log tail to surface on a failure, in bytes.
pub const LOG_TAIL_CHARS: usize = 600;

/// What the window shows.
#[derive(Debug, PartialEq, Eq)]
pub enum Phase {
    /// The Install button.
    Ready,
    /// A bar that moves.
    Installing,
    /// That the app is starting.
    Done,
    /// What went wrong.
    Failed(String),
}

/// What happened.
#[derive(Debug)]
pub enum Message {
    /// The Install button was pressed.
    Install,
    /// Time passed.
    Tick,
    /// The install ended.
    Finished(Result<(), String>),
    /// The window is asked to close.
    Close,
    /// The window's surface was pressed.
    Drag,
}

/// What to do about it, besides showing the new phase.
#[derive(Debug, Clone, Copy, PartialEq, Eq, Structural)]
pub enum Reaction {
    /// Nothing.
    Nothing,
    /// Start the install, and report how it ended.
    Install,
    /// Leave the "done" state on screen for a moment, then close.
    Linger,
    /// Exit.
    Exit,
    /// Let the window be dragged.
    Drag,
}

/// The installer's state.
#[derive(Debug, PartialEq, Eq)]
pub struct Installer {
    /// What the window shows.
    pub phase: Phase,
    /// Ticks since the install began; the bar's position follows from it.
    pub ticks: u64,
}

impl Default for Installer {
    fn default() -> (r: Self)
        ensures
            r.phase is Ready,
            r.ticks == 0,
    {
        Installer { phase: Phase::Ready, ticks: 0 }
    }
}

/// The phase after a message.
pub open spec fn next_phase(phase: Phase, message: Message) -> Phase {
    match message {
        Message::Install => Phase::Installing,
        Message::Finished(Ok(_)) => Phase::Done,
        Message::Finished(Err(why)) => Phase::Failed(why),
        _ => phase,
    }
}

/// What to do about a message.
pub open spec fn reaction(phase: Phase, message: Message) -> Reaction {
    match message {
        Message::Install => Reaction::Install,
        Message::Finished(Ok(_)) => Reaction::Linger,
        Message::Close => if phase is Installing {
            Reaction::Nothing
        } else {
            Reaction::Exit
        },
        Message::Drag => Reaction::Drag,
        _ => Reaction::Nothing,
    }
}

impl Installer {
    /// Take note of a message, and say what to do about it.
    ///
    /// Mid-install there is nothing sane to cancel: Setup.exe would keep running detached and
    /// the launch and cleanup would be skipped. So a request to close is refused then.
    pub fn update(&mut self, message: Message) -> (r: Reaction)
        ensures
            final(self).phase == next_phase(old(self).phase, message),
            r == reaction(old(self).phase, message),
            final(self).ticks == match message {
                Message::Install => 0,
                Message::Tick => if old(self).ticks < u64::MAX {
                    (old(self).ticks + 1) as u64
                } else {
                    u64::MAX
                },
                _ => old(self).ticks,
            },
    {
        match message {
            Message::Install => {
                self.phase = Phase::Installing;
                self.ticks = 0;
                Reaction::Install
            },
            Message::Tick => {
                if self.ticks < u64::MAX {
                    self.ticks = self.ticks + 1;
                }
                Reaction::Nothing
            },
            Message::Finished(Ok(())) => {
                self.phase = Phase::Done;
                Reaction::Linger
            },
            Message::Finished(Err(why)) => {
                self.phase = Phase::Failed(why);
                Reaction::Nothing
            },
            Message::Close => match self.phase {
                Phase::Installing => Reaction::Nothing,
                _ => Reaction::Exit,
            },
            Message::Drag => Reaction::Drag,
        }
    }

    /// Whether an install is under way: then the bar moves, and there is no way to close.
    pub fn installing(&self) -> (r: bool)
        ensures
            r == (self.phase is Installing),
    {
        match self.phase {
            Phase::Installing => true,
            _ => false,
        }
    }
}

/// An install that is under way is never abandoned: nothing but its end leaves that phase, and
/// no request exits before.
pub proof fn law_running_install_is_not_abandoned(message: Message)
    requires
        !(message is Finished),
    ensures
        next_phase(Phase::Installing, message) is Installing,
        reaction(Phase::Installing, message) != Reaction::Exit,
{
}

/// The folder that an install works in.
pub fn work_dir(temp: &str, pid: u32) -> (r: String)
    ensures
        r@ == joined(temp@, "rewynd-installer-"@ + decimal(pid as nat)),
{
    let mut name = "rewynd-installer-".to_owned();
    push_decimal(&mut name, pid as u64);
    join(temp, name.as_str())
}

/// Where a non-empty embedded payload is staged in `work`; `None` when this is a payload-less
/// dev build.
pub fn staged_payload(work: &str, payload: &[u8]) -> (r: Option<String>)
    ensures
        match r {
            Some(path) => payload@.len() > 0 && path@ == joined(work@, SETUP_FILE@),
            None => payload@.len() == 0,
        },
{
    if payload.len() == 0 {
        return None;
    }
    Some(join(work, SETUP_FILE))
}

/// Where a Setup.exe in `dir` would be.
pub fn sibling_setup(dir: &str) -> (r: String)
    ensures
        r@ == joined(dir@, SETUP_FILE@),
{
    join(dir, SETUP_FILE)
}

/// The exe that an install lays down: `%LocalAppData%\rewynd\current\rewynd.exe`.
pub fn installed_app(local_app_data: &str) -> (r: String)
    ensures
        r@ == joined(joined(joined(local_app_data@, "rewynd"@), "current"@), "rewynd.exe"@),
{
    let dir = join(local_app_data, "rewynd");
    let current = join(dir.as_str(), "current");
    join(current.as_str(), "rewynd.exe")
}

/// What the exit of Setup.exe means: a failure is shown with the end of its log.
pub fn setup_outcome(success: bool, log: Option<&str>) -> (r: Result<(), String>)
    ensures
        match r {
            Ok(()) => success,
            Err(why) => !success && why@ == "the install did not finish\n"@ + shown_tail(
                crate::paths::text_of(log),
            ),
        },
{
    if success {
        return Ok(());
    }
    let mut why = "the install did not finish\n".to_owned();
    why.append(log_tail(log).as_str());
    Err(why)
}

/// Where the longest end of a text of at most [`LOG_TAIL_CHARS`] bytes begins, from the `k`-th
/// character on.
pub open spec fn tail_start(s: Seq<char>, k: int) -> int
    decreases s.len() - k,
{
    if k >= s.len() || byte_len(s.skip(k)) <= LOG_TAIL_CHARS {
        k
    } else {
        tail_start(s, k + 1)
    }
}

/// The end of a log: cut on a character, then, where something was cut, on a line.
pub open spec fn tail_of(log: Seq<char>) -> Seq<char> {
    let start = tail_start(log, 0);
    let tail = log.skip(start);
    let line = first_of(tail, '\n');
    if start > 0 && line < tail.len() {
        trim(tail.skip(line + 1))
    } else {
        trim(tail)
    }
}

/// The end of a log, where it could be read.
pub open spec fn shown_tail(log: Option<Seq<char>>) -> Seq<char> {
    match log {
        Some(text) => tail_of(text),
        None => Seq::empty(),
    }
}

/// What is longer takes more bytes.
proof fn lemma_size_grows(s: Seq<char>, i: int, j: int)
    requires
        0 <= i <= j <= s.len(),
    ensures
        byte_len(s.skip(j)) <= byte_len(s.skip(i)),
    decreases j - i,
{
    if i < j {
        lemma_size_grows(s, i + 1, j);
        lemma_byte_len_front(s.skip(i));
        assert(s.skip(i).skip(1) =~= s.skip(i + 1));
    }
}

/// Where everything before `k` is too much, and what is left at `k` is not, the tail begins.
proof fn lemma_tail_start(s: Seq<char>, k: int, from: int)
    requires
        0 <= from <= k <= s.len(),
        byte_len(s.skip(k)) <= LOG_TAIL_CHARS,
        k > 0 ==> byte_len(s.skip(k - 1)) > LOG_TAIL_CHARS,
    ensures
        tail_start(s, from) == k,
    decreases k - from,
{
    if from < k {
        lemma_size_grows(s, from, k - 1);
        lemma_tail_start(s, k, from + 1);
    } else if k < s.len() {
        assert(tail_start(s, k) == k);
    }
}

/// The last chunk of the Setup.exe log, for the failure screen; empty when unreadable.
pub fn log_tail(log: Option<&str>) -> (r: String)
    ensures
        r@ == shown_tail(crate::paths::text_of(log)),
{
    let text = match log {
        Some(text) => text,
        None => {
            return String::new();
        },
    };
    let chars = to_chars(text);
    let n: usize = chars.len();
    let mut start: usize = n;
    let mut size: usize = 0;
    proof {
        assert(text@.skip(n as int) =~= Seq::<char>::empty());
    }
    while start > 0 && size + utf8_len_of(chars[start - 1]) <= LOG_TAIL_CHARS
        invariant
            start <= n,
            n == chars@.len(),
            chars@ == text@,
            size <= LOG_TAIL_CHARS,
            size == byte_len(text@.skip(start as int)),
        decreases start,
    {
        size = size + utf8_len_of(chars[start - 1]);
        proof {
            lemma_byte_len_front(text@.skip(start - 1));
            assert(text@.skip(start - 1).skip(1) =~= text@.skip(start as int));
        }
        start = start - 1;
    }
    proof {
        if start > 0 {
            lemma_byte_len_front(text@.skip(start - 1));
            assert(text@.skip(start - 1).skip(1) =~= text@.skip(start as int));
        }
        lemma_tail_start(text@, start as int, 0);
    }
    let ghost tail = text@.skip(start as int);
    proof {
        assert(chars@.subrange(start as int, n as int) =~= tail);
        lemma_first_of(tail, '\n');
    }
    let line: usize = find_char(&chars, start, n, '\n');
    let from: usize = if start > 0 && line < n {
        line + 1
    } else {
        start
    };
    let cut = string_of(&chars, from, n);
    proof {
        if start > 0 && line < n {
            assert(chars@.subrange(line + 1, n as int) =~= tail.skip(line - start + 1));
        }
    }
    trimmed(cut.as_str())
}

/// The window shows what happened: a press begins an install, which ends as done, and then the
/// window lingers, or as failed, with what went wrong.
pub proof fn law_install_is_shown(phase: Phase, why: String)
    ensures
        next_phase(phase, Message::Install) is Installing,
        reaction(phase, Message::Install) == Reaction::Install,
        next_phase(phase, Message::Finished(Ok(()))) is Done,
        reaction(phase, Message::Finished(Ok(()))) == Reaction::Linger,
        next_phase(phase, Message::Finished(Err(why))) == Phase::Failed(why),
        reaction(phase, Message::Finished(Err(why))) == Reaction::Nothing,
        next_phase(phase, Message::Tick) == phase,
        next_phase(phase, Message::Drag) == phase,
        next_phase(phase, Message::Close) == phase,
        !(phase is Installing) ==> reaction(phase, Message::Close) == Reaction::Exit,
{
}

/// The end of a log that is shown is its end: all that fits in the bytes there are, but for the
/// whitespace around it, and where something was cut, the line that the cut went through.
pub proof fn law_log_tail_is_the_end(log: Seq<char>) -> (from: int)
    ensures
        0 <= from <= log.len(),
        tail_of(log) == trim(log.skip(from)),
        byte_len(log.skip(from)) <= 600,
        from > 0 && log[from - 1] != '\n' ==> byte_len(log.skip(from - 1)) > 600,
        byte_len(log) <= 600 ==> from == 0,
{
    let start = tail_start(log, 0);
    lemma_tail_start_is(log, 0);
    let tail = log.skip(start);
    lemma_first_of(tail, '\n');
    let line = first_of(tail, '\n');
    assert(log.skip(0) =~= log);
    if start > 0 && line < tail.len() {
        let from = start + line + 1;
        assert(tail.skip(line + 1) =~= log.skip(from));
        assert(log[from - 1] == tail[line]);
        lemma_size_grows(log, start, from);
        from
    } else {
        start
    }
}

proof fn lemma_tail_start_is(s: Seq<char>, k: int)
    requires
        0 <= k <= s.len(),
    ensures
        k <= tail_start(s, k) <= s.len(),
        byte_len(s.skip(tail_start(s, k))) <= LOG_TAIL_CHARS,
        tail_start(s, k) > k ==> byte_len(s.skip(tail_start(s, k) - 1)) > LOG_TAIL_CHARS,
    decreases s.len() - k,
{
    if k >= s.len() {
        assert(s.skip(k) =~= Seq::<char>::empty());
    } else if byte_len(s.skip(k)) > LOG_TAIL_CHARS {
        lemma_tail_start_is(s, k + 1);
    }
}

} // verus!
