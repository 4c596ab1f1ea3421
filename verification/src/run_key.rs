//! Login autostart on Windows: a value under the per-user Run key. There is no
//! packaged-vs-user distinction there, so the ownership heuristic is the value's target: only a
//! command pointing at a rewynd binary is ever rewritten.

use crate::text::{has_suffix, lowered, same, string_of, to_chars, to_lower, trim, trimmed};
use vstd::prelude::*;

verus! {

/// The per-user key whose values are launched at login.
pub const RUN_KEY_PATH: &'static str = "Software\\Microsoft\\Windows\\CurrentVersion\\Run";

/// The key that holds the identities of notification senders.
pub const AUMID_KEY_PATH: &'static str = "Software\\Classes\\AppUserModelId";

/// The Run-key command for `exec`: quoted, so paths with spaces survive.
pub open spec fn command_text(exec: Seq<char>) -> Seq<char> {
    "\""@ + exec + "\""@
}

/// The Run-key command for `exec`: quoted, so paths with spaces survive.
pub fn run_command_value(exec: &str) -> (r: String)
    ensures
        r@ == command_text(exec@),
{
    let mut out = "\"".to_owned();
    out.append(exec);
    out.append("\"");
    out
}

/// The text without the quotes at its start.
pub open spec fn unquote_start(s: Seq<char>) -> Seq<char>
    decreases s.len(),
{
    if s.len() > 0 && s[0] == '"' {
        unquote_start(s.skip(1))
    } else {
        s
    }
}

/// The text without the quotes at its end.
pub open spec fn unquote_end(s: Seq<char>) -> Seq<char>
    decreases s.len(),
{
    if s.len() > 0 && s.last() == '"' {
        unquote_end(s.drop_last())
    } else {
        s
    }
}

/// Whether a command points at a rewynd binary.
pub open spec fn ours(command: Seq<char>) -> bool {
    has_suffix(lowered(unquote_end(unquote_start(trim(command)))), "rewynd.exe"@)
}

/// Whether an existing Run-key command points at a rewynd binary (ours to manage);
/// a user-managed wrapper stays untouched.
pub fn is_rewynd_command(command: &str) -> (r: bool)
    ensures
        r == ours(command@),
{
    let text = trimmed(command);
    let chars = to_chars(text.as_str());
    let n: usize = chars.len();
    let ghost whole = trim(command@);
    let mut from: usize = 0;
    proof {
        assert(whole.skip(0) =~= whole);
    }
    while from < n && chars[from] == '"'
        invariant
            from <= n,
            n == chars@.len(),
            chars@ == whole,
            unquote_start(whole) == unquote_start(whole.skip(from as int)),
        decreases n - from,
    {
        proof {
            assert(whole.skip(from as int).skip(1) =~= whole.skip(from + 1));
        }
        from = from + 1;
    }
    let ghost inner = whole.skip(from as int);
    let mut to: usize = n;
    proof {
        assert(unquote_start(whole) == inner);
        assert(chars@.subrange(from as int, n as int) =~= inner);
    }
    while to > from && chars[to - 1] == '"'
        invariant
            from <= to <= n,
            n == chars@.len(),
            unquote_end(inner) == unquote_end(chars@.subrange(from as int, to as int)),
        decreases to,
    {
        proof {
            let here = chars@.subrange(from as int, to as int);
            assert(here.drop_last() =~= chars@.subrange(from as int, to - 1));
        }
        to = to - 1;
    }
    let target = string_of(&chars, from, to);
    let low = to_lower(target.as_str());
    crate::text::ends_with(low.as_str(), "rewynd.exe")
}

/// Refresh an existing autostart value to point at `exec`. What is returned is to be stored in
/// its place. Only an existing value is touched (absent = start-on-boot is off; this must not
/// turn it on), and only one pointing at a rewynd binary.
pub fn refresh_autostart(current: Option<&str>, exec: &str) -> (r: Option<String>)
    ensures
        match r {
            Some(text) => text@ == command_text(exec@) && (current matches Some(value) && ours(
                value@,
            ) && value@ != command_text(exec@)),
            None => current matches Some(value) ==> !ours(value@) || value@ == command_text(exec@),
        },
{
    let value = match current {
        Some(value) => value,
        None => {
            return None;
        },
    };
    if !is_rewynd_command(value) {
        return None;
    }
    let desired = run_command_value(exec);
    if same(value, desired.as_str()) {
        return None;
    }
    Some(desired)
}

/// The command that opens a clip link: `"%1"` is the full link the shell hands over.
pub fn protocol_command(gui_exe: &str) -> (r: String)
    ensures
        r@ == command_text(gui_exe@) + " \"%1\""@,
{
    let mut out = run_command_value(gui_exe);
    out.append(" \"%1\"");
    out
}

/// The command is the program in quotes, so that nothing of its path is read as an argument; the
/// command that opens a link hands the link over as one argument behind it.
pub proof fn law_command_is_quoted(exec: &str, r: String, opener: String)
    requires
        call_ensures(run_command_value, (exec,), r),
        call_ensures(protocol_command, (exec,), opener),
    ensures
        r@ == seq!['"'] + exec@ + seq!['"'],
        opener@ == r@ + seq![' ', '"', '%', '1', '"'],
{
    reveal_strlit("\"");
    reveal_strlit(" \"%1\"");
    assert(r@ =~= seq!['"'] + exec@ + seq!['"']);
    assert(opener@ =~= r@ + seq![' ', '"', '%', '1', '"']);
}

/// A refresh never turns start-on-boot on, and what it writes is left alone by the next one.
pub proof fn law_refresh_settles(
    current: Option<&str>,
    exec: &str,
    r: Option<String>,
    written: &str,
    again: Option<String>,
)
    requires
        call_ensures(refresh_autostart, (current, exec), r),
        r matches Some(text) ==> written@ == text@,
        call_ensures(refresh_autostart, (Some(written), exec), again),
    ensures
        current is None ==> r is None,
        r is Some ==> again is None && r->0@ == seq!['"'] + exec@ + seq!['"'],
{
    reveal_strlit("\"");
    if r is Some {
        assert(command_text(exec@) =~= seq!['"'] + exec@ + seq!['"']);
    }
}

proof fn lemma_unquoted(path: Seq<char>)
    requires
        path.len() > 0,
        path[0] != '"',
        path.last() != '"',
    ensures
        unquote_end(unquote_start(trim(seq!['"'] + path + seq!['"']))) == path,
{
    let command = seq!['"'] + path + seq!['"'];
    crate::text::lemma_trim_of_trimmed(command);
    assert(command.skip(1) =~= path + seq!['"']);
    assert(unquote_start(command) == unquote_start(command.skip(1)));
    assert(unquote_start(path + seq!['"']) == path + seq!['"']);
    assert((path + seq!['"']).drop_last() =~= path);
    assert(unquote_end(path) == path);
}

/// A quoted command is ours exactly where its program is a `rewynd.exe`, in any case: one of
/// another install is repointed to `exec`, any other program is left as it is.
pub proof fn law_only_our_command_is_repointed(
    path: Seq<char>,
    current: &str,
    exec: &str,
    r: Option<String>,
)
    requires
        path.len() >= 10,
        path[0] != '"',
        path.last() != '"',
        current@ == seq!['"'] + path + seq!['"'],
        path != exec@,
        call_ensures(refresh_autostart, (Some(current), exec), r),
    ensures
        r is Some == (lowered(path.skip(path.len() - 10)) == "rewynd.exe"@),
{
    reveal_strlit("rewynd.exe");
    reveal_strlit("\"");
    lemma_unquoted(path);
    let low = lowered(path);
    assert(low.subrange(low.len() - 10, low.len() as int) =~= lowered(path.skip(path.len() - 10)));
    assert(command_text(exec@) =~= seq!['"'] + exec@ + seq!['"']);
    if current@ == command_text(exec@) {
        assert(current@.subrange(1, current@.len() - 1) =~= path);
        assert(current@.subrange(1, current@.len() - 1) =~= exec@);
    }
}

} // verus!
