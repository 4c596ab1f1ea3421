//! Filesystem locations: config/data homes, the per-user instance dir for pid/lock files,
//! and sibling-binary resolution.
//!
//! A path is text whose components are separated by `/`. As in `std::path`, repeated and
//! trailing separators and `.` components do not count. A platform with another separator is
//! handed, and hands over, paths with `/` in its place.

use crate::text::{decimal, push_decimal, string_of, to_chars};
use vstd::prelude::*;

verus! {

/// The application id: the name of the desktop entry, the icons and the registry values.
pub const APP_ID: &'static str = "tv.ganked.rewynd";

/// File name of the settings activation hand-off inside the instance dir.
pub const SETTINGS_ACTIVATION_FILE: &'static str = "settings.activate";

/// The path without trailing separators and `.` components.
pub open spec fn strip_end(s: Seq<char>) -> Seq<char>
    decreases s.len(),
{
    if s.len() > 0 && s.last() == '/' {
        strip_end(s.drop_last())
    } else if s.len() >= 2 && s.last() == '.' && s[s.len() - 2] == '/' {
        strip_end(s.drop_last())
    } else {
        s
    }
}

/// The place of the last separator, or -1.
pub open spec fn last_slash(s: Seq<char>) -> int
    decreases s.len(),
{
    if s.len() == 0 {
        -1
    } else if s.last() == '/' {
        s.len() - 1
    } else {
        last_slash(s.drop_last())
    }
}

/// The last component of a path: `None` for the root, the empty path, and one that ends in `.`
/// or `..`.
pub open spec fn file_name(s: Seq<char>) -> Option<Seq<char>> {
    let t = strip_end(s);
    let name = t.skip(last_slash(t) + 1);
    if t.len() == 0 || name == seq!['.'] || name == seq!['.', '.'] {
        None
    } else {
        Some(name)
    }
}

/// The path without its last component: `None` for the root and the empty path.
pub open spec fn parent(s: Seq<char>) -> Option<Seq<char>> {
    let t = strip_end(s);
    let at = last_slash(t);
    if t.len() == 0 {
        None
    } else if at < 0 {
        Some(Seq::empty())
    } else {
        let head = strip_end(t.take(at));
        if head.len() == 0 {
            Some(seq!['/'])
        } else {
            Some(head)
        }
    }
}

/// Whether a path starts at the root.
pub open spec fn absolute(s: Seq<char>) -> bool {
    s.len() > 0 && s[0] == '/'
}

/// `base` followed by `part`; an absolute `part` replaces `base`.
pub open spec fn joined(base: Seq<char>, part: Seq<char>) -> Seq<char> {
    if absolute(part) || base.len() == 0 {
        part
    } else if base.last() == '/' {
        base + part
    } else {
        base.push('/') + part
    }
}

/// The path with its file name replaced, or extended where it has none.
pub open spec fn renamed(s: Seq<char>, name: Seq<char>) -> Seq<char> {
    if file_name(s) is Some && parent(s) is Some {
        joined(parent(s)->0, name)
    } else {
        joined(s, name)
    }
}

/// What separators were stripped down to is a prefix.
pub proof fn lemma_strip_end(s: Seq<char>)
    ensures
        strip_end(s).len() <= s.len(),
        strip_end(s) == s.take(strip_end(s).len() as int),
    decreases s.len(),
{
    if s.len() > 0 && (s.last() == '/' || (s.len() >= 2 && s.last() == '.' && s[s.len() - 2]
        == '/')) {
        lemma_strip_end(s.drop_last());
        let n = strip_end(s).len() as int;
        assert(s.drop_last().take(n) =~= s.take(n));
    } else {
        assert(s.take(s.len() as int) =~= s);
    }
}

/// The place of the last separator is before the end.
pub proof fn lemma_last_slash(s: Seq<char>)
    ensures
        -1 <= last_slash(s) < s.len(),
        last_slash(s) >= 0 ==> s[last_slash(s)] == '/',
    decreases s.len(),
{
    if s.len() > 0 && s.last() != '/' {
        lemma_last_slash(s.drop_last());
    }
}

/// How much of `chars[..to]` is left without trailing separators and `.` components.
fn stripped(chars: &Vec<char>, to: usize) -> (end: usize)
    requires
        to <= chars@.len(),
    ensures
        end <= to,
        chars@.take(end as int) == strip_end(chars@.take(to as int)),
{
    let mut end: usize = to;
    while end > 0 && (chars[end - 1] == '/' || (end >= 2 && chars[end - 1] == '.' && chars[end - 2]
        == '/'))
        invariant
            end <= to <= chars@.len(),
            strip_end(chars@.take(end as int)) == strip_end(chars@.take(to as int)),
        decreases end,
    {
        proof {
            assert(chars@.take(end as int).drop_last() =~= chars@.take(end - 1));
        }
        end = end - 1;
    }
    end
}

/// Where the last component of `chars[..to]` starts.
fn component_start(chars: &Vec<char>, to: usize) -> (start: usize)
    requires
        to <= chars@.len(),
    ensures
        start <= to,
        start == last_slash(chars@.take(to as int)) + 1,
{
    let mut i: usize = to;
    while i > 0 && chars[i - 1] != '/'
        invariant
            i <= to <= chars@.len(),
            last_slash(chars@.take(i as int)) == last_slash(chars@.take(to as int)),
        decreases i,
    {
        proof {
            assert(chars@.take(i as int).drop_last() =~= chars@.take(i - 1));
        }
        i = i - 1;
    }
    i
}

/// The last component of `path`.
pub fn file_name_of(path: &str) -> (r: Option<String>)
    ensures
        match r {
            Some(name) => file_name(path@) == Some(name@),
            None => file_name(path@) is None,
        },
{
    let chars = to_chars(path);
    let n: usize = chars.len();
    let end: usize = stripped(&chars, n);
    let start: usize = component_start(&chars, end);
    proof {
        assert(chars@.take(n as int) =~= path@);
        let t = chars@.take(end as int);
        assert(t.skip(start as int) =~= chars@.subrange(start as int, end as int));
    }
    if end == 0 {
        return None;
    }
    let ghost name = chars@.subrange(start as int, end as int);
    if end - start == 1 && chars[start] == '.' {
        proof {
            assert(name =~= seq!['.']);
        }
        return None;
    }
    if end - start == 2 && chars[start] == '.' && chars[start + 1] == '.' {
        proof {
            assert(name =~= seq!['.', '.']);
        }
        return None;
    }
    proof {
        assert(name == seq!['.'] ==> name.len() == 1 && name[0] == '.');
        assert(name == seq!['.', '.'] ==> name.len() == 2 && name[0] == '.' && name[1] == '.');
    }
    Some(string_of(&chars, start, end))
}

/// `path` without its last component.
pub fn parent_of(path: &str) -> (r: Option<String>)
    ensures
        match r {
            Some(dir) => parent(path@) == Some(dir@),
            None => parent(path@) is None,
        },
{
    let chars = to_chars(path);
    let n: usize = chars.len();
    let end: usize = stripped(&chars, n);
    let start: usize = component_start(&chars, end);
    proof {
        assert(chars@.take(n as int) =~= path@);
    }
    if end == 0 {
        return None;
    }
    if start == 0 {
        return Some(String::new());
    }
    let ghost t = chars@.take(end as int);
    proof {
        assert(t.take(start - 1) =~= chars@.take(start - 1));
    }
    let head: usize = stripped(&chars, start - 1);
    if head == 0 {
        let mut root = String::new();
        root.push('/');
        proof {
            assert(root@ =~= seq!['/']);
        }
        return Some(root);
    }
    proof {
        assert(chars@.subrange(0, head as int) =~= chars@.take(head as int));
    }
    Some(string_of(&chars, 0, head))
}

/// Whether `path` starts at the root.
pub fn is_absolute(path: &str) -> (r: bool)
    ensures
        r == absolute(path@),
{
    let chars = to_chars(path);
    chars.len() > 0 && chars[0] == '/'
}

/// `base` followed by `part`.
pub fn join(base: &str, part: &str) -> (r: String)
    ensures
        r@ == joined(base@, part@),
{
    let chars = to_chars(base);
    if is_absolute(part) || chars.len() == 0 {
        return part.to_owned();
    }
    let mut out = base.to_owned();
    if chars[chars.len() - 1] != '/' {
        out.push('/');
    }
    out.append(part);
    out
}

/// `path` with its file name replaced by `name`.
pub fn with_file_name(path: &str, name: &str) -> (r: String)
    ensures
        r@ == renamed(path@, name@),
{
    match (file_name_of(path), parent_of(path)) {
        (Some(_), Some(dir)) => join(dir.as_str(), name),
        _ => join(path, name),
    }
}

/// The view of optional text.
pub open spec fn text_of(s: Option<&str>) -> Option<Seq<char>> {
    match s {
        Some(t) => Some(t@),
        None => None,
    }
}

/// The view of optional owned text.
pub open spec fn owned_text(s: Option<String>) -> Option<Seq<char>> {
    match s {
        Some(t) => Some(t@),
        None => None,
    }
}

/// A home directory: the variable for it where that is absolute, else `below` the user's home
/// where that is absolute.
pub open spec fn home_dir(
    var: Option<Seq<char>>,
    home: Option<Seq<char>>,
    below: Seq<char>,
) -> Option<Seq<char>> {
    if var is Some && absolute(var->0) {
        var
    } else if home is Some && absolute(joined(home->0, below)) {
        Some(joined(home->0, below))
    } else {
        None
    }
}

fn home_from(var: Option<&str>, home: Option<&str>, below: &str) -> (r: Option<String>)
    ensures
        owned_text(r) == home_dir(text_of(var), text_of(home), below@),
{
    match var {
        Some(dir) => if is_absolute(dir) {
            return Some(dir.to_owned());
        },
        None => {},
    }
    match home {
        Some(home) => {
            let dir = join(home, below);
            if is_absolute(dir.as_str()) {
                Some(dir)
            } else {
                None
            }
        },
        None => None,
    }
}

/// The user's config home from the values of `$XDG_CONFIG_HOME` and `$HOME`: the first, falling
/// back to `$HOME/.config`. Relative values are rejected (a relative path would silently resolve
/// against the process cwd). `None` if neither is usable.
pub fn config_home_from(xdg_config_home: Option<&str>, home: Option<&str>) -> (r: Option<String>)
    ensures
        owned_text(r) == home_dir(text_of(xdg_config_home), text_of(home), ".config"@),
{
    home_from(xdg_config_home, home, ".config")
}

/// The user's data home from the values of `$XDG_DATA_HOME` and `$HOME`: the first, falling back
/// to `$HOME/.local/share`. Absolute-only, like [`config_home_from`].
pub fn data_home_from(xdg_data_home: Option<&str>, home: Option<&str>) -> (r: Option<String>)
    ensures
        owned_text(r) == home_dir(text_of(xdg_data_home), text_of(home), ".local/share"@),
{
    home_from(xdg_data_home, home, ".local/share")
}

/// The config file below a config home.
pub open spec fn config_file(home: Seq<char>) -> Seq<char> {
    joined(joined(home, "rewynd"@), "config.toml"@)
}

/// The config file below a config home.
pub fn config_file_in(home: &str) -> (r: String)
    ensures
        r@ == config_file(home@),
{
    let dir = join(home, "rewynd");
    join(dir.as_str(), "config.toml")
}

/// Resolve the config file path: `$XDG_CONFIG_HOME/rewynd/config.toml`, falling back to
/// `$HOME/.config/rewynd/config.toml`. `None` if neither is usable.
pub fn config_path_from(xdg_config_home: Option<&str>, home: Option<&str>) -> (r: Option<String>)
    ensures
        owned_text(r) == match home_dir(text_of(xdg_config_home), text_of(home), ".config"@) {
            Some(dir) => Some(config_file(dir)),
            None => None,
        },
{
    match config_home_from(xdg_config_home, home) {
        Some(dir) => Some(config_file_in(dir.as_str())),
        None => None,
    }
}

/// The config file path: the XDG resolution first (so `$XDG_CONFIG_HOME` stays an override
/// everywhere), then the platform's config dir, absolute-only like the first.
pub fn config_path_with(
    xdg_config_home: Option<&str>,
    home: Option<&str>,
    platform_dir: Option<&str>,
) -> (r: Option<String>)
    ensures
        owned_text(r) == match home_dir(text_of(xdg_config_home), text_of(home), ".config"@) {
            Some(dir) => Some(config_file(dir)),
            None => match text_of(platform_dir) {
                Some(dir) => if absolute(dir) {
                    Some(config_file(dir))
                } else {
                    None
                },
                None => None,
            },
        },
{
    match config_path_from(xdg_config_home, home) {
        Some(path) => Some(path),
        None => match platform_dir {
            Some(dir) => if is_absolute(dir) {
                Some(config_file_in(dir))
            } else {
                None
            },
            None => None,
        },
    }
}

/// A resolved per-user instance dir, plus whether it fell back under the shared temp dir.
/// `$XDG_RUNTIME_DIR` is private (0700) by contract; the temp fallback is world-writable, so
/// [`instance_verdict`] must verify ownership there before pid/lock files are trusted.
#[derive(Debug, Clone, PartialEq, Eq)]
pub struct InstanceDir {
    /// The directory.
    pub path: String,
    /// Whether it lies under the shared temp dir.
    pub in_shared_temp: bool,
}

/// Per-user runtime directory for rewynd's pid/lock files: `$XDG_RUNTIME_DIR/rewynd`, falling
/// back to a uid-scoped dir under the temp dir when the runtime dir is unset or relative (so the
/// guard stays per-user rather than machine-wide on a shared, world-writable `/tmp`).
pub fn instance_dir_from(runtime_dir: Option<&str>, temp: &str, uid: u32) -> (r: InstanceDir)
    ensures
        if text_of(runtime_dir) is Some && absolute(text_of(runtime_dir)->0) {
            r.path@ == joined(text_of(runtime_dir)->0, "rewynd"@) && !r.in_shared_temp
        } else {
            r.path@ == joined(temp@, "rewynd-"@ + decimal(uid as nat)) && r.in_shared_temp
        },
{
    match runtime_dir {
        Some(base) => if is_absolute(base) {
            return InstanceDir { path: join(base, "rewynd"), in_shared_temp: false };
        },
        None => {},
    }
    let mut name = "rewynd-".to_owned();
    push_decimal(&mut name, uid as u64);
    InstanceDir { path: join(temp, name.as_str()), in_shared_temp: true }
}

/// Path to the recorder's pid file. The recorder locks it (single-instance guard) and writes its
/// pid here on start; the settings app reads it to stop the running recorder before relaunching.
pub fn recorder_pid_path(dir: &InstanceDir) -> (r: String)
    ensures
        r@ == joined(dir.path@, "recorder.pid"@),
{
    join(dir.path.as_str(), "recorder.pid")
}

/// Path to the settings app's single-instance lock file.
pub fn settings_lock_path(dir: &InstanceDir) -> (r: String)
    ensures
        r@ == joined(dir.path@, "settings.lock"@),
{
    join(dir.path.as_str(), "settings.lock")
}

/// Path of the settings activation file: a pending `rewynd://clip/<name>` link dropped by a
/// refused second settings instance for the running window to pick up.
pub fn settings_activation_path(dir: &InstanceDir) -> (r: String)
    ensures
        r@ == joined(dir.path@, SETTINGS_ACTIVATION_FILE@),
{
    join(dir.path.as_str(), SETTINGS_ACTIVATION_FILE)
}

/// What to do about a directory that must be ours alone.
#[derive(Debug, Clone, Copy, PartialEq, Eq, Structural)]
pub enum DirVerdict {
    /// Use it as it is.
    Accept,
    /// It is ours but others may enter it: make it 0700, then use it.
    Tighten,
    /// It is not safely ours.
    Refuse,
}

/// Whether a mode lets anyone but the owner in.
pub open spec fn loose(mode: u32) -> bool {
    mode % 0o100 != 0
}

/// Whether a directory is ours alone: a real directory (not a symlink to one) owned by us. One
/// that others may enter is tightened, not refused: failing closed would disable the private
/// store forever.
pub fn private_verdict(is_dir: bool, owner: u32, euid: u32, mode: u32) -> (r: DirVerdict)
    ensures
        r == if !is_dir || owner != euid {
            DirVerdict::Refuse
        } else if loose(mode) {
            DirVerdict::Tighten
        } else {
            DirVerdict::Accept
        },
{
    if !is_dir || owner != euid {
        DirVerdict::Refuse
    } else if mode % 0o100 != 0 {
        DirVerdict::Tighten
    } else {
        DirVerdict::Accept
    }
}

/// What to do about the instance dir: under the runtime dir it is trusted; under the shared temp
/// dir another user could have planted the path, so it must be ours.
pub fn instance_verdict(in_shared_temp: bool, is_dir: bool, owner: u32, euid: u32, mode: u32) -> (r:
    DirVerdict)
    ensures
        !in_shared_temp ==> r == DirVerdict::Accept,
        in_shared_temp && (!is_dir || owner != euid) ==> r == DirVerdict::Refuse,
        in_shared_temp && is_dir && owner == euid ==> r == if loose(mode) {
            DirVerdict::Tighten
        } else {
            DirVerdict::Accept
        },
{
    if in_shared_temp {
        private_verdict(is_dir, owner, euid, mode)
    } else {
        DirVerdict::Accept
    }
}

/// The staging sibling for an atomic write of `path`: the full file name plus a pid-unique
/// suffix. Appended — replacing the extension would collide two files sharing a stem
/// (`settings.lock` / `settings.activate`) on the same staging name.
pub fn staged_path(path: &str, pid: u32) -> (r: String)
    ensures
        ({
            let name = match file_name(path@) {
                Some(name) => name,
                None => Seq::empty(),
            };
            r@ == renamed(path@, name + "."@ + decimal(pid as nat) + ".part"@)
        }),
{
    let mut name = match file_name_of(path) {
        Some(name) => name,
        None => String::new(),
    };
    name.append(".");
    push_decimal(&mut name, pid as u64);
    name.append(".part");
    with_file_name(path, name.as_str())
}

/// The default directory for saved clips when none is configured: a `rewynd` subfolder of the
/// user's Videos folder. `None` if that can't be resolved, in which case the caller falls back.
pub fn default_output_dir(videos: Option<&str>) -> (r: Option<String>)
    ensures
        owned_text(r) == match text_of(videos) {
            Some(dir) => Some(joined(dir, "rewynd"@)),
            None => None,
        },
{
    match videos {
        Some(dir) => Some(join(dir, "rewynd")),
        None => None,
    }
}

/// Where the recorder's log files go below the platform's local data dir.
pub fn log_dir(data: Option<&str>) -> (r: Option<String>)
    ensures
        owned_text(r) == match text_of(data) {
            Some(dir) => Some(joined(joined(dir, "rewynd"@), "logs"@)),
            None => None,
        },
{
    match data {
        Some(dir) => {
            let base = join(dir, "rewynd");
            Some(join(base.as_str(), "logs"))
        },
        None => None,
    }
}

/// `name` beside `exe`; `None` where `exe` has no parent.
pub fn sibling_of(exe: &str, name: &str) -> (r: Option<String>)
    ensures
        owned_text(r) == match parent(exe@) {
            Some(dir) => Some(joined(dir, name@)),
            None => None,
        },
{
    match parent_of(exe) {
        Some(dir) => Some(join(dir.as_str(), name)),
        None => None,
    }
}

/// A home directory is absolute wherever there is one, so that nothing resolves against the
/// process cwd.
pub proof fn law_home_is_absolute(
    var: Option<Seq<char>>,
    home: Option<Seq<char>>,
    below: Seq<char>,
)
    ensures
        home_dir(var, home, below) matches Some(dir) ==> absolute(dir),
{
}

/// The file name of a path is the name that was put there, for every name that is one: no
/// separator in it, and neither `.` nor `..` nor ending a longer name in a separator.
pub proof fn law_file_name_of_joined(base: Seq<char>, name: Seq<char>)
    requires
        name.len() > 0,
        forall|i: int| 0 <= i < name.len() ==> #[trigger] name[i] != '/',
        name != seq!['.'],
        name != seq!['.', '.'],
    ensures
        file_name(joined(base, name)) == Some(name),
{
    let s = joined(base, name);
    assert(name[0] != '/');
    let front = s.len() - name.len();
    assert(s.skip(front) =~= name);
    assert(s.last() == name.last());
    assert(name[name.len() - 1] != '/');
    if s.len() >= 2 && s.last() == '.' && s[s.len() - 2] == '/' {
        if name.len() == 1 {
            assert(name =~= seq!['.']);
        } else {
            assert(s[s.len() - 2] == name[name.len() - 2]);
        }
    }
    assert(strip_end(s) == s);
    assert forall|i: int| front <= i < s.len() implies #[trigger] s[i] != '/' by {
        assert(s[i] == name[i - front]);
    }
    lemma_last_slash_in(s, front);
}

/// Where the last `n` characters hold no separator and one stands just before them (or nothing
/// does), that is the last one.
pub proof fn lemma_last_slash_in(s: Seq<char>, front: int)
    requires
        0 <= front <= s.len(),
        forall|i: int| front <= i < s.len() ==> #[trigger] s[i] != '/',
        front > 0 ==> s[front - 1] == '/',
    ensures
        last_slash(s) == front - 1,
    decreases s.len() - front,
{
    if s.len() > front {
        assert(s[s.len() - 1] != '/');
        lemma_last_slash_in(s.drop_last(), front);
    }
}

/// Whether a text can name a file: not empty, without a separator, and neither `.` nor `..`.
pub open spec fn names_a_file(name: Seq<char>) -> bool {
    &&& name.len() > 0
    &&& forall|i: int| 0 <= i < name.len() ==> #[trigger] name[i] != '/'
    &&& !(name.len() == 1 && name[0] == '.')
    &&& !(name.len() == 2 && name[0] == '.' && name[1] == '.')
}

/// Whether a text is a folder as it is commonly written: not empty, and ending neither in a
/// separator nor in a `.` component.
pub open spec fn plain_folder(dir: Seq<char>) -> bool {
    &&& dir.len() > 0
    &&& dir.last() != '/'
    &&& !(dir.len() >= 2 && dir.last() == '.' && dir[dir.len() - 2] == '/')
}

/// A folder and a name make a path that has them as its parts.
pub proof fn lemma_two_parts(dir: Seq<char>, name: Seq<char>)
    requires
        plain_folder(dir),
        names_a_file(name),
    ensures
        file_name(dir + seq!['/'] + name) == Some(name),
        parent(dir + seq!['/'] + name) == Some(dir),
        joined(dir, name) == dir + seq!['/'] + name,
{
    let s = dir + seq!['/'] + name;
    assert(name != seq!['.']);
    assert(name != seq!['.', '.']);
    assert(name[0] != '/');
    assert(joined(dir, name) =~= s);
    law_file_name_of_joined(dir, name);
    assert(s.last() == name[name.len() - 1]);
    if s.len() >= 2 && s.last() == '.' && s[s.len() - 2] == '/' && name.len() > 1 {
        assert(s[s.len() - 2] == name[name.len() - 2]);
    }
    assert(strip_end(s) == s);
    assert forall|i: int| dir.len() + 1 <= i < s.len() implies #[trigger] s[i] != '/' by {
        assert(s[i] == name[i - dir.len() - 1]);
    }
    lemma_last_slash_in(s, dir.len() as int + 1);
    assert(s.take(dir.len() as int) =~= dir);
    assert(strip_end(dir) == dir);
}

/// What is joined holds both parts: an absolute part stands alone, as does one joined to
/// nothing; otherwise the base comes first, and exactly one separator is added where it does not
/// end in one.
pub proof fn law_join_keeps_both_parts(base: &str, part: &str, r: String)
    requires
        call_ensures(join, (base, part), r),
    ensures
        part@.len() > 0 && part@[0] == '/' ==> r@ == part@,
        base@.len() == 0 ==> r@ == part@,
        base@.len() > 0 && base@.last() == '/' && !(part@.len() > 0 && part@[0] == '/') ==> r@
            == base@ + part@,
        base@.len() > 0 && base@.last() != '/' && !(part@.len() > 0 && part@[0] == '/') ==> r@
            == base@ + seq!['/'] + part@,
{
    assert(base@.push('/') + part@ =~= base@ + seq!['/'] + part@);
}

/// A path takes apart into the folder and the name that it was written with, and another name
/// put in the place of the last one stands in the same folder.
pub proof fn law_path_takes_apart(
    dir: Seq<char>,
    name: Seq<char>,
    path: &str,
    last: Option<String>,
    folder: Option<String>,
    other: &str,
    changed: String,
    beside: Option<String>,
)
    requires
        plain_folder(dir),
        names_a_file(name),
        names_a_file(other@),
        path@ == dir + seq!['/'] + name,
        call_ensures(file_name_of, (path,), last),
        call_ensures(parent_of, (path,), folder),
        call_ensures(with_file_name, (path, other), changed),
        call_ensures(sibling_of, (path, other), beside),
    ensures
        last is Some && last->0@ == name,
        folder is Some && folder->0@ == dir,
        changed@ == dir + seq!['/'] + other@,
        beside is Some && beside->0@ == dir + seq!['/'] + other@,
{
    lemma_two_parts(dir, name);
    lemma_two_parts(dir, other@);
}

/// A file below `dir`, given by the text behind the separator.
proof fn lemma_below(dir: Seq<char>, part: Seq<char>)
    requires
        dir.len() > 0,
        dir.last() != '/',
        part.len() > 0,
        part[0] != '/',
    ensures
        joined(dir, part) == dir + seq!['/'] + part,
{
    assert(joined(dir, part) =~= dir + seq!['/'] + part);
}

/// The config file lies in the config home where that is absolute, else below an absolute home,
/// and nowhere else; the data home is found the same way.
pub proof fn law_homes_are_looked_up_in_order(
    xdg: Option<&str>,
    home: Option<&str>,
    config: Option<String>,
    data: Option<String>,
)
    requires
        xdg matches Some(x) ==> x@.len() > 0 && x@.last() != '/',
        home matches Some(h) ==> h@.len() > 0 && h@.last() != '/',
        call_ensures(config_path_from, (xdg, home), config),
        call_ensures(data_home_from, (xdg, home), data),
    ensures
        ({
            let first = xdg is Some && xdg->0@[0] == '/';
            let second = home is Some && home->0@[0] == '/';
            &&& config is Some == (first || second)
            &&& data is Some == (first || second)
            &&& first ==> config->0@ == xdg->0@ + "/rewynd/config.toml"@ && data->0@ == xdg->0@
            &&& !first && second ==> config->0@ == home->0@ + "/.config/rewynd/config.toml"@
                && data->0@ == home->0@ + "/.local/share"@
        }),
{
    reveal_strlit("rewynd");
    reveal_strlit("config.toml");
    reveal_strlit(".config");
    reveal_strlit(".local/share");
    reveal_strlit("/rewynd/config.toml");
    reveal_strlit("/.config/rewynd/config.toml");
    reveal_strlit("/.local/share");
    if xdg is Some {
        let x = xdg->0@;
        lemma_below(x, "rewynd"@);
        lemma_below(joined(x, "rewynd"@), "config.toml"@);
        assert(config_file(x) =~= x + "/rewynd/config.toml"@);
    }
    if home is Some {
        let h = home->0@;
        lemma_below(h, ".config"@);
        lemma_below(h, ".local/share"@);
        let c = joined(h, ".config"@);
        lemma_below(c, "rewynd"@);
        lemma_below(joined(c, "rewynd"@), "config.toml"@);
        assert(config_file(c) =~= h + "/.config/rewynd/config.toml"@);
        assert(joined(h, ".local/share"@) =~= h + "/.local/share"@);
        assert(absolute(c) == absolute(h));
        assert(absolute(joined(h, ".local/share"@)) == absolute(h));
    }
}

/// The instance dir lies in an absolute runtime dir, which is the user's own; without one it
/// lies in the temp dir, is marked as shared, and no two users have the same.
pub proof fn law_instance_dir_is_per_user(
    runtime: Option<&str>,
    temp: &str,
    uid: u32,
    other: u32,
    r: InstanceDir,
    s: InstanceDir,
)
    requires
        runtime matches Some(base) ==> base@.len() > 0 && base@.last() != '/',
        temp@.len() > 0 && temp@.last() != '/',
        call_ensures(instance_dir_from, (runtime, temp, uid), r),
        call_ensures(instance_dir_from, (runtime, temp, other), s),
    ensures
        runtime is Some && runtime->0@[0] == '/' ==> r.path@ == runtime->0@ + "/rewynd"@
            && !r.in_shared_temp,
        !(runtime is Some && runtime->0@[0] == '/') ==> r.in_shared_temp && crate::text::has_prefix(
            r.path@,
            temp@ + "/rewynd-"@,
        ) && (uid != other ==> r.path@ != s.path@),
{
    reveal_strlit("rewynd");
    reveal_strlit("rewynd-");
    reveal_strlit("/rewynd");
    reveal_strlit("/rewynd-");
    if runtime is Some && runtime->0@[0] == '/' {
        let base = runtime->0@;
        lemma_below(base, "rewynd"@);
        assert(base + seq!['/'] + "rewynd"@ =~= base + "/rewynd"@);
    } else {
        let (a, b) = (decimal(uid as nat), decimal(other as nat));
        let front = temp@ + "/rewynd-"@;
        lemma_below(temp@, "rewynd-"@ + a);
        lemma_below(temp@, "rewynd-"@ + b);
        assert(r.path@ =~= front + a);
        assert(s.path@ =~= front + b);
        assert(r.path@.subrange(0, front.len() as int) =~= front);
        assert((front + a).skip(front.len() as int) =~= a);
        assert((front + b).skip(front.len() as int) =~= b);
        crate::text::lemma_decimal_value(uid as nat);
        crate::text::lemma_decimal_value(other as nat);
    }
}

/// The files of the instance dir are apart from one another.
pub proof fn law_instance_files_are_apart(
    dir: InstanceDir,
    pid: String,
    lock: String,
    activation: String,
)
    requires
        plain_folder(dir.path@),
        call_ensures(recorder_pid_path, (&dir,), pid),
        call_ensures(settings_lock_path, (&dir,), lock),
        call_ensures(settings_activation_path, (&dir,), activation),
    ensures
        parent(pid@) == Some(dir.path@),
        parent(lock@) == Some(dir.path@),
        parent(activation@) == Some(dir.path@),
        pid@ != lock@,
        pid@ != activation@,
        lock@ != activation@,
{
    reveal_strlit("recorder.pid");
    reveal_strlit("settings.lock");
    reveal_strlit("settings.activate");
    lemma_two_parts(dir.path@, "recorder.pid"@);
    lemma_two_parts(dir.path@, "settings.lock"@);
    lemma_two_parts(dir.path@, SETTINGS_ACTIVATION_FILE@);
    assert("recorder.pid"@.len() != "settings.lock"@.len());
    assert("recorder.pid"@.len() != SETTINGS_ACTIVATION_FILE@.len());
    assert("settings.lock"@.len() != SETTINGS_ACTIVATION_FILE@.len());
}

/// A directory is used only where it is ours, whoever else may have made it: under the shared
/// temp dir anything but a real directory of ours is refused, one of ours that the group or
/// others may touch is tightened first, and one that is ours alone is used as it is.
pub proof fn law_shared_dir_must_be_ours(
    is_dir: bool,
    owner: u32,
    euid: u32,
    mode: u32,
    private: DirVerdict,
    shared: DirVerdict,
)
    requires
        call_ensures(private_verdict, (is_dir, owner, euid, mode), private),
        call_ensures(instance_verdict, (true, is_dir, owner, euid, mode), shared),
    ensures
        private == shared,
        private is Accept || private is Tighten ==> is_dir && owner == euid,
        is_dir && owner == euid ==> !(private is Refuse),
        private is Accept ==> mode as int % 64 == 0,
        private is Tighten ==> mode as int % 64 > 0,
{
}

/// The staging file of a write lies beside the file, and no other file of the folder and no
/// other process has the same.
pub proof fn law_staged_files_do_not_collide(
    dir: Seq<char>,
    name: Seq<char>,
    other: Seq<char>,
    path: &str,
    other_path: &str,
    pid: u32,
    other_pid: u32,
    staged: String,
    other_staged: String,
)
    requires
        plain_folder(dir),
        names_a_file(name),
        names_a_file(other),
        path@ == dir + seq!['/'] + name,
        other_path@ == dir + seq!['/'] + other,
        call_ensures(staged_path, (path, pid), staged),
        call_ensures(staged_path, (other_path, other_pid), other_staged),
    ensures
        parent(staged@) == Some(dir),
        staged@ != path@,
        staged@ == other_staged@ ==> name == other && pid == other_pid,
{
    let a = lemma_staged(dir, name, path, pid, staged);
    let b = lemma_staged(dir, other, other_path, other_pid, other_staged);
    let (x, y) = (decimal(pid as nat), decimal(other_pid as nat));
    crate::text::lemma_decimal_value(pid as nat);
    crate::text::lemma_decimal_value(other_pid as nat);
    assert(staged@.len() > path@.len());
    if staged@ == other_staged@ {
        let front = dir.len() as int + 1;
        assert(staged@.skip(front) =~= a);
        assert(other_staged@.skip(front) =~= b);
        let n = a.len() as int;
        assert(a[n - 6 - x.len()] == '.');
        assert(b[n - 6 - y.len()] == '.');
        if x.len() > y.len() {
            let k = x.len() - y.len() - 1;
            assert(a[n - 6 - y.len()] == x[k]);
            assert(crate::text::digit(x[k]));
        } else if x.len() < y.len() {
            let k = y.len() - x.len() - 1;
            assert(b[n - 6 - x.len()] == y[k]);
            assert(crate::text::digit(y[k]));
        }
        assert(x =~= a.subrange(n - 5 - x.len(), n - 5));
        assert(y =~= b.subrange(n - 5 - y.len(), n - 5));
        assert(name =~= a.take(n - 6 - x.len()));
        assert(other =~= b.take(n - 6 - y.len()));
    }
}

proof fn lemma_staged(dir: Seq<char>, name: Seq<char>, path: &str, pid: u32, staged: String) -> (last:
    Seq<char>)
    requires
        plain_folder(dir),
        names_a_file(name),
        path@ == dir + seq!['/'] + name,
        call_ensures(staged_path, (path, pid), staged),
    ensures
        last == name + seq!['.'] + decimal(pid as nat) + seq!['.', 'p', 'a', 'r', 't'],
        names_a_file(last),
        staged@ == dir + seq!['/'] + last,
        parent(staged@) == Some(dir),
{
    reveal_strlit(".");
    reveal_strlit(".part");
    crate::text::lemma_decimal_value(pid as nat);
    let x = decimal(pid as nat);
    let last = name + seq!['.'] + x + seq!['.', 'p', 'a', 'r', 't'];
    assert(name + "."@ + x + ".part"@ =~= last);
    assert forall|i: int| 0 <= i < last.len() implies #[trigger] last[i] != '/' by {
        if i < name.len() {
            assert(last[i] == name[i]);
        } else if name.len() < i <= name.len() + x.len() {
            assert(last[i] == x[i - name.len() - 1]);
            assert(crate::text::digit(x[i - name.len() - 1]));
        }
    }
    lemma_two_parts(dir, name);
    lemma_two_parts(dir, last);
    last
}

/// Clips and logs have a folder of their own below the platform's folder for them, and the
/// platform's config folder is used, where it is absolute, only after the user's.
pub proof fn law_platform_folders_hold_ours(
    dir: &str,
    clips: Option<String>,
    logs: Option<String>,
    fallback: Option<String>,
    xdg: Option<&str>,
    home: Option<&str>,
    first: Option<String>,
    with: Option<String>,
)
    requires
        dir@.len() > 0,
        dir@.last() != '/',
        call_ensures(default_output_dir, (Some(dir),), clips),
        call_ensures(log_dir, (Some(dir),), logs),
        call_ensures(config_path_with, (None, None, Some(dir)), fallback),
        call_ensures(config_path_from, (xdg, home), first),
        call_ensures(config_path_with, (xdg, home, Some(dir)), with),
    ensures
        clips is Some && clips->0@ == dir@ + "/rewynd"@,
        logs is Some && logs->0@ == dir@ + "/rewynd/logs"@,
        fallback is Some == (dir@[0] == '/'),
        fallback is Some ==> fallback->0@ == dir@ + "/rewynd/config.toml"@,
        first is Some ==> with is Some && with->0@ == first->0@,
        first is None ==> owned_text(with) == owned_text(fallback),
{
    reveal_strlit("rewynd");
    reveal_strlit("logs");
    reveal_strlit("config.toml");
    reveal_strlit("/rewynd");
    reveal_strlit("/rewynd/logs");
    reveal_strlit("/rewynd/config.toml");
    let base = joined(dir@, "rewynd"@);
    lemma_below(dir@, "rewynd"@);
    lemma_below(base, "logs"@);
    lemma_below(base, "config.toml"@);
    assert(base =~= dir@ + "/rewynd"@);
    assert(joined(base, "logs"@) =~= dir@ + "/rewynd/logs"@);
    assert(config_file(dir@) =~= dir@ + "/rewynd/config.toml"@);
}

/// A path that ends in a name has that name; one that is empty, the root, or ends in `..` has
/// none.
pub proof fn law_only_names_are_file_names(dir: Seq<char>, name: &str, r: Option<String>)
    requires
        plain_folder(dir),
        call_ensures(file_name_of, (name,), r),
    ensures
        names_a_file(name@) ==> r is Some && r->0@ == name@,
        name@.len() == 0 ==> r is None,
        name@ == seq!['/'] ==> r is None,
        name@ == seq!['.', '.'] ==> r is None,
        name@ == dir + seq!['/', '.', '.'] ==> r is None,
{
    let s = name@;
    if names_a_file(s) {
        assert(s != seq!['.'] && s != seq!['.', '.']);
        law_file_name_of_joined(Seq::empty(), s);
        assert(joined(Seq::empty(), s) == s);
    }
    if s == seq!['/'] {
        assert(s.drop_last() =~= Seq::<char>::empty());
        assert(strip_end(s.drop_last()) == s.drop_last());
    }
    if s == seq!['.', '.'] {
        assert(strip_end(s) == s);
        lemma_last_slash_in(s, 0);
        assert(s.skip(0) =~= s);
    }
    if s == dir + seq!['/', '.', '.'] {
        assert(s.last() == '.' && s[s.len() - 2] == '.');
        assert(strip_end(s) == s);
        assert(s[dir.len() as int] == '/');
        lemma_last_slash_in(s, dir.len() as int + 1);
        assert(s.skip(dir.len() as int + 1) =~= seq!['.', '.']);
    }
}

} // verus!
