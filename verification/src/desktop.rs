//! Desktop integration on Linux: the login autostart (an XDG `.desktop` entry), the launcher
//! entry (app-id registration), and the brand icons.

use crate::paths::{absolute, is_absolute, join, joined, last_slash, APP_ID};
use crate::text::{ascii_control, decimal, ends_with, find_char, first_of, has_prefix, has_suffix};
use crate::text::{is_ascii_control, is_white, lemma_first_line, lemma_first_of, lines, matches_at};
use crate::text::{lemma_trim_start, push_decimal, same, start_of_text, string_of};
use crate::text::{to_chars, to_lines, trim_start, white, word_len};
use vstd::prelude::*;

verus! {

/// One render of the brand mark.
#[derive(Debug, Clone, PartialEq, Eq)]
pub struct BrandIcon {
    /// Side length in pixels.
    pub size: u32,
    /// The PNG file.
    pub png: Vec<u8>,
}

/// The first render, from the `k`-th on, of at least `size` pixels; the last one where none is.
pub open spec fn nearest_icon(icons: Seq<BrandIcon>, size: u32, k: int) -> BrandIcon
    decreases icons.len() - k,
{
    if k >= icons.len() {
        icons.last()
    } else if icons[k].size >= size {
        icons[k]
    } else {
        nearest_icon(icons, size, k + 1)
    }
}

/// The PNG nearest at or above `size` pixels among renders that are given smallest first,
/// falling back to the largest — the one selection rule for every consumer (window icons, tray,
/// badges, the installer).
pub fn brand_png(icons: &[BrandIcon], size: u32) -> (r: &[u8])
    requires
        icons@.len() > 0,
    ensures
        r@ == nearest_icon(icons@, size, 0).png@,
{
    let mut k: usize = 0;
    while k < icons.len()
        invariant
            k <= icons@.len(),
            icons@.len() > 0,
            nearest_icon(icons@, size, 0) == nearest_icon(icons@, size, k as int),
        decreases icons@.len() - k,
    {
        if icons[k].size >= size {
            return icons[k].png.as_slice();
        }
        k = k + 1;
    }
    icons[icons.len() - 1].png.as_slice()
}

/// Whether a character must be escaped inside a quoted argument.
pub open spec fn reserved(c: char) -> bool {
    c == '"' || c == '`' || c == '$' || c == '\\'
}

/// One character of a path as it stands in an `Exec` value.
pub open spec fn exec_char(c: char) -> Seq<char> {
    if ascii_control(c) {
        Seq::empty()
    } else if c == '\\' {
        seq!['\\', '\\', '\\', '\\']
    } else if reserved(c) {
        seq!['\\', '\\', c]
    } else if c == '%' {
        seq!['%', '%']
    } else {
        seq![c]
    }
}

/// A path as it stands between the quotes of an `Exec` value.
pub open spec fn exec_body(path: Seq<char>) -> Seq<char>
    decreases path.len(),
{
    if path.len() == 0 {
        Seq::empty()
    } else {
        exec_body(path.drop_last()) + exec_char(path.last())
    }
}

/// A path as a quoted `Exec` value.
pub open spec fn exec_value(path: Seq<char>) -> Seq<char> {
    seq!['"'] + exec_body(path) + seq!['"']
}

/// Render a path as a single quoted desktop-entry `Exec` value, applying the unescaping layers
/// the Desktop Entry spec runs on read: wrap in double quotes and backslash-escape the reserved
/// characters (`"` `` ` `` `$` `\`), escape every backslash again for the string-value layer,
/// and double `%` so it can't read as a field code. So a literal `\` ends up as four
/// backslashes, and a path with spaces is simply quoted. ASCII control characters cannot be
/// represented (a newline would smuggle extra entry lines) and never occur in a legitimate
/// binary path, so they are stripped.
pub fn desktop_exec_value(path: &str) -> (r: String)
    ensures
        r@ == exec_value(path@),
{
    let chars = to_chars(path);
    let mut out = String::new();
    out.push('"');
    let mut i: usize = 0;
    proof {
        assert(path@.take(0) =~= Seq::<char>::empty());
        assert(out@ =~= seq!['"'] + exec_body(path@.take(0)));
    }
    while i < chars.len()
        invariant
            i <= chars@.len(),
            chars@ == path@,
            out@ == seq!['"'] + exec_body(path@.take(i as int)),
        decreases chars@.len() - i,
    {
        let c = chars[i];
        let ghost before = out@;
        if !is_ascii_control(c) {
            if c == '"' || c == '`' || c == '$' || c == '\\' {
                out.push('\\');
                out.push('\\');
            }
            if c == '\\' || c == '%' {
                out.push(c);
            }
            out.push(c);
        }
        proof {
            assert(path@.take(i + 1).drop_last() =~= path@.take(i as int));
            assert(out@ =~= before + exec_char(c));
            assert(out@ =~= seq!['"'] + exec_body(path@.take(i + 1)));
        }
        i = i + 1;
    }
    out.push('"');
    proof {
        assert(path@.take(path@.len() as int) =~= path@);
        assert(out@ =~= exec_value(path@));
    }
    out
}

/// What reading a string value makes of its escaped backslashes.
pub open spec fn string_layer(s: Seq<char>) -> Seq<char>
    decreases s.len(),
{
    if s.len() == 0 {
        Seq::empty()
    } else if s.len() >= 2 && s[0] == '\\' && s[1] == '\\' {
        seq!['\\'] + string_layer(s.skip(2))
    } else {
        seq![s[0]] + string_layer(s.skip(1))
    }
}

/// What expanding field codes makes of a doubled percent sign.
pub open spec fn field_layer(s: Seq<char>) -> Seq<char>
    decreases s.len(),
{
    if s.len() == 0 {
        Seq::empty()
    } else if s.len() >= 2 && s[0] == '%' && s[1] == '%' {
        seq!['%'] + field_layer(s.skip(2))
    } else {
        seq![s[0]] + field_layer(s.skip(1))
    }
}

/// What reading a quoted argument makes of what a backslash escapes.
pub open spec fn quote_layer(s: Seq<char>) -> Seq<char>
    decreases s.len(),
{
    if s.len() == 0 {
        Seq::empty()
    } else if s.len() >= 2 && s[0] == '\\' {
        seq![s[1]] + quote_layer(s.skip(2))
    } else {
        seq![s[0]] + quote_layer(s.skip(1))
    }
}

/// A path without its ASCII control characters.
pub open spec fn printable(path: Seq<char>) -> Seq<char>
    decreases path.len(),
{
    if path.len() == 0 {
        Seq::empty()
    } else if ascii_control(path[0]) {
        printable(path.skip(1))
    } else {
        seq![path[0]] + printable(path.skip(1))
    }
}

/// One character once the string layer is read.
spec fn field_char(c: char) -> Seq<char> {
    if ascii_control(c) {
        Seq::empty()
    } else if reserved(c) {
        seq!['\\', c]
    } else if c == '%' {
        seq!['%', '%']
    } else {
        seq![c]
    }
}

/// One character once the field codes are expanded, too.
spec fn quote_char(c: char) -> Seq<char> {
    if ascii_control(c) {
        Seq::empty()
    } else if reserved(c) {
        seq!['\\', c]
    } else {
        seq![c]
    }
}

spec fn field_text(path: Seq<char>) -> Seq<char>
    decreases path.len(),
{
    if path.len() == 0 {
        Seq::empty()
    } else {
        field_char(path[0]) + field_text(path.skip(1))
    }
}

spec fn quote_text(path: Seq<char>) -> Seq<char>
    decreases path.len(),
{
    if path.len() == 0 {
        Seq::empty()
    } else {
        quote_char(path[0]) + quote_text(path.skip(1))
    }
}

/// The body of a path is that of its first character and then that of the rest.
proof fn lemma_body_front(path: Seq<char>)
    requires
        path.len() > 0,
    ensures
        exec_body(path) == exec_char(path[0]) + exec_body(path.skip(1)),
    decreases path.len(),
{
    let rest = path.skip(1);
    if path.len() == 1 {
        assert(path.drop_last() =~= Seq::<char>::empty());
        assert(rest =~= Seq::<char>::empty());
        assert(exec_body(path.drop_last()) =~= Seq::<char>::empty());
        assert(exec_body(rest) =~= Seq::<char>::empty());
        assert(path.last() == path[0]);
        assert(exec_body(path) =~= exec_char(path[0]) + exec_body(rest));
    } else {
        lemma_body_front(path.drop_last());
        assert(path.drop_last().skip(1) =~= rest.drop_last());
        assert(rest.last() == path.last());
        assert(exec_body(path) =~= exec_char(path[0]) + exec_body(rest));
    }
}

proof fn lemma_string_layer(path: Seq<char>)
    ensures
        string_layer(exec_body(path)) == field_text(path),
    decreases path.len(),
{
    if path.len() > 0 {
        let c = path[0];
        let rest = exec_body(path.skip(1));
        lemma_body_front(path);
        lemma_string_layer(path.skip(1));
        let s = exec_char(c) + rest;
        if ascii_control(c) {
            assert(s =~= rest);
            assert(field_text(path) =~= field_text(path.skip(1)));
        } else if c == '\\' {
            assert(s.skip(2).skip(2) =~= rest);
            assert(string_layer(s) =~= seq!['\\'] + string_layer(s.skip(2)));
            assert(string_layer(s.skip(2)) =~= seq!['\\'] + string_layer(rest));
            assert(string_layer(s) =~= field_char(c) + string_layer(rest));
        } else if reserved(c) {
            assert(s.skip(2).skip(1) =~= rest);
            assert(s.skip(2)[0] == c);
            assert(string_layer(s.skip(2)) =~= seq![c] + string_layer(rest));
            assert(string_layer(s) =~= field_char(c) + string_layer(rest));
        } else if c == '%' {
            assert(s.skip(1).skip(1) =~= rest);
            assert(string_layer(s.skip(1)) =~= seq!['%'] + string_layer(rest));
            assert(string_layer(s) =~= field_char(c) + string_layer(rest));
        } else {
            assert(s.skip(1) =~= rest);
            assert(string_layer(s) =~= field_char(c) + string_layer(rest));
        }
    }
}

proof fn lemma_field_layer(path: Seq<char>)
    ensures
        field_layer(field_text(path)) == quote_text(path),
    decreases path.len(),
{
    if path.len() > 0 {
        let c = path[0];
        let rest = field_text(path.skip(1));
        lemma_field_layer(path.skip(1));
        let s = field_char(c) + rest;
        if ascii_control(c) {
            assert(s =~= rest);
            assert(quote_text(path) =~= quote_text(path.skip(1)));
        } else if reserved(c) {
            assert(s.skip(1).skip(1) =~= rest);
            assert(s.skip(1)[0] == c);
            assert(field_layer(s.skip(1)) =~= seq![c] + field_layer(rest));
            assert(field_layer(s) =~= quote_char(c) + field_layer(rest));
        } else if c == '%' {
            assert(s.skip(2) =~= rest);
            assert(field_layer(s) =~= quote_char(c) + field_layer(rest));
        } else {
            assert(s.skip(1) =~= rest);
            assert(field_layer(s) =~= quote_char(c) + field_layer(rest));
        }
    }
}

proof fn lemma_quote_layer(path: Seq<char>)
    ensures
        quote_layer(quote_text(path)) == printable(path),
    decreases path.len(),
{
    if path.len() > 0 {
        let c = path[0];
        let rest = quote_text(path.skip(1));
        lemma_quote_layer(path.skip(1));
        let s = quote_char(c) + rest;
        if ascii_control(c) {
            assert(s =~= rest);
        } else if reserved(c) {
            assert(s.skip(2) =~= rest);
            assert(quote_layer(s) =~= seq![c] + quote_layer(rest));
        } else {
            assert(s.skip(1) =~= rest);
            assert(quote_layer(s) =~= seq![c] + quote_layer(rest));
        }
    }
}

/// Reading an `Exec` value back — the string layer, the field codes, the quoting — gives the
/// path, without its control characters.
pub proof fn law_exec_value_reads_back(path: Seq<char>)
    ensures
        quote_layer(field_layer(string_layer(exec_body(path)))) == printable(path),
{
    lemma_string_layer(path);
    lemma_field_layer(path);
    lemma_quote_layer(path);
}

/// An `Exec` value holds no control character, so that no path can smuggle extra lines into an
/// entry.
pub proof fn law_exec_value_is_one_line(path: Seq<char>)
    ensures
        forall|i: int|
            0 <= i < exec_value(path).len() ==> !ascii_control(#[trigger] exec_value(path)[i]),
{
    lemma_body_printable(path);
    let value = exec_value(path);
    assert forall|i: int| 0 <= i < value.len() implies !ascii_control(#[trigger] value[i]) by {
        if 0 < i < value.len() - 1 {
            assert(value[i] == exec_body(path)[i - 1]);
        }
    }
}

proof fn lemma_body_printable(path: Seq<char>)
    ensures
        forall|i: int|
            0 <= i < exec_body(path).len() ==> !ascii_control(#[trigger] exec_body(path)[i]),
    decreases path.len(),
{
    if path.len() > 0 {
        lemma_body_printable(path.drop_last());
        let body = exec_body(path);
        let before = exec_body(path.drop_last());
        let last = exec_char(path.last());
        assert forall|i: int| 0 <= i < body.len() implies !ascii_control(#[trigger] body[i]) by {
            if i < before.len() {
                assert(body[i] == before[i]);
            } else {
                assert(body[i] == last[i - before.len()]);
            }
        }
    }
}

/// A minimal `[Desktop Entry]` body around an `Exec` value, with `extra` key-lines appended.
pub open spec fn entry_text(exec_line: Seq<char>, extra: Seq<char>) -> Seq<char> {
    "[Desktop Entry]\nType=Application\nName=rewynd\nComment=Instant-replay clip recorder\n"@
        + "Icon="@ + APP_ID@ + "\nExec="@ + exec_line + "\nTerminal=false\n"@ + extra
}

/// A `[Desktop Entry]` body over an already-rendered `Exec` value.
fn desktop_entry_for_exec_line(exec_line: &str, extra: &str) -> (r: String)
    ensures
        r@ == entry_text(exec_line@, extra@),
{
    let mut out =
        "[Desktop Entry]\nType=Application\nName=rewynd\nComment=Instant-replay clip recorder\n".to_owned();
    out.append("Icon=");
    out.append(APP_ID);
    out.append("\nExec=");
    out.append(exec_line);
    out.append("\nTerminal=false\n");
    out.append(extra);
    out
}

/// A minimal `[Desktop Entry]` body for `exec`, with `extra` key-lines appended — the shared
/// core of the launcher entry (app id registration) and the login autostart entry. `Icon` is
/// the app id, resolved through the icon theme.
pub fn desktop_entry(exec: &str, extra: &str) -> (r: String)
    ensures
        r@ == entry_text(exec_value(exec@), extra@),
{
    let value = desktop_exec_value(exec);
    desktop_entry_for_exec_line(value.as_str(), extra)
}

/// The `Exec` value launching the recorder at login: the recorder binary itself, or — inside an
/// AppImage, where `exec` is an ephemeral mount path — the image with `--recorder`, which the
/// GUI (the image's entry binary) turns into the recorder.
pub open spec fn autostart_line(exec: Seq<char>, appimage: Option<Seq<char>>) -> Seq<char> {
    match appimage {
        Some(image) => exec_value(image) + " --recorder"@,
        None => exec_value(exec),
    }
}

/// The autostart entry body launching `exec` (through `appimage` when set) at login.
pub open spec fn autostart_text(exec: Seq<char>, appimage: Option<Seq<char>>) -> Seq<char> {
    entry_text(autostart_line(exec, appimage), "StartupNotify=false\n"@)
}

/// The autostart entry to install, launching `exec` (through `appimage` when set) at login.
pub fn install_autostart(exec: &str, appimage: Option<&str>) -> (r: String)
    ensures
        r@ == autostart_text(exec@, crate::paths::text_of(appimage)),
{
    let line = match appimage {
        Some(image) => {
            let mut line = desktop_exec_value(image);
            line.append(" --recorder");
            line
        },
        None => desktop_exec_value(exec),
    };
    desktop_entry_for_exec_line(line.as_str(), "StartupNotify=false\n")
}

/// Whether a trimmed line of an entry begins with an `=`.
spec fn assigns(s: Seq<char>) -> bool {
    trim_start(s).len() > 0 && trim_start(s)[0] == '='
}

/// Whether a line is an `Icon` key in any of the spec's spellings: optional space around `=`,
/// optional `[locale]` suffix.
pub closed spec fn icon_line(line: Seq<char>) -> bool {
    let t = trim_start(line);
    let rest = t.skip(4);
    let mark = trim_start(rest);
    let bracketed = mark.skip(1);
    let close = first_of(bracketed, ']');
    &&& has_prefix(t, "Icon"@)
    &&& if mark.len() > 0 && mark[0] == '[' {
        close < bracketed.len() && assigns(bracketed.skip(close + 1))
    } else {
        assigns(rest)
    }
}

/// Whether an entry carries an `Icon` key.
pub open spec fn icon_key(entry: Seq<char>) -> bool {
    exists|i: int| 0 <= i < lines(entry).len() && icon_line(#[trigger] lines(entry)[i])
}

fn is_icon_line(line: &str) -> (r: bool)
    ensures
        r == icon_line(line@),
{
    proof {
        reveal_strlit("Icon");
    }
    let chars = to_chars(line);
    let n: usize = chars.len();
    proof {
        assert(chars@.subrange(0, n as int) =~= line@);
    }
    let at: usize = start_of_text(&chars, 0, n);
    let ghost t = trim_start(line@);
    proof {
        lemma_trim_start(line@);
        assert(t =~= chars@.subrange(at as int, n as int));
    }
    let key = to_chars("Icon");
    let found = matches_at(&chars, at, &key);
    proof {
        if at + 4 <= n {
            assert(t.subrange(0, 4) =~= chars@.subrange(at as int, at + 4));
        }
    }
    if !found {
        return false;
    }
    let from: usize = at + 4;
    proof {
        assert(t.skip(4) =~= chars@.subrange(from as int, n as int));
    }
    let mark: usize = start_of_text(&chars, from, n);
    proof {
        assert(trim_start(t.skip(4)) =~= chars@.subrange(mark as int, n as int));
    }
    if mark < n && chars[mark] == '[' {
        let ghost bracketed = trim_start(t.skip(4)).skip(1);
        proof {
            assert(bracketed =~= chars@.subrange(mark + 1, n as int));
            lemma_first_of(bracketed, ']');
        }
        let close: usize = find_char(&chars, mark + 1, n, ']');
        if close == n {
            return false;
        }
        let after: usize = start_of_text(&chars, close + 1, n);
        proof {
            assert(bracketed.skip(first_of(bracketed, ']') + 1) =~= chars@.subrange(
                close + 1,
                n as int,
            ));
        }
        return after < n && chars[after] == '=';
    }
    mark < n && chars[mark] == '='
}

/// Whether a desktop entry carries an `Icon` key. Used as the ownership heuristic below — every
/// entry we write (and any real packaged one) has an icon, so a missing key marks one of our own
/// pre-icon self-installs.
pub fn has_icon_key(entry: &str) -> (r: bool)
    ensures
        r == icon_key(entry@),
{
    let all = to_lines(entry);
    let mut k: usize = 0;
    while k < all.len()
        invariant
            k <= all@.len(),
            all@.len() == lines(entry@).len(),
            forall|i: int| 0 <= i < all@.len() ==> (#[trigger] all@[i])@ == lines(entry@)[i],
            forall|i: int| 0 <= i < k ==> !icon_line(#[trigger] lines(entry@)[i]),
        decreases all@.len() - k,
    {
        if is_icon_line(all[k].as_str()) {
            proof {
                assert(icon_line(lines(entry@)[k as int]));
            }
            return true;
        }
        k = k + 1;
    }
    false
}

/// The `Exec` value of the first of the lines, from the `k`-th on, that has one.
pub open spec fn exec_of_lines(all: Seq<Seq<char>>, k: int) -> Option<Seq<char>>
    decreases all.len() - k,
{
    if k >= all.len() {
        None
    } else if has_prefix(trim_start(all[k]), "Exec="@) {
        Some(trim_start(all[k]).skip(5))
    } else {
        exec_of_lines(all, k + 1)
    }
}

/// The full `Exec` value of a desktop entry.
pub open spec fn exec_of(entry: Seq<char>) -> Option<Seq<char>> {
    exec_of_lines(lines(entry), 0)
}

/// The full `Exec` value of a desktop entry, best-effort.
pub fn entry_exec_value(entry: &str) -> (r: Option<String>)
    ensures
        crate::paths::owned_text(r) == exec_of(entry@),
{
    proof {
        reveal_strlit("Exec=");
    }
    let all = to_lines(entry);
    let key = to_chars("Exec=");
    let mut k: usize = 0;
    while k < all.len()
        invariant
            k <= all@.len(),
            key@ == "Exec="@,
            key@.len() == 5,
            all@.len() == lines(entry@).len(),
            forall|i: int| 0 <= i < all@.len() ==> (#[trigger] all@[i])@ == lines(entry@)[i],
            exec_of(entry@) == exec_of_lines(lines(entry@), k as int),
        decreases all@.len() - k,
    {
        let ghost line = lines(entry@)[k as int];
        let chars = to_chars(all[k].as_str());
        let n: usize = chars.len();
        proof {
            assert(all@[k as int]@ == line);
            assert(chars@.subrange(0, n as int) =~= line);
        }
        let at: usize = start_of_text(&chars, 0, n);
        let ghost t = trim_start(line);
        proof {
            assert(t =~= chars@.subrange(at as int, n as int));
        }
        let found = matches_at(&chars, at, &key);
        proof {
            if at + 5 <= n {
                assert(t.subrange(0, 5) =~= chars@.subrange(at as int, at + 5));
            }
            assert(found == has_prefix(t, "Exec="@));
        }
        if found {
            proof {
                assert(t.skip(5) =~= chars@.subrange(at + 5, n as int));
            }
            return Some(string_of(&chars, at + 5, n));
        }
        k = k + 1;
    }
    None
}

/// The program within an `Exec` value: what the first pair of quotes holds, or the first word.
pub open spec fn program_of(value: Seq<char>) -> Seq<char> {
    if value.len() > 0 && value[0] == '"' {
        value.skip(1).take(first_of(value.skip(1), '"'))
    } else if trim_start(value).len() == 0 {
        value
    } else {
        trim_start(value).take(word_len(trim_start(value)) as int)
    }
}

/// The program path within an `Exec` value, best-effort (the Exec is a quoted path; pathological
/// paths with embedded quotes just yield a wrong program, which is harmless here).
pub fn exec_value_program(value: &str) -> (r: String)
    ensures
        r@ == program_of(value@),
{
    let chars = to_chars(value);
    let n: usize = chars.len();
    if n > 0 && chars[0] == '"' {
        let ghost rest = value@.skip(1);
        proof {
            assert(rest =~= chars@.subrange(1, n as int));
            lemma_first_of(rest, '"');
        }
        let end: usize = find_char(&chars, 1, n, '"');
        proof {
            assert(chars@.subrange(1, end as int) =~= rest.take(first_of(rest, '"')));
        }
        return string_of(&chars, 1, end);
    }
    proof {
        assert(chars@.subrange(0, n as int) =~= value@);
    }
    let from: usize = start_of_text(&chars, 0, n);
    if from == n {
        return value.to_owned();
    }
    let ghost t = trim_start(value@);
    let mut to: usize = from;
    proof {
        assert(t.skip(0) =~= t);
    }
    while to < n && !is_white(chars[to])
        invariant
            from <= to <= n,
            n == chars@.len(),
            t == chars@.subrange(from as int, n as int),
            word_len(t) == (to - from) + word_len(t.skip(to - from)),
        decreases n - to,
    {
        proof {
            assert(t.skip(to - from)[0] == chars@[to as int]);
            assert(t.skip(to - from).skip(1) =~= t.skip(to - from + 1));
        }
        to = to + 1;
    }
    proof {
        if to < n {
            assert(t.skip(to - from)[0] == chars@[to as int]);
        }
        assert(word_len(t) == to - from);
        assert(t.take(to - from) =~= chars@.subrange(from as int, to as int));
    }
    string_of(&chars, from, to)
}

/// What follows the last `/` of a program path.
pub open spec fn basename(program: Seq<char>) -> Seq<char> {
    program.skip(last_slash(program) + 1)
}

/// Whether an autostart entry of ours may launch a binary of this name: the current pair, plus
/// the pre-rename names (the recorder used to be `rewynd` — now the GUI — and the GUI
/// `rewynd-settings`).
pub open spec fn owned_name(name: Seq<char>) -> bool {
    name == "rewynd"@ || name == "rewynd-settings"@ || name == "rewynd-recorder"@
}

fn is_owned_name(name: &str) -> (r: bool)
    ensures
        r == owned_name(name@),
{
    same(name, "rewynd") || same(name, "rewynd-settings") || same(name, "rewynd-recorder")
}

fn basename_of(program: &str) -> (r: String)
    ensures
        r@ == basename(program@),
{
    let chars = to_chars(program);
    let n: usize = chars.len();
    let mut i: usize = n;
    proof {
        assert(program@.take(n as int) =~= program@);
    }
    while i > 0 && chars[i - 1] != '/'
        invariant
            i <= n,
            n == chars@.len(),
            chars@ == program@,
            last_slash(program@.take(i as int)) == last_slash(program@),
        decreases i,
    {
        proof {
            assert(program@.take(i as int).drop_last() =~= program@.take(i - 1));
        }
        i = i - 1;
    }
    proof {
        assert(last_slash(program@) == i - 1);
        assert(chars@.subrange(i as int, n as int) =~= basename(program@));
    }
    string_of(&chars, i, n)
}

/// The `Exec` value of an entry; empty where it has none.
pub open spec fn launch_value(entry: Seq<char>) -> Seq<char> {
    match exec_of(entry) {
        Some(value) => value,
        None => Seq::empty(),
    }
}

/// Whether an entry is ours to repoint.
///
/// Under an AppImage every entry launching our binary names is: a mount path dies with the
/// session, so it must be repointed at the image itself. Outside one, an entry still launching
/// an old binary name is repointed at the current recorder — otherwise boot would open the
/// library window instead of recording — but one in the `"image" --recorder` form belongs to an
/// AppImage install, and a run outside that image (a dev build, a distro package) must not
/// repoint it at its own recorder.
pub open spec fn owned(value: Seq<char>, in_appimage: bool) -> bool {
    let name = basename(program_of(value));
    if in_appimage {
        owned_name(name)
    } else {
        !has_suffix(value, " --recorder"@) && name != "rewynd-recorder"@ && owned_name(name)
    }
}

/// Whether an existing entry is to be replaced: it is not what we would write, and it is ours,
/// launches a program that is gone, or has no icon. Only an absolute program path counts as
/// verifiably gone: a bare, PATH-relying one can't be existence-checked.
pub open spec fn refreshed(
    existing: Seq<char>,
    desired: Seq<char>,
    in_appimage: bool,
    program_exists: bool,
) -> bool {
    let value = launch_value(existing);
    &&& existing != desired
    &&& owned(value, in_appimage) || (absolute(program_of(value)) && !program_exists) || !icon_key(
        existing,
    )
}

/// The program that an existing autostart entry launches.
pub fn autostart_program(existing: &str) -> (r: String)
    ensures
        r@ == program_of(launch_value(existing@)),
{
    let value = match entry_exec_value(existing) {
        Some(value) => value,
        None => String::new(),
    };
    exec_value_program(value.as_str())
}

/// Bring an existing autostart entry up to date: heal a stale program path (a moved install, or
/// an AppImage's unmounted FUSE path), migrate a pre-rename binary name, and give a pre-icon
/// entry its `Icon=` key. What is returned is to be written in its place.
///
/// `existing` is `None` where there is no entry (start-on-boot is off, and this must not turn it
/// on) or it is not text (then it is foreign). An entry launching some foreign, still-existing
/// program may be user-managed and stays untouched. `program_exists` tells of the
/// [`autostart_program`] of the entry.
pub fn refresh_autostart(
    existing: Option<&str>,
    exec: &str,
    appimage: Option<&str>,
    program_exists: bool,
) -> (r: Option<String>)
    ensures
        match existing {
            Some(entry) => {
                let desired = autostart_text(exec@, crate::paths::text_of(appimage));
                match r {
                    Some(text) => text@ == desired && refreshed(
                        entry@,
                        desired,
                        appimage is Some,
                        program_exists,
                    ),
                    None => !refreshed(entry@, desired, appimage is Some, program_exists),
                }
            },
            None => r is None,
        },
{
    let entry = match existing {
        Some(entry) => entry,
        None => {
            return None;
        },
    };
    let desired = install_autostart(exec, appimage);
    if same(entry, desired.as_str()) {
        return None;
    }
    let value = match entry_exec_value(entry) {
        Some(value) => value,
        None => String::new(),
    };
    let program = exec_value_program(value.as_str());
    let name = basename_of(program.as_str());
    let is_owned = if appimage.is_some() {
        is_owned_name(name.as_str())
    } else {
        !ends_with(value.as_str(), " --recorder") && !same(name.as_str(), "rewynd-recorder")
            && is_owned_name(name.as_str())
    };
    let stale_program = is_absolute(program.as_str()) && !program_exists;
    if is_owned || stale_program || !has_icon_key(entry) {
        return Some(desired);
    }
    None
}

/// The launcher entry to write (registering the app id, so trays/notifications resolve rewynd's
/// name and icon), unless the existing one carries an `Icon` key: then it is packaged or
/// user-managed and must stay untouched. `existing` is `None` where there is no entry. An
/// unreadable-as-text entry is foreign: this is not asked of it.
///
/// In an AppImage the launcher must point at the image itself, not the ephemeral mount path in
/// `exec`.
pub fn install_launcher_entry(existing: Option<&str>, exec: &str, appimage: Option<&str>) -> (r:
    Option<String>)
    ensures
        match r {
            Some(text) => {
                &&& existing matches Some(entry) ==> !icon_key(entry@)
                &&& text@ == entry_text(
                    exec_value(
                        match appimage {
                            Some(image) => image@,
                            None => exec@,
                        },
                    ),
                    "Categories=AudioVideo;Recorder;\n"@,
                )
            },
            None => existing matches Some(entry) && icon_key(entry@),
        },
{
    match existing {
        Some(entry) => if has_icon_key(entry) {
            return None;
        },
        None => {},
    }
    let target = match appimage {
        Some(image) => image,
        None => exec,
    };
    Some(desktop_entry(target, "Categories=AudioVideo;Recorder;\n"))
}

/// Where an entry of ours lies below a home directory: in its `folder`.
pub open spec fn entry_file(home: Seq<char>, folder: Seq<char>) -> Seq<char> {
    joined(joined(home, folder), APP_ID@ + ".desktop"@)
}

fn entry_path(home: &str, folder: &str) -> (r: String)
    ensures
        r@ == entry_file(home@, folder@),
{
    let dir = join(home, folder);
    let name = APP_ID.to_owned().concat(".desktop");
    join(dir.as_str(), name.as_str())
}

/// Path of rewynd's XDG autostart entry (`<config-home>/autostart/<APP_ID>.desktop`), or `None`
/// if there is no config home.
pub fn autostart_path(config_home: Option<&str>) -> (r: Option<String>)
    ensures
        crate::paths::owned_text(r) == match crate::paths::text_of(config_home) {
            Some(home) => Some(entry_file(home, "autostart"@)),
            None => None,
        },
{
    match config_home {
        Some(home) => Some(entry_path(home, "autostart")),
        None => None,
    }
}

/// Path of rewynd's launcher entry (`<data-home>/applications/<APP_ID>.desktop`).
pub fn launcher_path(data_home: &str) -> (r: String)
    ensures
        r@ == entry_file(data_home@, "applications"@),
{
    entry_path(data_home, "applications")
}

/// Where an icon of this size lies in a hicolor theme: `<S>x<S>/apps/<APP_ID>.png`.
pub open spec fn icon_file(hicolor: Seq<char>, size: u32) -> Seq<char> {
    joined(
        joined(joined(hicolor, decimal(size as nat) + "x"@ + decimal(size as nat)), "apps"@),
        APP_ID@ + ".png"@,
    )
}

/// Where an icon of this size lies in the theme at `hicolor`.
pub fn icon_path(hicolor: &str, size: u32) -> (r: String)
    ensures
        r@ == icon_file(hicolor@, size),
{
    let mut side = String::new();
    push_decimal(&mut side, size as u64);
    side.append("x");
    push_decimal(&mut side, size as u64);
    proof {
        assert(side@ =~= decimal(size as nat) + "x"@ + decimal(size as nat));
    }
    let dir = join(hicolor, side.as_str());
    let apps = join(dir.as_str(), "apps");
    let name = APP_ID.to_owned().concat(".png");
    join(apps.as_str(), name.as_str())
}

/// Whether the icon that is in place (if any) differs from the one that belongs there.
pub open spec fn differs(current: Option<Vec<u8>>, png: Seq<u8>) -> bool {
    !(current matches Some(bytes) && bytes@ == png)
}

/// The indices of the icons, among the first `n`, whose file is missing or stale.
pub open spec fn outdated(icons: Seq<BrandIcon>, current: Seq<Option<Vec<u8>>>, n: int) -> Seq<int>
    decreases n,
{
    if n <= 0 {
        Seq::empty()
    } else if differs(current[n - 1], icons[n - 1].png@) {
        outdated(icons, current, n - 1).push(n - 1)
    } else {
        outdated(icons, current, n - 1)
    }
}

fn same_bytes(a: &Vec<u8>, b: &Vec<u8>) -> (r: bool)
    ensures
        r == (a@ == b@),
{
    if a.len() != b.len() {
        return false;
    }
    let mut i: usize = 0;
    while i < a.len()
        invariant
            i <= a@.len(),
            a@.len() == b@.len(),
            forall|k: int| 0 <= k < i ==> a@[k] == b@[k],
        decreases a@.len() - i,
    {
        if a[i] != b[i] {
            return false;
        }
        i = i + 1;
    }
    proof {
        assert(a@ =~= b@);
    }
    true
}

/// The indices of the icons to write, given what the theme holds of each now. Only what differs
/// is written — the common case (every start after the first install) touches nothing. Unlike
/// the launcher entry a stale icon is refreshed: packaged icons never lie in the user's data
/// home, so nothing package-managed is at risk.
pub fn install_icons(icons: &[BrandIcon], current: &[Option<Vec<u8>>]) -> (r: Vec<usize>)
    requires
        icons@.len() == current@.len(),
    ensures
        r@.len() == outdated(icons@, current@, icons@.len() as int).len(),
        forall|i: int|
            0 <= i < r@.len() ==> #[trigger] r@[i] == outdated(
                icons@,
                current@,
                icons@.len() as int,
            )[i],
{
    let mut stale: Vec<usize> = Vec::new();
    let mut k: usize = 0;
    while k < icons.len()
        invariant
            k <= icons@.len(),
            icons@.len() == current@.len(),
            stale@.len() == outdated(icons@, current@, k as int).len(),
            forall|i: int|
                0 <= i < stale@.len() ==> #[trigger] stale@[i] == outdated(
                    icons@,
                    current@,
                    k as int,
                )[i],
        decreases icons@.len() - k,
    {
        let keep = match &current[k] {
            Some(bytes) => same_bytes(bytes, &icons[k].png),
            None => false,
        };
        if !keep {
            stale.push(k);
        }
        k = k + 1;
    }
    stale
}

/// An entry that was refreshed is left alone from then on, by the same install.
pub proof fn law_refresh_is_idempotent(
    exec: Seq<char>,
    appimage: Option<Seq<char>>,
    program_exists: bool,
)
    ensures
        !refreshed(
            autostart_text(exec, appimage),
            autostart_text(exec, appimage),
            appimage is Some,
            program_exists,
        ),
{
}

/// Whether a text stays on one line.
pub open spec fn one_line(s: Seq<char>) -> bool {
    forall|i: int| 0 <= i < s.len() ==> #[trigger] s[i] != '\n' && s[i] != '\r'
}

/// The lines that an entry begins with, up to the key after `Exec`.
proof fn lemma_entry_lines(exec_line: Seq<char>, extra: Seq<char>)
    requires
        one_line(exec_line),
    ensures
        lines(entry_text(exec_line, extra)).len() >= 7,
        lines(entry_text(exec_line, extra))[0] == "[Desktop Entry]"@,
        lines(entry_text(exec_line, extra))[1] == "Type=Application"@,
        lines(entry_text(exec_line, extra))[2] == "Name=rewynd"@,
        lines(entry_text(exec_line, extra))[3] == "Comment=Instant-replay clip recorder"@,
        lines(entry_text(exec_line, extra))[4] == "Icon="@ + APP_ID@,
        lines(entry_text(exec_line, extra))[5] == "Exec="@ + exec_line,
{
    reveal_strlit("[Desktop Entry]");
    reveal_strlit("Type=Application");
    reveal_strlit("Name=rewynd");
    reveal_strlit("Comment=Instant-replay clip recorder");
    reveal_strlit("Icon=");
    reveal_strlit("\nExec=");
    reveal_strlit("Exec=");
    reveal_strlit("\nTerminal=false\n");
    reveal_strlit("tv.ganked.rewynd");
    reveal_strlit(
        "[Desktop Entry]\nType=Application\nName=rewynd\nComment=Instant-replay clip recorder\n",
    );
    let nl = seq!['\n'];
    let tail = "\nTerminal=false\n"@.skip(1) + extra;
    let exec = "Exec="@ + exec_line;
    let icon = "Icon="@ + APP_ID@;
    let t5 = exec + nl + tail;
    let t4 = icon + nl + t5;
    let t3 = "Comment=Instant-replay clip recorder"@ + nl + t4;
    let t2 = "Name=rewynd"@ + nl + t3;
    let t1 = "Type=Application"@ + nl + t2;
    let t0 = "[Desktop Entry]"@ + nl + t1;
    let head =
        "[Desktop Entry]\nType=Application\nName=rewynd\nComment=Instant-replay clip recorder\n"@;
    assert(head =~= "[Desktop Entry]"@ + nl + "Type=Application"@ + nl + "Name=rewynd"@ + nl
        + "Comment=Instant-replay clip recorder"@ + nl);
    assert("\nExec="@ =~= nl + "Exec="@);
    assert("\nTerminal=false\n"@ =~= nl + "\nTerminal=false\n"@.skip(1));
    assert(entry_text(exec_line, extra) =~= t0);
    assert(one_line("[Desktop Entry]"@));
    assert(one_line("Type=Application"@));
    assert(one_line("Name=rewynd"@));
    assert(one_line("Comment=Instant-replay clip recorder"@));
    assert(one_line(icon));
    assert(one_line(exec)) by {
        assert forall|i: int| 0 <= i < exec.len() implies #[trigger] exec[i] != '\n' && exec[i]
            != '\r' by {
            if i >= 5 {
                assert(exec[i] == exec_line[i - 5]);
            }
        }
    }
    lemma_first_line("[Desktop Entry]"@, t1);
    lemma_first_line("Type=Application"@, t2);
    lemma_first_line("Name=rewynd"@, t3);
    lemma_first_line("Comment=Instant-replay clip recorder"@, t4);
    lemma_first_line(icon, t5);
    lemma_first_line(exec, tail);
    assert(tail.len() > 0);
    assert(lines(tail).len() >= 1);
}

/// The `Exec` value that an entry was written with is the one that is read from it, and the
/// entry carries an icon.
pub proof fn law_entry_reads_back(exec_line: Seq<char>, extra: Seq<char>)
    requires
        one_line(exec_line),
    ensures
        exec_of(entry_text(exec_line, extra)) == Some(exec_line),
        icon_key(entry_text(exec_line, extra)),
{
    lemma_entry_lines(exec_line, extra);
    reveal_strlit("[Desktop Entry]");
    reveal_strlit("Type=Application");
    reveal_strlit("Name=rewynd");
    reveal_strlit("Comment=Instant-replay clip recorder");
    reveal_strlit("Icon=");
    reveal_strlit("Icon");
    reveal_strlit("Exec=");
    let all = lines(entry_text(exec_line, extra));
    let wanted = "Exec="@;
    assert(wanted[0] == 'E');
    assert forall|k: int| 0 <= k < 5 implies !has_prefix(trim_start(#[trigger] all[k]), wanted) by {
        assert(all[k][0] != 'E');
        assert(trim_start(all[k]) == all[k]);
        assert(all[k].len() >= 5 ==> all[k].subrange(0, 5)[0] == all[k][0]);
    }
    let exec = all[5];
    assert(exec[0] == 'E');
    assert(trim_start(exec) == exec);
    assert(exec.subrange(0, 5) =~= wanted);
    assert(exec.skip(5) =~= exec_line);
    reveal_with_fuel(exec_of_lines, 7);
    assert(exec_of_lines(all, 0) == Some(exec_line));
    let icon = all[4];
    assert(icon[0] == 'I' && icon[4] == '=');
    assert(trim_start(icon) == icon);
    assert(icon.subrange(0, 4) =~= "Icon"@);
    assert(icon.skip(4)[0] == '=');
    assert(trim_start(icon.skip(4)) == icon.skip(4));
    assert(icon_line(all[4]));
}

/// What an `Exec` value launches is the path between its quotes, for every path that needs no
/// escape of a quote.
proof fn lemma_program_of_value(path: Seq<char>, rest: Seq<char>)
    requires
        forall|i: int| 0 <= i < path.len() ==> !reserved(#[trigger] path[i]) && path[i] != '%'
            && !ascii_control(path[i]),
    ensures
        program_of(exec_value(path) + rest) == path,
{
    lemma_plain_body(path);
    let value = exec_value(path) + rest;
    let inner = value.skip(1);
    lemma_first_of(inner, '"');
    assert(inner[path.len() as int] == '"');
    let k = first_of(inner, '"');
    if k < path.len() {
        assert(inner[k] == path[k]);
        assert(reserved(path[k]));
    }
    assert(inner.take(k) =~= path);
}

proof fn lemma_plain_body(path: Seq<char>)
    requires
        forall|i: int| 0 <= i < path.len() ==> !reserved(#[trigger] path[i]) && path[i] != '%'
            && !ascii_control(path[i]),
    ensures
        exec_body(path) == path,
    decreases path.len(),
{
    if path.len() > 0 {
        let init = path.drop_last();
        assert forall|i: int| 0 <= i < init.len() implies !reserved(#[trigger] init[i]) && init[i]
            != '%' && !ascii_control(init[i]) by {
            assert(init[i] == path[i]);
        }
        lemma_plain_body(init);
        let last = path[path.len() - 1];
        assert(exec_char(last) =~= seq![last]);
        assert(exec_body(path) =~= path);
    }
}

/// A run outside an AppImage (a dev build, a distro package) leaves the image's own autostart
/// entry alone as long as the image is there.
pub proof fn law_image_entry_is_not_hijacked(
    mounted: Seq<char>,
    image: Seq<char>,
    exec: Seq<char>,
)
    ensures
        !refreshed(
            autostart_text(mounted, Some(image)),
            autostart_text(exec, None),
            false,
            true,
        ),
{
    let line = autostart_line(mounted, Some(image));
    law_exec_value_is_one_line(image);
    reveal_strlit(" --recorder");
    let value = exec_value(image);
    assert(one_line(line)) by {
        assert forall|i: int| 0 <= i < line.len() implies #[trigger] line[i] != '\n' && line[i]
            != '\r' by {
            if i < value.len() {
                assert(line[i] == value[i]);
                assert(!ascii_control(value[i]));
            } else {
                assert(line[i] == " --recorder"@[i - value.len()]);
            }
        }
    }
    law_entry_reads_back(line, "StartupNotify=false\n"@);
    assert(line.subrange(line.len() - 11, line.len() as int) =~= " --recorder"@);
    assert(has_suffix(line, " --recorder"@));
}

/// An entry that launches the recorder where it is stays as it is for every other install: a
/// program that exists is never taken over by a differently located one.
pub proof fn law_live_recorder_entry_is_not_hijacked(exec: Seq<char>, other: Seq<char>)
    requires
        forall|i: int| 0 <= i < exec.len() ==> !reserved(#[trigger] exec[i]) && exec[i] != '%'
            && !ascii_control(exec[i]),
        basename(exec) == "rewynd-recorder"@,
    ensures
        !refreshed(autostart_text(exec, None), autostart_text(other, None), false, true),
{
    let line = autostart_line(exec, None);
    law_exec_value_is_one_line(exec);
    assert(one_line(line)) by {
        assert forall|i: int| 0 <= i < line.len() implies #[trigger] line[i] != '\n' && line[i]
            != '\r' by {
            assert(!ascii_control(line[i]));
        }
    }
    law_entry_reads_back(line, "StartupNotify=false\n"@);
    lemma_program_of_value(exec, Seq::empty());
    assert(exec_value(exec) + Seq::<char>::empty() =~= exec_value(exec));
}

/// Of renders given smallest first, the one used is no smaller than was asked for wherever one
/// is that large, and no larger than it has to be; else it is the largest.
pub proof fn law_icon_is_the_nearest(icons: &[BrandIcon], size: u32, r: &[u8]) -> (k: int)
    requires
        icons@.len() > 0,
        forall|i: int, j: int|
            0 <= i <= j < icons@.len() ==> (#[trigger] icons@[i]).size <= (#[trigger] icons@[j]).size,
        call_ensures(brand_png, (icons, size), r),
    ensures
        0 <= k < icons@.len(),
        r@ == icons@[k].png@,
        forall|i: int| 0 <= i < icons@.len() && (#[trigger] icons@[i]).size >= size ==> icons@[k].size
            >= size && icons@[k].size <= icons@[i].size,
        icons@[k].size < size ==> k == icons@.len() - 1,
{
    lemma_nearest(icons@, size, 0)
}

proof fn lemma_nearest(icons: Seq<BrandIcon>, size: u32, from: int) -> (k: int)
    requires
        0 <= from <= icons.len(),
        icons.len() > 0,
        forall|i: int, j: int|
            0 <= i <= j < icons.len() ==> (#[trigger] icons[i]).size <= (#[trigger] icons[j]).size,
        forall|i: int| 0 <= i < from ==> (#[trigger] icons[i]).size < size,
    ensures
        0 <= k < icons.len(),
        nearest_icon(icons, size, from) == icons[k],
        forall|i: int| 0 <= i < icons.len() && (#[trigger] icons[i]).size >= size ==> icons[k].size
            >= size && icons[k].size <= icons[i].size,
        icons[k].size < size ==> k == icons.len() - 1,
    decreases icons.len() - from,
{
    if from >= icons.len() {
        icons.len() - 1
    } else if icons[from].size >= size {
        from
    } else {
        lemma_nearest(icons, size, from + 1)
    }
}

/// The icons that are written are exactly those that are not there as they should be, each once
/// and in order.
pub proof fn law_outdated_icons_are_written(
    icons: &[BrandIcon],
    current: &[Option<Vec<u8>>],
    r: Vec<usize>,
    k: int,
)
    requires
        icons@.len() == current@.len(),
        call_ensures(install_icons, (icons, current), r),
    ensures
        forall|i: int, j: int| 0 <= i < j < r@.len() ==> #[trigger] r@[i] < #[trigger] r@[j],
        forall|i: int| 0 <= i < r@.len() ==> (#[trigger] r@[i]) < icons@.len(),
        forall|i: int| 0 <= i < r@.len() ==> !(current@[(#[trigger] r@[i]) as int] is Some
            && current@[r@[i] as int]->0@ == icons@[r@[i] as int].png@),
        0 <= k < icons@.len() && !(current@[k] is Some && current@[k]->0@ == icons@[k].png@)
            ==> r@.contains(k as usize),
{
    let n = icons@.len() as int;
    lemma_outdated(icons@, current@, n);
    let all = outdated(icons@, current@, n);
    assert forall|i: int, j: int| 0 <= i < j < r@.len() implies #[trigger] r@[i]
        < #[trigger] r@[j] by {
        assert(r@[i] == all[i] && r@[j] == all[j]);
    }
    assert forall|i: int| 0 <= i < r@.len() implies (#[trigger] r@[i]) < icons@.len() && !(
    current@[r@[i] as int] is Some && current@[r@[i] as int]->0@ == icons@[r@[i] as int].png@) by {
        assert(r@[i] == all[i]);
        assert(all.contains(all[i]));
    }
    if 0 <= k < icons@.len() && !(current@[k] is Some && current@[k]->0@ == icons@[k].png@) {
        assert(differs(current@[k], icons@[k].png@));
        assert(all.contains(k));
        let i = choose|i: int| 0 <= i < all.len() && all[i] == k;
        assert(r@[i] == all[i]);
        assert(r@[i] == k as usize);
    }
}

proof fn lemma_outdated(icons: Seq<BrandIcon>, current: Seq<Option<Vec<u8>>>, n: int)
    requires
        0 <= n <= icons.len(),
    ensures
        ({
            let all = outdated(icons, current, n);
            &&& forall|i: int, j: int| 0 <= i < j < all.len() ==> #[trigger] all[i] < #[trigger] all[j]
            &&& forall|k: int|
                #[trigger] all.contains(k) <==> 0 <= k < n && differs(current[k], icons[k].png@)
        }),
    decreases n,
{
    if n > 0 {
        lemma_outdated(icons, current, n - 1);
        let before = outdated(icons, current, n - 1);
        let all = outdated(icons, current, n);
        assert forall|k: int| #[trigger] all.contains(k) <==> 0 <= k < n && differs(
            current[k],
            icons[k].png@,
        ) by {
            if differs(current[n - 1], icons[n - 1].png@) {
                if all.contains(k) {
                    let i = choose|i: int| 0 <= i < all.len() && all[i] == k;
                    if i < before.len() {
                        assert(before[i] == k);
                        assert(before.contains(k));
                    }
                }
                if before.contains(k) {
                    let i = choose|i: int| 0 <= i < before.len() && before[i] == k;
                    assert(all[i] == k);
                }
                assert(all[before.len() as int] == n - 1);
            }
        }
        assert forall|i: int, j: int| 0 <= i < j < all.len() implies #[trigger] all[i]
            < #[trigger] all[j] by {
            if j == before.len() {
                assert(before.contains(before[i]));
            }
        }
    } else {
        assert(outdated(icons, current, n) =~= Seq::<int>::empty());
    }
}

/// A path of ordinary characters, spaces among them, stands in the value as it is, in quotes.
pub proof fn law_plain_exec_is_quoted(path: &str, r: String)
    requires
        forall|i: int| 0 <= i < path@.len() ==> !reserved(#[trigger] path@[i]) && path@[i] != '%'
            && !ascii_control(path@[i]),
        call_ensures(desktop_exec_value, (path,), r),
    ensures
        r@ == seq!['"'] + path@ + seq!['"'],
{
    lemma_plain_body(path@);
}

/// An entry opens with its group header and says, line by line, that it is an application, how
/// it is called and shown, and what it launches.
pub proof fn law_entry_describes_the_program(exec: &str, extra: &str, value: String, r: String)
    requires
        call_ensures(desktop_exec_value, (exec,), value),
        call_ensures(desktop_entry, (exec, extra), r),
    ensures
        lines(r@).len() >= 7,
        lines(r@)[0] == "[Desktop Entry]"@,
        lines(r@)[1] == "Type=Application"@,
        lines(r@)[2] == "Name=rewynd"@,
        lines(r@)[4] == "Icon=tv.ganked.rewynd"@,
        lines(r@)[5] == "Exec="@ + value@,
        has_suffix(r@, extra@),
{
    law_exec_value_is_one_line(exec@);
    assert(one_line(value@)) by {
        assert forall|i: int| 0 <= i < value@.len() implies #[trigger] value@[i] != '\n'
            && value@[i] != '\r' by {
            assert(!ascii_control(exec_value(exec@)[i]));
        }
    }
    lemma_entry_lines(value@, extra@);
    reveal_strlit("Icon=");
    reveal_strlit("tv.ganked.rewynd");
    reveal_strlit("Icon=tv.ganked.rewynd");
    assert("Icon="@ + APP_ID@ =~= "Icon=tv.ganked.rewynd"@);
    assert(r@.subrange(r@.len() - extra@.len(), r@.len() as int) =~= extra@);
}

proof fn lemma_exec_of_lines_shift(first: Seq<char>, all: Seq<Seq<char>>, k: int)
    requires
        0 <= k <= all.len(),
    ensures
        exec_of_lines(seq![first] + all, k + 1) == exec_of_lines(all, k),
    decreases all.len() - k,
{
    if k < all.len() {
        assert((seq![first] + all)[k + 1] == all[k]);
        lemma_exec_of_lines_shift(first, all, k + 1);
    }
}

/// What an entry launches is what its first `Exec=` line says, whatever stands before and after
/// that line.
pub proof fn law_first_exec_line_counts(
    line: Seq<char>,
    rest: &str,
    entry: &str,
    r: Option<String>,
    below: Option<String>,
)
    requires
        one_line(line),
        entry@ == line + seq!['\n'] + rest@,
        call_ensures(entry_exec_value, (entry,), r),
        call_ensures(entry_exec_value, (rest,), below),
    ensures
        line.len() >= 5 && line.take(5) == "Exec="@ ==> r is Some && r->0@ == line.skip(5),
        line.len() > 0 && !white(line[0]) && !(line.len() >= 5 && line.take(5) == "Exec="@)
            ==> r is Some == below is Some && (r is Some ==> r->0@ == below->0@),
{
    reveal_strlit("Exec=");
    lemma_first_line(line, rest@);
    let all = lines(rest@);
    assert((seq![line] + all)[0] == line);
    lemma_exec_of_lines_shift(line, all, 0);
    if line.len() >= 5 {
        assert(line.take(5) =~= line.subrange(0, 5));
        if line.take(5) == "Exec="@ {
            assert(line.take(5)[0] == 'E');
            assert(!white(line[0]));
        }
    }
    if line.len() > 0 && !white(line[0]) {
        assert(trim_start(line) == line);
    }
}

/// An entry has an icon where a line of it assigns to `Icon`, with or without a locale; a line
/// that only starts so, or speaks of something else, gives it none.
pub proof fn law_icon_key_is_an_assignment(key: Seq<char>, value: Seq<char>, line: &str, r: bool)
    requires
        one_line(key),
        one_line(value),
        line@ == key + seq!['='] + value,
        forall|i: int| 0 <= i < key.len() ==> !white(#[trigger] key[i]) && key[i] != '=',
        call_ensures(has_icon_key, (line,), r),
    ensures
        key == "Icon"@ ==> r,
        key.len() >= 6 && key.take(5) == "Icon"@.push('[') && key.last() == ']' && (forall|i: int|
            5 <= i < key.len() - 1 ==> #[trigger] key[i] != ']') ==> r,
        key.len() >= 4 && key.take(4) != "Icon"@ ==> !r,
        key.len() > 4 && key[4] != '[' ==> !r,
{
    reveal_strlit("Icon");
    let s = line@;
    assert(one_line(s)) by {
        assert forall|i: int| 0 <= i < s.len() implies #[trigger] s[i] != '\n' && s[i] != '\r' by {
            if i < key.len() {
                assert(s[i] == key[i]);
            } else if i > key.len() {
                assert(s[i] == value[i - key.len() - 1]);
            }
        }
    }
    crate::text::law_lines_end_at_newlines(s, Seq::empty());
    assert(lines(s) == seq![s]);
    assert(lines(s)[0] == s);
    assert(r == icon_line(s));
    if key.len() >= 4 {
        assert(key[0] == s[0]);
        assert(!white(key[0]));
        assert(trim_start(s) == s);
        let rest = s.skip(4);
        assert(s.subrange(0, 4) =~= key.take(4));
        assert(rest[0] == s[4]);
        if key.len() > 4 {
            assert(s[4] == key[4]);
            assert(!white(key[4]));
        } else {
            assert(s[4] == '=');
            assert(key.take(4) =~= key);
        }
        assert(trim_start(rest) == rest);
        if key.len() >= 6 && key.take(5) == "Icon"@.push('[') && key.last() == ']' && (forall|i:
            int| 5 <= i < key.len() - 1 ==> #[trigger] key[i] != ']') {
            assert(key.take(5)[4] == '[');
            assert(key.take(4) =~= key.take(5).take(4));
            assert("Icon"@.push('[').take(4) =~= "Icon"@);
            let bracketed = rest.skip(1);
            lemma_first_of(bracketed, ']');
            let close = first_of(bracketed, ']');
            assert(bracketed[key.len() - 6] == key[key.len() - 1]);
            if close < key.len() - 6 {
                assert(bracketed[close] == key[close + 5]);
            }
            assert(close == key.len() - 6);
            assert(bracketed.skip(close + 1)[0] == '=');
            assert(trim_start(bracketed.skip(close + 1)) == bracketed.skip(close + 1));
        }
    }
}

/// The program of a value is what stands in its quotes, or its first word where it has none.
pub proof fn law_program_is_the_first_word(program: Seq<char>, rest: Seq<char>, value: &str, r: String)
    requires
        program.len() > 0,
        forall|i: int| 0 <= i < program.len() ==> #[trigger] program[i] != '"',
        value@ == seq!['"'] + program + seq!['"'] + rest || (value@ == program + rest && (forall|i:
            int| 0 <= i < program.len() ==> !white(#[trigger] program[i])) && (rest.len() > 0
            ==> white(rest[0]))),
        call_ensures(exec_value_program, (value,), r),
    ensures
        r@ == program,
{
    let v = value@;
    assert(program[0] != '"');
    if v == seq!['"'] + program + seq!['"'] + rest {
        let inner = v.skip(1);
        lemma_first_of(inner, '"');
        let k = first_of(inner, '"');
        assert(inner[program.len() as int] == '"');
        if k < program.len() {
            assert(inner[k] == program[k]);
        }
        assert(inner.take(k) =~= program);
    } else {
        assert(v[0] == program[0]);
        assert(!white(program[0]));
        assert(trim_start(v) == v);
        crate::text::lemma_word_len_of(program, rest);
        assert(v.take(program.len() as int) =~= program);
    }
}

/// A refresh writes the wanted entry or nothing, never where there was none. It leaves alone an
/// entry that launches a program which is there and is not ours; it takes over one of ours, one
/// whose program is gone and one without an icon. Outside an AppImage the recorder's own entry
/// and one of an AppImage, which launches with `--recorder`, are not ours.
pub proof fn law_refresh_takes_over_only_ours(
    entry: &str,
    exec: &str,
    appimage: Option<&str>,
    program_exists: bool,
    r: Option<String>,
    none: Option<String>,
    wanted: String,
    value: Option<String>,
    text: &str,
    program: String,
    dir: Seq<char>,
    name: Seq<char>,
    icon: bool,
)
    requires
        call_ensures(refresh_autostart, (Some(entry), exec, appimage, program_exists), r),
        call_ensures(refresh_autostart, (None, exec, appimage, program_exists), none),
        call_ensures(install_autostart, (exec, appimage), wanted),
        call_ensures(entry_exec_value, (entry,), value),
        value is Some && text@ == value->0@,
        call_ensures(exec_value_program, (text,), program),
        program@ == dir + seq!['/'] + name,
        forall|i: int| 0 <= i < name.len() ==> #[trigger] name[i] != '/',
        call_ensures(has_icon_key, (entry,), icon),
    ensures
        none is None,
        entry@ == wanted@ ==> r is None,
        r matches Some(new) ==> new@ == wanted@,
        ({
            let ours = name == "rewynd"@ || name == "rewynd-settings"@;
            let recorder = name == "rewynd-recorder"@;
            let marked = text@.len() >= 11 && text@.skip(text@.len() - 11) == " --recorder"@;
            let there = program_exists || dir.len() > 0 && dir[0] != '/';
            &&& icon && there && !ours && !recorder ==> r is None
            &&& icon && there && appimage is None && (recorder || marked) ==> r is None
            &&& entry@ != wanted@ && appimage is Some && (ours || recorder) ==> r is Some
            &&& entry@ != wanted@ && appimage is None && ours && !marked ==> r is Some
            &&& entry@ != wanted@ && (!there || !icon) ==> r is Some
        }),
{
    reveal_strlit("rewynd");
    reveal_strlit("rewynd-settings");
    reveal_strlit("rewynd-recorder");
    reveal_strlit(" --recorder");
    assert("rewynd"@.len() != "rewynd-recorder"@.len());
    assert("rewynd-settings"@[7] == 's' && "rewynd-recorder"@[7] == 'r');
    lemma_basename(dir, name);
    if text@.len() >= 11 {
        assert(text@.skip(text@.len() - 11) =~= text@.subrange(
            text@.len() - 11,
            text@.len() as int,
        ));
    }
    assert(program@[0] == if dir.len() > 0 {
        dir[0]
    } else {
        '/'
    });
}

proof fn lemma_basename(dir: Seq<char>, name: Seq<char>)
    requires
        forall|i: int| 0 <= i < name.len() ==> #[trigger] name[i] != '/',
    ensures
        basename(dir + seq!['/'] + name) == name,
{
    let s = dir + seq!['/'] + name;
    assert forall|i: int| dir.len() + 1 <= i < s.len() implies #[trigger] s[i] != '/' by {
        assert(s[i] == name[i - dir.len() - 1]);
    }
    crate::paths::lemma_last_slash_in(s, dir.len() as int + 1);
    assert(s.skip(dir.len() as int + 1) =~= name);
}

/// The entries and the icons lie where a desktop looks for them.
pub proof fn law_desktop_files_lie_where_they_are_looked_for(
    home: &str,
    size: u32,
    autostart: Option<String>,
    launcher: String,
    icon: String,
)
    requires
        home@.len() > 0,
        home@.last() != '/',
        call_ensures(autostart_path, (Some(home),), autostart),
        call_ensures(launcher_path, (home,), launcher),
        call_ensures(icon_path, (home, size), icon),
    ensures
        autostart is Some && autostart->0@ == home@ + "/autostart/tv.ganked.rewynd.desktop"@,
        launcher@ == home@ + "/applications/tv.ganked.rewynd.desktop"@,
        icon@ == home@ + seq!['/'] + decimal(size as nat) + seq!['x'] + decimal(size as nat)
            + "/apps/tv.ganked.rewynd.png"@,
{
    reveal_strlit("autostart");
    reveal_strlit("applications");
    reveal_strlit("apps");
    reveal_strlit("x");
    reveal_strlit("tv.ganked.rewynd");
    reveal_strlit(".desktop");
    reveal_strlit(".png");
    reveal_strlit("/autostart/tv.ganked.rewynd.desktop");
    reveal_strlit("/applications/tv.ganked.rewynd.desktop");
    reveal_strlit("/apps/tv.ganked.rewynd.png");
    assert(entry_file(home@, "autostart"@) =~= home@ + "/autostart/tv.ganked.rewynd.desktop"@);
    assert(entry_file(home@, "applications"@) =~= home@
        + "/applications/tv.ganked.rewynd.desktop"@);
    let d = decimal(size as nat);
    crate::text::lemma_decimal_value(size as nat);
    assert(crate::text::digit(d[0]));
    let sized = d + "x"@ + d;
    assert(sized[0] != '/');
    let a = home@.push('/') + sized;
    assert(joined(home@, sized) == a);
    assert(a.last() == d[d.len() - 1]);
    assert(crate::text::digit(d[d.len() - 1]));
    assert(icon_file(home@, size) =~= home@ + seq!['/'] + d + seq!['x'] + d
        + "/apps/tv.ganked.rewynd.png"@);
}

} // verus!
