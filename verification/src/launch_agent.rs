//! Login autostart on macOS: a launchd LaunchAgent plist under `~/Library/LaunchAgents`.
//! `RunAtLoad` launches the recorder at login; `KeepAlive` stays off so quitting from the tray
//! sticks.

use crate::paths::{absolute, is_absolute, join, joined, owned_text, text_of, APP_ID};
use crate::text::{find_from, find_text, has_prefix, matches_at, same, string_of, to_chars};
use vstd::prelude::*;

verus! {

/// Where the LaunchAgent plist lies below a home directory.
pub open spec fn agent_file(home: Seq<char>) -> Seq<char> {
    joined(joined(joined(home, "Library"@), "LaunchAgents"@), APP_ID@ + ".plist"@)
}

/// Path of rewynd's LaunchAgent plist (`~/Library/LaunchAgents/<APP_ID>.plist`), or `None` if
/// `HOME` is unusable.
pub fn launch_agent_path(home: Option<&str>) -> (r: Option<String>)
    ensures
        owned_text(r) == match text_of(home) {
            Some(dir) => if absolute(dir) {
                Some(agent_file(dir))
            } else {
                None
            },
            None => None,
        },
{
    match home {
        Some(dir) => if is_absolute(dir) {
            let library = join(dir, "Library");
            let agents = join(library.as_str(), "LaunchAgents");
            let name = APP_ID.to_owned().concat(".plist");
            Some(join(agents.as_str(), name.as_str()))
        } else {
            None
        },
        None => None,
    }
}

/// One character as it stands in an XML element.
pub open spec fn xml_char(c: char) -> Seq<char> {
    if c == '&' {
        "&amp;"@
    } else if c == '<' {
        "&lt;"@
    } else if c == '>' {
        "&gt;"@
    } else {
        seq![c]
    }
}

/// A text as it stands in an XML element.
pub open spec fn xml_text(s: Seq<char>) -> Seq<char>
    decreases s.len(),
{
    if s.len() == 0 {
        Seq::empty()
    } else {
        xml_text(s.drop_last()) + xml_char(s.last())
    }
}

/// Escape the XML-reserved characters that can occur in a filesystem path (`&`, `<`, `>`), so
/// the path can't break out of its `<string>` element.
pub fn xml_escape(value: &str) -> (r: String)
    ensures
        r@ == xml_text(value@),
{
    let chars = to_chars(value);
    let mut escaped = String::new();
    let mut i: usize = 0;
    proof {
        assert(value@.take(0) =~= Seq::<char>::empty());
        assert(escaped@ =~= xml_text(value@.take(0)));
    }
    while i < chars.len()
        invariant
            i <= chars@.len(),
            chars@ == value@,
            escaped@ == xml_text(value@.take(i as int)),
        decreases chars@.len() - i,
    {
        let c = chars[i];
        let ghost before = escaped@;
        if c == '&' {
            escaped.append("&amp;");
        } else if c == '<' {
            escaped.append("&lt;");
        } else if c == '>' {
            escaped.append("&gt;");
        } else {
            escaped.push(c);
        }
        proof {
            assert(value@.take(i + 1).drop_last() =~= value@.take(i as int));
            assert(escaped@ =~= before + xml_char(c));
        }
        i = i + 1;
    }
    proof {
        assert(value@.take(value@.len() as int) =~= value@);
    }
    escaped
}

/// An escaped text holds no angle bracket, so that it can't break out of its element.
pub proof fn law_escaped_text_stays_in_its_element(s: Seq<char>)
    ensures
        forall|i: int|
            0 <= i < xml_text(s).len() ==> #[trigger] xml_text(s)[i] != '<' && xml_text(s)[i]
                != '>',
    decreases s.len(),
{
    if s.len() > 0 {
        law_escaped_text_stays_in_its_element(s.drop_last());
        reveal_strlit("&amp;");
        reveal_strlit("&lt;");
        reveal_strlit("&gt;");
        let text = xml_text(s);
        let before = xml_text(s.drop_last());
        let last = xml_char(s.last());
        assert forall|i: int| 0 <= i < text.len() implies #[trigger] text[i] != '<' && text[i]
            != '>' by {
            if i < before.len() {
                assert(text[i] == before[i]);
            } else {
                assert(text[i] == last[i - before.len()]);
            }
        }
    }
}

/// What a text that stands in an XML element says.
pub open spec fn plain_text(s: Seq<char>) -> Seq<char>
    decreases s.len(),
{
    if s.len() == 0 {
        Seq::empty()
    } else if has_prefix(s, "&amp;"@) && s.len() >= 5 {
        seq!['&'] + plain_text(s.skip(5))
    } else if has_prefix(s, "&lt;"@) && s.len() >= 4 {
        seq!['<'] + plain_text(s.skip(4))
    } else if has_prefix(s, "&gt;"@) && s.len() >= 4 {
        seq!['>'] + plain_text(s.skip(4))
    } else {
        seq![s[0]] + plain_text(s.skip(1))
    }
}

/// Undo [`xml_escape`].
pub fn xml_unescape(value: &str) -> (r: String)
    ensures
        r@ == plain_text(value@),
{
    proof {
        reveal_strlit("&amp;");
        reveal_strlit("&lt;");
        reveal_strlit("&gt;");
    }
    let chars = to_chars(value);
    let (amp, lt, gt) = (to_chars("&amp;"), to_chars("&lt;"), to_chars("&gt;"));
    let mut plain = String::new();
    let mut i: usize = 0;
    proof {
        assert(value@.skip(0) =~= value@);
        assert(plain@ + plain_text(value@) =~= plain_text(value@));
    }
    while i < chars.len()
        invariant
            i <= chars@.len(),
            chars@ == value@,
            amp@ == "&amp;"@,
            lt@ == "&lt;"@,
            gt@ == "&gt;"@,
            amp@.len() == 5,
            lt@.len() == 4,
            gt@.len() == 4,
            plain@ + plain_text(value@.skip(i as int)) == plain_text(value@),
        decreases chars@.len() - i,
    {
        let ghost rest = value@.skip(i as int);
        let ghost before = plain@;
        let (c, n): (char, usize) = if matches_at(&chars, i, &amp) {
            ('&', 5)
        } else if matches_at(&chars, i, &lt) {
            ('<', 4)
        } else if matches_at(&chars, i, &gt) {
            ('>', 4)
        } else {
            (chars[i], 1)
        };
        proof {
            assert(rest.len() >= 5 ==> rest.subrange(0, 5) =~= chars@.subrange(i as int, i + 5));
            assert(rest.len() >= 4 ==> rest.subrange(0, 4) =~= chars@.subrange(i as int, i + 4));
            assert(rest[0] == chars@[i as int]);
            assert(rest.skip(n as int) =~= value@.skip(i + n));
            assert(plain_text(rest) == seq![c] + plain_text(value@.skip(i + n)));
        }
        plain.push(c);
        proof {
            assert(plain@ + plain_text(value@.skip(i + n)) =~= before + plain_text(rest));
        }
        i = i + n;
    }
    proof {
        assert(plain@ + plain_text(value@.skip(i as int)) =~= plain@);
    }
    plain
}

/// The first character of an escaped text stands for the first character.
proof fn lemma_xml_text_front(s: Seq<char>)
    requires
        s.len() > 0,
    ensures
        xml_text(s) == xml_char(s[0]) + xml_text(s.skip(1)),
    decreases s.len(),
{
    let init = s.drop_last();
    if s.len() == 1 {
        assert(init =~= Seq::<char>::empty());
        assert(s.skip(1) =~= Seq::<char>::empty());
        assert(xml_text(s) =~= xml_char(s[0]) + xml_text(s.skip(1)));
    } else {
        lemma_xml_text_front(init);
        assert(s.skip(1).drop_last() =~= init.skip(1));
        assert(xml_text(s) =~= xml_char(s[0]) + xml_text(s.skip(1)));
    }
}

/// A text that was escaped is read back as it was.
pub proof fn law_escaped_text_reads_back(s: Seq<char>)
    ensures
        plain_text(xml_text(s)) == s,
    decreases s.len(),
{
    reveal_strlit("&amp;");
    reveal_strlit("&lt;");
    reveal_strlit("&gt;");
    if s.len() > 0 {
        let text = xml_text(s);
        let rest = xml_text(s.skip(1));
        let front = xml_char(s[0]);
        lemma_xml_text_front(s);
        law_escaped_text_reads_back(s.skip(1));
        assert(text.skip(front.len() as int) =~= rest);
        assert(text.subrange(0, front.len() as int) =~= front);
        assert(text[0] == front[0]);
        if s[0] == '<' || s[0] == '>' {
            assert(text[1] == front[1]);
            assert(has_prefix(text, "&amp;"@) ==> text.subrange(0, 5)[1] == 'a');
            assert(has_prefix(text, "&lt;"@) ==> text.subrange(0, 4)[1] == 'l');
        } else if s[0] != '&' {
            assert(has_prefix(text, "&amp;"@) ==> text.subrange(0, 5)[0] == '&');
            assert(has_prefix(text, "&lt;"@) ==> text.subrange(0, 4)[0] == '&');
            assert(has_prefix(text, "&gt;"@) ==> text.subrange(0, 4)[0] == '&');
        }
        assert(seq![s[0]] + s.skip(1) =~= s);
    }
}

/// The LaunchAgent plist launching `exec` at login.
pub open spec fn plist_text(exec: Seq<char>) -> Seq<char> {
    "<?xml version=\"1.0\" encoding=\"UTF-8\"?>\n<!DOCTYPE plist PUBLIC \"-//Apple//DTD PLIST 1.0//EN\" \"http://www.apple.com/DTDs/PropertyList-1.0.dtd\">\n<plist version=\"1.0\">\n<dict>\n\t<key>Label</key>\n\t<string>"@
        + APP_ID@
        + "</string>\n\t<key>ProgramArguments</key>\n\t<array>\n\t\t<string>"@ + xml_text(exec)
        + "</string>\n\t</array>\n\t<key>RunAtLoad</key>\n\t<true/>\n\t<key>KeepAlive</key>\n\t<false/>\n</dict>\n</plist>\n"@
}

/// The LaunchAgent plist launching `exec` at login.
pub fn launch_agent_plist(exec: &str) -> (r: String)
    ensures
        r@ == plist_text(exec@),
{
    let mut out =
        "<?xml version=\"1.0\" encoding=\"UTF-8\"?>\n<!DOCTYPE plist PUBLIC \"-//Apple//DTD PLIST 1.0//EN\" \"http://www.apple.com/DTDs/PropertyList-1.0.dtd\">\n<plist version=\"1.0\">\n<dict>\n\t<key>Label</key>\n\t<string>".to_owned();
    out.append(APP_ID);
    out.append("</string>\n\t<key>ProgramArguments</key>\n\t<array>\n\t\t<string>");
    out.append(xml_escape(exec).as_str());
    out.append(
        "</string>\n\t</array>\n\t<key>RunAtLoad</key>\n\t<true/>\n\t<key>KeepAlive</key>\n\t<false/>\n</dict>\n</plist>\n",
    );
    out
}

/// What stands behind the first `mark` from the `k`-th place on, or -1.
pub open spec fn behind(s: Seq<char>, mark: Seq<char>, k: int) -> int {
    if find_from(s, mark, k) < 0 {
        -1
    } else {
        find_from(s, mark, k) + mark.len()
    }
}

/// The program that a plist launches: what the first `<string>` after the `ProgramArguments` key
/// says.
pub open spec fn program_in(plist: Seq<char>) -> Option<Seq<char>> {
    let arguments = behind(plist, "<key>ProgramArguments</key>"@, 0);
    let start = behind(plist, "<string>"@, arguments);
    let end = find_from(plist, "</string>"@, start);
    if arguments < 0 || start < 0 || end < 0 {
        None
    } else {
        Some(plain_text(plist.subrange(start, end)))
    }
}

/// The program a LaunchAgent plist launches, best-effort (our own plist shape; a hand-built
/// exotic one simply yields `None` and is left alone).
pub fn plist_program(plist: &str) -> (r: Option<String>)
    ensures
        owned_text(r) == program_in(plist@),
{
    let chars = to_chars(plist);
    proof {
        reveal_strlit("<key>ProgramArguments</key>");
        reveal_strlit("<string>");
        assert(chars.len() == chars@.len());
    }
    let arguments: usize = match find_text(&chars, 0, "<key>ProgramArguments</key>") {
        Some(k) => k + 27,
        None => {
            return None;
        },
    };
    let start: usize = match find_text(&chars, arguments, "<string>") {
        Some(k) => k + 8,
        None => {
            return None;
        },
    };
    match find_text(&chars, start, "</string>") {
        Some(end) => {
            let escaped = string_of(&chars, start, end);
            Some(xml_unescape(escaped.as_str()))
        },
        None => None,
    }
}

/// What was found where the agent's plist lies.
#[derive(Debug)]
pub enum AgentFile<'a> {
    /// Nothing: start-on-login is off.
    Missing,
    /// A file that is not text.
    NotText,
    /// A plist.
    Text(&'a str),
}

/// Whether the agent is to be rewritten: one whose program no longer exists (the install moved
/// with an update), and an unreadable one, which is ours (our label, our filename).
pub open spec fn repointed(found: AgentFile, exec: Seq<char>, program_exists: bool) -> bool {
    match found {
        AgentFile::Missing => false,
        AgentFile::NotText => true,
        AgentFile::Text(existing) => existing@ != plist_text(exec) && program_in(existing@) is Some
            && !program_exists,
    }
}

/// Repoint an existing agent whose program no longer exists. What is returned is to be written
/// in its place. A missing agent means start-on-login is off and must stay off, and a plist
/// launching a live binary (ours from another install, or user-customized) is not touched, so a
/// dev build never hijacks a packaged install's autostart. `program_exists` tells of the
/// [`plist_program`] of the plist.
pub fn refresh_autostart(found: AgentFile, exec: &str, program_exists: bool) -> (r: Option<String>)
    ensures
        match r {
            Some(text) => repointed(found, exec@, program_exists) && text@ == plist_text(exec@),
            None => !repointed(found, exec@, program_exists),
        },
{
    let desired = launch_agent_plist(exec);
    match found {
        AgentFile::Missing => None,
        AgentFile::NotText => Some(desired),
        AgentFile::Text(existing) => {
            if same(existing, desired.as_str()) || program_exists {
                return None;
            }
            match plist_program(existing) {
                Some(_) => Some(desired),
                None => None,
            }
        },
    }
}

/// A refresh never turns start-on-login on, leaves a plist alone that launches a program which
/// is there, and otherwise writes the plist of `exec`, which the next refresh leaves alone.
pub proof fn law_refresh_leaves_live_agents_alone(
    found: AgentFile,
    exec: &str,
    program_exists: bool,
    r: Option<String>,
    desired: String,
    written: &str,
    exists_then: bool,
    again: Option<String>,
)
    requires
        call_ensures(refresh_autostart, (found, exec, program_exists), r),
        call_ensures(launch_agent_plist, (exec,), desired),
        written@ == desired@,
        call_ensures(refresh_autostart, (AgentFile::Text(written), exec, exists_then), again),
    ensures
        found is Missing ==> r is None,
        found is Text && program_exists ==> r is None,
        found is NotText ==> r is Some,
        r matches Some(text) ==> text@ == desired@,
        again is None,
{
}

/// The agent's plist lies in the user's `Library/LaunchAgents`.
pub proof fn law_agent_lies_in_launch_agents(home: &str, r: Option<String>)
    requires
        home@.len() > 0,
        home@.last() != '/',
        call_ensures(launch_agent_path, (Some(home),), r),
    ensures
        r is Some == (home@[0] == '/'),
        r matches Some(path) ==> path@ == home@
            + "/Library/LaunchAgents/tv.ganked.rewynd.plist"@,
{
    reveal_strlit("Library");
    reveal_strlit("LaunchAgents");
    reveal_strlit("tv.ganked.rewynd");
    reveal_strlit(".plist");
    reveal_strlit("/Library/LaunchAgents/tv.ganked.rewynd.plist");
    let a = home@.push('/') + "Library"@;
    assert(joined(home@, "Library"@) == a);
    let b = a.push('/') + "LaunchAgents"@;
    assert(joined(a, "LaunchAgents"@) == b);
    assert(joined(b, APP_ID@ + ".plist"@) =~= home@
        + "/Library/LaunchAgents/tv.ganked.rewynd.plist"@);
}

/// The search finds a part that stands at `at` where nothing before it can start one.
proof fn lemma_found_at(s: Seq<char>, part: Seq<char>, k: int, at: int)
    requires
        0 <= k <= at,
        at + part.len() <= s.len(),
        s.subrange(at, at + part.len()) == part,
        forall|j: int| k <= j < at ==> #[trigger] s.subrange(j, j + part.len()) != part,
    ensures
        find_from(s, part, k) == at,
{
    crate::text::lemma_find_from(s, part, k);
}

/// The program of a plist that was written for `exec` is `exec`.
pub proof fn law_plist_program_reads_back(
    exec: &str,
    plist: String,
    text: &str,
    program: Option<String>,
)
    requires
        call_ensures(launch_agent_plist, (exec,), plist),
        text@ == plist@,
        call_ensures(plist_program, (text,), program),
    ensures
        program is Some && program->0@ == exec@,
{
    lemma_plist_reads_back(exec@);
}

proof fn lemma_plist_reads_back(exec: Seq<char>)
    ensures
        program_in(plist_text(exec)) == Some(exec),
{
    let head =
        "<?xml version=\"1.0\" encoding=\"UTF-8\"?>\n<!DOCTYPE plist PUBLIC \"-//Apple//DTD PLIST 1.0//EN\" \"http://www.apple.com/DTDs/PropertyList-1.0.dtd\">\n<plist version=\"1.0\">\n<dict>\n\t<key>Label</key>\n\t<string>"@;
    let middle = "</string>\n\t<key>ProgramArguments</key>\n\t<array>\n\t\t<string>"@;
    let foot =
        "</string>\n\t</array>\n\t<key>RunAtLoad</key>\n\t<true/>\n\t<key>KeepAlive</key>\n\t<false/>\n</dict>\n</plist>\n"@;
    reveal_strlit(
        "<?xml version=\"1.0\" encoding=\"UTF-8\"?>\n<!DOCTYPE plist PUBLIC \"-//Apple//DTD PLIST 1.0//EN\" \"http://www.apple.com/DTDs/PropertyList-1.0.dtd\">\n<plist version=\"1.0\">\n<dict>\n\t<key>Label</key>\n\t<string>",
    );
    reveal_strlit("</string>\n\t<key>ProgramArguments</key>\n\t<array>\n\t\t<string>");
    reveal_strlit(
        "</string>\n\t</array>\n\t<key>RunAtLoad</key>\n\t<true/>\n\t<key>KeepAlive</key>\n\t<false/>\n</dict>\n</plist>\n",
    );
    reveal_strlit("tv.ganked.rewynd");
    reveal_strlit("<key>ProgramArguments</key>");
    reveal_strlit("<string>");
    reveal_strlit("</string>");
    let key = "<key>ProgramArguments</key>"@;
    let s = plist_text(exec);
    let body = xml_text(exec);
    let front = head + APP_ID@;
    let n = front.len() as int;
    assert(s =~= front + middle + body + foot);
    let key_at = n + 11;
    assert(s.subrange(key_at, key_at + key.len()) =~= key);
    assert forall|j: int| 0 <= j < key_at implies #[trigger] s.subrange(j, j + key.len())
        != key by {
        let here = s.subrange(j, j + key.len());
        assert(here[5] == s[j + 5]);
        assert(key[5] == 'P');
        assert(here[6] == s[j + 6]);
        assert(key[6] == 'r');
        assert(here[7] == s[j + 7]);
        assert(key[7] == 'o');
        assert(here[8] == s[j + 8]);
        assert(key[8] == 'g');
        assert(here[4] == s[j + 4]);
        assert(key[4] == '>');
        assert(s[j + 4] == (front + middle)[j + 4]);
        assert(s[j + 5] == (front + middle)[j + 5]);
    }
    lemma_found_at(s, key, 0, key_at);
    let arguments = key_at + key.len();
    let open = "<string>"@;
    let open_at = n + middle.len() - 8;
    assert(s.subrange(open_at, open_at + 8) =~= open);
    assert forall|j: int| arguments <= j < open_at implies #[trigger] s.subrange(
        j,
        j + open.len(),
    ) != open by {
        let here = s.subrange(j, j + open.len());
        assert(here[1] == s[j + 1]);
        assert(open[1] == 's');
        assert(here[0] == s[j]);
        assert(open[0] == '<');
        assert(s[j] == middle[j - n]);
        assert(s[j + 1] == middle[j + 1 - n]);
    }
    lemma_found_at(s, open, arguments, open_at);
    let start = open_at + 8;
    let close = "</string>"@;
    let end = start + body.len();
    assert(s.subrange(end, end + close.len()) =~= close);
    law_escaped_text_stays_in_its_element(exec);
    assert forall|j: int| start <= j < end implies #[trigger] s.subrange(j, j + close.len())
        != close by {
        let here = s.subrange(j, j + close.len());
        assert(here[0] == s[j]);
        assert(s[j] == body[j - start]);
        assert(close[0] == '<');
    }
    lemma_found_at(s, close, start, end);
    assert(s.subrange(start, end) =~= body);
    law_escaped_text_reads_back(exec);
}

} // verus!
