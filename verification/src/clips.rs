//! The clip store: where clips live, what they are called, and what is in there.

use crate::paths::{file_name, file_name_of, join, joined, owned_text, text_of};
use crate::text::{byte_len, code, collapse, collapsed, control, decimal, digit, ends_with};
use crate::text::{find_char, first_of, has_prefix, has_suffix, is_control, is_less};
use crate::text::{law_parse_decimal, lemma_byte_len_grows, lemma_collapse_of_tidy};
use crate::text::{lemma_collapse_tidy, lemma_decimal_value, lemma_first_of, less, parse_unsigned};
use crate::text::{parse_up_to, push_decimal, starts_with, string_of, tidy, to_chars, utf8_len_of};
use crate::text::{white};
use vstd::prelude::*;

verus! {

/// Longest folder name, in bytes.
pub const MAX_FOLDER_BYTES: u64 = 80;

/// One saved clip found in the output directory. Times are nanoseconds since the Unix epoch.
#[derive(Debug, PartialEq, Eq)]
pub struct ClipEntry {
    /// The clip's path.
    pub path: String,
    /// The per-game subfolder the clip sits in (`None` for the output root).
    pub game: Option<String>,
    /// When the clip was saved: the millisecond stamp in the file name, falling back to the
    /// file's mtime.
    pub saved_at: i128,
    /// The file's mtime — the thumbnail cache key, which must notice a rewritten file even
    /// when the name (and thus `saved_at`) is unchanged.
    pub modified: i128,
    /// The file's size.
    pub size_bytes: u64,
}

/// Where clips live: `configured` if set, else the `default` folder, else the `private` one.
/// The single resolution the saver, the tray fallback, and the library view all share —
/// divergence here would make saved clips invisible somewhere.
pub fn clips_dir(configured: Option<&str>, default: Option<&str>, private: &str) -> (r: String)
    ensures
        r@ == match text_of(configured) {
            Some(dir) => dir,
            None => match text_of(default) {
                Some(dir) => dir,
                None => private@,
            },
        },
{
    match configured {
        Some(dir) => dir.to_owned(),
        None => match default {
            Some(dir) => dir.to_owned(),
            None => private.to_owned(),
        },
    }
}

/// Whether a file name looks like one of our clips.
pub open spec fn clip_name(name: Seq<char>) -> bool {
    has_prefix(name, "rewynd-"@) && has_suffix(name, ".mp4"@)
}

/// Whether a file name looks like one of our clips.
pub fn is_clip_name(name: &str) -> (r: bool)
    ensures
        r == clip_name(name@),
{
    starts_with(name, "rewynd-") && ends_with(name, ".mp4")
}

/// The millisecond timestamp embedded in a `rewynd-<millis>-<seq>.mp4` name, if both numbers
/// are there.
pub open spec fn stamp(name: Seq<char>) -> Option<nat> {
    let tail = name.skip(7);
    let rest = tail.take(tail.len() - 4);
    let dash = first_of(rest, '-');
    if !has_prefix(name, "rewynd-"@) || !has_suffix(tail, ".mp4"@) || dash >= rest.len() {
        None
    } else {
        match parse_unsigned(rest.skip(dash + 1), u64::MAX as nat) {
            Some(_) => parse_unsigned(rest.take(dash), u64::MAX as nat),
            None => None,
        }
    }
}

/// The millisecond timestamp embedded in a `rewynd-<millis>-<seq>.mp4` name, if it parses.
pub fn clip_stamp_millis(name: &str) -> (r: Option<u64>)
    ensures
        match r {
            Some(millis) => stamp(name@) == Some(millis as nat),
            None => stamp(name@) is None,
        },
{
    proof {
        reveal_strlit("rewynd-");
        reveal_strlit(".mp4");
    }
    if !starts_with(name, "rewynd-") {
        return None;
    }
    let chars = to_chars(name);
    let n: usize = chars.len();
    let tail = string_of(&chars, 7, n);
    proof {
        assert(tail@ =~= name@.skip(7));
    }
    if !ends_with(tail.as_str(), ".mp4") {
        return None;
    }
    let end: usize = n - 4;
    let dash: usize = find_char(&chars, 7, end, '-');
    let ghost rest = tail@.take(tail@.len() - 4);
    proof {
        assert(chars@.subrange(7, end as int) =~= rest);
    }
    if dash == end {
        return None;
    }
    proof {
        assert(chars@.subrange(dash + 1, end as int) =~= rest.skip(dash - 7 + 1));
        assert(chars@.subrange(7, dash as int) =~= rest.take(dash - 7));
    }
    match parse_up_to(&chars, dash + 1, end, u64::MAX) {
        Some(_) => parse_up_to(&chars, 7, dash, u64::MAX),
        None => None,
    }
}

/// A directory entry as a clip, or `None` when it isn't one.
pub fn clip_entry(path: &str, name: &str, game: Option<String>, modified: i128, size_bytes: u64) -> (r:
    Option<ClipEntry>)
    ensures
        match r {
            Some(clip) => clip_name(name@) && clip.path@ == path@ && clip.game == game
                && clip.modified == modified && clip.size_bytes == size_bytes && clip.saved_at
                == match stamp(name@) {
                Some(millis) => (millis * 1_000_000) as int,
                None => modified as int,
            },
            None => !clip_name(name@),
        },
{
    if !is_clip_name(name) {
        return None;
    }
    let saved_at: i128 = match clip_stamp_millis(name) {
        Some(millis) => millis as i128 * 1_000_000,
        None => modified,
    };
    Some(ClipEntry { path: path.to_owned(), game, saved_at, modified, size_bytes })
}

/// Whether `a` comes before `b` in the library: saved later, or at the same instant and with
/// the later path, which breaks ties stably. In the order of paths a separator comes before
/// every other character.
pub open spec fn newer(a: ClipEntry, b: ClipEntry) -> bool {
    a.saved_at > b.saved_at || (a.saved_at == b.saved_at && path_less(b.path@, a.path@))
}

/// Whether path `a` comes before path `b`, component by component.
pub open spec fn path_less(a: Seq<char>, b: Seq<char>) -> bool
    decreases a.len(),
{
    if b.len() == 0 {
        false
    } else if a.len() == 0 {
        true
    } else if a[0] != b[0] {
        a[0] == '/' || (b[0] != '/' && (a[0] as int) < (b[0] as int))
    } else {
        path_less(a.skip(1), b.skip(1))
    }
}

fn is_path_less(a: &str, b: &str) -> (r: bool)
    ensures
        r == path_less(a@, b@),
{
    let left = to_chars(a);
    let right = to_chars(b);
    let mut i: usize = 0;
    proof {
        assert(a@.skip(0) =~= a@);
        assert(b@.skip(0) =~= b@);
    }
    while i < left.len() && i < right.len()
        invariant
            i <= left@.len(),
            i <= right@.len(),
            left@ == a@,
            right@ == b@,
            path_less(a@, b@) == path_less(a@.skip(i as int), b@.skip(i as int)),
        decreases left@.len() - i,
    {
        let x = left[i];
        let y = right[i];
        proof {
            assert(a@.skip(i as int)[0] == x && b@.skip(i as int)[0] == y);
            assert(a@.skip(i as int).skip(1) =~= a@.skip(i + 1));
            assert(b@.skip(i as int).skip(1) =~= b@.skip(i + 1));
        }
        if x != y {
            return x == '/' || (y != '/' && code(x) < code(y));
        }
        i = i + 1;
    }
    i < right.len()
}

fn is_newer(a: &ClipEntry, b: &ClipEntry) -> (r: bool)
    ensures
        r == newer(*a, *b),
{
    a.saved_at > b.saved_at || (a.saved_at == b.saved_at && is_path_less(
        b.path.as_str(),
        a.path.as_str(),
    ))
}

/// Two paths are not each before the other.
proof fn lemma_path_less_asymmetric(a: Seq<char>, b: Seq<char>)
    ensures
        !(path_less(a, b) && path_less(b, a)),
    decreases a.len(),
{
    if a.len() > 0 && b.len() > 0 && a[0] == b[0] {
        lemma_path_less_asymmetric(a.skip(1), b.skip(1));
    }
}

/// What comes before something that does not come after a third does not come after the third.
proof fn lemma_path_less_steps(a: Seq<char>, b: Seq<char>, c: Seq<char>)
    requires
        !path_less(b, a),
        !path_less(c, b),
    ensures
        !path_less(c, a),
    decreases a.len(),
{
    if a.len() > 0 && b.len() > 0 && c.len() > 0 && a[0] == b[0] && b[0] == c[0] {
        lemma_path_less_steps(a.skip(1), b.skip(1), c.skip(1));
    }
}

/// Whether no clip stands behind an older one.
pub open spec fn newest_first(clips: Seq<ClipEntry>) -> bool {
    forall|i: int, j: int|
        0 <= i < j < clips.len() ==> !newer(#[trigger] clips[j], #[trigger] clips[i])
}

/// The clips of a library, newest first.
pub fn sort_clips(clips: Vec<ClipEntry>) -> (r: Vec<ClipEntry>)
    ensures
        r@.to_multiset() == clips@.to_multiset(),
        newest_first(r@),
{
    broadcast use vstd::seq_lib::group_to_multiset_ensures;

    let ghost all = clips@;
    let mut rest = clips;
    let mut out: Vec<ClipEntry> = Vec::new();
    proof {
        assert(out@.to_multiset().add(rest@.to_multiset()) =~= all.to_multiset());
    }
    while rest.len() > 0
        invariant
            newest_first(out@),
            out@.to_multiset().add(rest@.to_multiset()) == all.to_multiset(),
        decreases rest@.len(),
    {
        let ghost before = rest@;
        let clip = rest.remove(0);
        let ghost placed = out@;
        let at: usize = place_of(&out, &clip);
        out.insert(at, clip);
        proof {
            assert(out@ =~= placed.insert(at as int, clip));
            lemma_placed(placed, out@, at as int, clip);
            assert(before =~= seq![clip] + rest@);
            assert(before.to_multiset() =~= rest@.to_multiset().insert(clip)) by {
                assert(before.remove(0) =~= rest@);
                vstd::seq_lib::to_multiset_remove(before, 0);
                assert(before.to_multiset().contains(clip)) by {
                    assert(before[0] == clip);
                    assert(before.contains(clip));
                    vstd::seq_lib::to_multiset_contains(before, clip);
                }
                assert(rest@.to_multiset() =~= before.to_multiset().remove(clip));
            }
            vstd::seq_lib::to_multiset_insert(placed, at as int, clip);
            assert(out@.to_multiset().add(rest@.to_multiset()) =~= placed.to_multiset().add(
                before.to_multiset(),
            ));
        }
    }
    proof {
        assert(out@.to_multiset().add(rest@.to_multiset()) =~= out@.to_multiset());
    }
    out
}

/// Where a clip belongs: behind every clip that is newer.
fn place_of(sorted: &Vec<ClipEntry>, clip: &ClipEntry) -> (at: usize)
    requires
        newest_first(sorted@),
    ensures
        at <= sorted@.len(),
        forall|i: int| 0 <= i < at ==> !newer(*clip, #[trigger] sorted@[i]),
        forall|i: int| at <= i < sorted@.len() ==> !newer(#[trigger] sorted@[i], *clip),
{
    let mut at: usize = 0;
    while at < sorted.len() && !is_newer(clip, &sorted[at])
        invariant
            at <= sorted@.len(),
            forall|i: int| 0 <= i < at ==> !newer(*clip, #[trigger] sorted@[i]),
        decreases sorted@.len() - at,
    {
        at = at + 1;
    }
    proof {
        assert forall|i: int| at <= i < sorted@.len() implies !newer(
            #[trigger] sorted@[i],
            *clip,
        ) by {
            let first = sorted@[at as int];
            lemma_path_less_asymmetric(first.path@, clip.path@);
            if i > at {
                assert(!newer(sorted@[i], first));
                lemma_newer_steps(*clip, first, sorted@[i]);
            }
        }
    }
    at
}

/// Where `a` is not older than `b`, and `b` not older than `c`, `a` is not older than `c`.
proof fn lemma_newer_steps(a: ClipEntry, b: ClipEntry, c: ClipEntry)
    requires
        !newer(b, a),
        !newer(c, b),
    ensures
        !newer(c, a),
{
    if a.saved_at == b.saved_at && b.saved_at == c.saved_at {
        lemma_path_less_steps(c.path@, b.path@, a.path@);
    }
}

proof fn lemma_placed(before: Seq<ClipEntry>, after: Seq<ClipEntry>, at: int, clip: ClipEntry)
    requires
        newest_first(before),
        0 <= at <= before.len(),
        after == before.insert(at, clip),
        forall|i: int| 0 <= i < at ==> !newer(clip, #[trigger] before[i]),
        forall|i: int| at <= i < before.len() ==> !newer(#[trigger] before[i], clip),
    ensures
        newest_first(after),
{
    assert forall|i: int, j: int| 0 <= i < j < after.len() implies !newer(
        #[trigger] after[j],
        #[trigger] after[i],
    ) by {
        let a = if i < at {
            i
        } else {
            i - 1
        };
        let b = if j < at {
            j
        } else {
            j - 1
        };
        if i != at {
            assert(after[i] == before[a]);
        }
        if j != at {
            assert(after[j] == before[b]);
        }
    }
}

/// The file name of a path, empty where it has none.
pub open spec fn name_in(path: Seq<char>) -> Seq<char> {
    match file_name(path) {
        Some(name) => name,
        None => Seq::empty(),
    }
}

/// Whether the `b`-th of the first `n` paths is the newest clip: the last of those with the
/// greatest file name (names embed a millisecond timestamp).
pub open spec fn newest_at(paths: Seq<String>, n: int, b: int) -> bool {
    &&& 0 <= b < n
    &&& clip_name(name_in(paths[b]@))
    &&& forall|k: int|
        0 <= k < n && clip_name(name_in((#[trigger] paths[k])@)) ==> !less(
            name_in(paths[b]@),
            name_in(paths[k]@),
        ) && (k > b ==> less(name_in(paths[k]@), name_in(paths[b]@)))
}

/// The newest `rewynd-*.mp4` among `paths` by file name; `None` where none of them is a clip.
pub fn newest_clip_of(paths: &Vec<String>) -> (r: Option<usize>)
    ensures
        match r {
            Some(b) => newest_at(paths@, paths@.len() as int, b as int),
            None => forall|k: int|
                0 <= k < paths@.len() ==> !clip_name(name_in((#[trigger] paths@[k])@)),
        },
{
    let mut best: Option<(usize, String)> = None;
    let mut k: usize = 0;
    while k < paths.len()
        invariant
            k <= paths@.len(),
            match best {
                Some((b, name)) => newest_at(paths@, k as int, b as int) && name@ == name_in(
                    paths@[b as int]@,
                ),
                None => forall|j: int|
                    0 <= j < k ==> !clip_name(name_in((#[trigger] paths@[j])@)),
            },
        decreases paths@.len() - k,
    {
        let name = match file_name_of(paths[k].as_str()) {
            Some(name) => name,
            None => String::new(),
        };
        proof {
            assert(name@ == name_in(paths@[k as int]@));
        }
        if is_clip_name(name.as_str()) {
            let worse = match &best {
                Some((_, top)) => is_less(name.as_str(), top.as_str()),
                None => false,
            };
            if !worse {
                let ghost last = best;
                proof {
                    crate::text::lemma_less_irreflexive(name@);
                    if let Some((_, best_name)) = last {
                        let top = best_name@;
                        crate::text::lemma_less_total(name@, top);
                        assert forall|j: int|
                            0 <= j < k && clip_name(name_in((#[trigger] paths@[j])@)) implies !less(
                            name@,
                            name_in(paths@[j]@),
                        ) by {
                            let other = name_in(paths@[j]@);
                            if less(name@, other) {
                                if top != name@ {
                                    crate::text::lemma_less_transitive(top, name@, other);
                                }
                            }
                        }
                    }
                }
                best = Some((k, name));
            } else {
                let ghost last = best;
                proof {
                    if let Some((_, top)) = last {
                        crate::text::lemma_less_irreflexive(name@);
                        if less(top@, name@) {
                            crate::text::lemma_less_transitive(name@, top@, name@);
                        }
                    }
                }
            }
        }
        k = k + 1;
    }
    match best {
        Some((b, _)) => Some(b),
        None => None,
    }
}

/// Whether Windows or a path forbids a character in a folder name.
pub open spec fn forbidden(c: char) -> bool {
    c == '/' || c == '\\' || c == ':' || c == '*' || c == '?' || c == '"' || c == '<' || c == '>'
        || c == '|' || control(c)
}

fn is_forbidden(c: char) -> (r: bool)
    ensures
        r == forbidden(c),
{
    c == '/' || c == '\\' || c == ':' || c == '*' || c == '?' || c == '"' || c == '<' || c == '>'
        || c == '|' || is_control(c)
}

/// The text with spaces in place of the forbidden characters.
pub open spec fn allowed(s: Seq<char>) -> Seq<char> {
    s.map_values(
        |c: char|
            if forbidden(c) {
                ' '
            } else {
                c
            },
    )
}

/// As much of a text as fits the byte cap.
pub open spec fn capped(s: Seq<char>) -> Seq<char>
    decreases s.len(),
{
    if s.len() > 0 && byte_len(s) > MAX_FOLDER_BYTES {
        capped(s.drop_last())
    } else {
        s
    }
}

/// The text without trailing dots and spaces.
pub open spec fn without_dots(s: Seq<char>) -> Seq<char>
    decreases s.len(),
{
    if s.len() > 0 && (s.last() == '.' || s.last() == ' ') {
        without_dots(s.drop_last())
    } else {
        s
    }
}

/// A filesystem-safe folder name; empty where nothing usable is left.
pub open spec fn folder(raw: Seq<char>) -> Seq<char> {
    without_dots(capped(collapse(allowed(raw))))
}

/// How much of `chars` fits the byte cap.
fn capped_len(chars: &Vec<char>) -> (n: usize)
    ensures
        n <= chars@.len(),
        chars@.take(n as int) == capped(chars@),
{
    let mut bytes: u128 = 0;
    let mut i: usize = 0;
    proof {
        assert(chars@.take(0) =~= Seq::<char>::empty());
    }
    while i < chars.len()
        invariant
            i <= chars@.len(),
            bytes == byte_len(chars@.take(i as int)),
            bytes <= 4 * i,
        decreases chars@.len() - i,
    {
        proof {
            assert(chars@.take(i + 1).drop_last() =~= chars@.take(i as int));
        }
        bytes = bytes + utf8_len_of(chars[i]) as u128;
        i = i + 1;
    }
    let mut n: usize = chars.len();
    proof {
        assert(chars@.take(n as int) =~= chars@);
    }
    while n > 0 && bytes > MAX_FOLDER_BYTES as u128
        invariant
            n <= chars@.len(),
            bytes == byte_len(chars@.take(n as int)),
            capped(chars@.take(n as int)) == capped(chars@),
        decreases n,
    {
        proof {
            assert(chars@.take(n as int).drop_last() =~= chars@.take(n - 1));
        }
        bytes = bytes - utf8_len_of(chars[n - 1]) as u128;
        n = n - 1;
    }
    n
}

/// A filesystem-safe folder name derived from a game name: path separators and
/// characters Windows forbids become spaces, whitespace collapses, and the result is
/// length-capped. `None` when nothing usable remains.
pub fn folder_name(raw: &str) -> (r: Option<String>)
    ensures
        owned_text(r) == if folder(raw@).len() == 0 {
            None
        } else {
            Some(folder(raw@))
        },
{
    let chars = to_chars(raw);
    let mut mapped: Vec<char> = Vec::new();
    let mut i: usize = 0;
    while i < chars.len()
        invariant
            i <= chars@.len(),
            chars@ == raw@,
            mapped@ == allowed(raw@).take(i as int),
        decreases chars@.len() - i,
    {
        let c = chars[i];
        mapped.push(
            if is_forbidden(c) {
                ' '
            } else {
                c
            },
        );
        proof {
            assert(mapped@ =~= allowed(raw@).take(i + 1));
        }
        i = i + 1;
    }
    proof {
        assert(mapped@ =~= allowed(raw@));
    }
    let words = collapsed(&mapped);
    let n: usize = capped_len(&words);
    // Windows refuses names ending in dots; reserved device names (CON, NUL, ...) are
    // vanishingly unlikely as game titles and left to the OS to reject.
    let mut end: usize = n;
    while end > 0 && (words[end - 1] == '.' || words[end - 1] == ' ')
        invariant
            end <= n <= words@.len(),
            without_dots(words@.take(end as int)) == without_dots(words@.take(n as int)),
        decreases end,
    {
        proof {
            assert(words@.take(end as int).drop_last() =~= words@.take(end - 1));
        }
        end = end - 1;
    }
    proof {
        assert(words@.subrange(0, end as int) =~= words@.take(end as int));
        assert(words@.take(end as int) == folder(raw@));
    }
    if end == 0 {
        None
    } else {
        Some(string_of(&words, 0, end))
    }
}

/// The file name of a clip saved at `millis`, the `seq`-th of its process.
pub open spec fn clip_file(millis: nat, seq: nat) -> Seq<char> {
    "rewynd-"@ + decimal(millis) + "-"@ + decimal(seq) + ".mp4"@
}

/// Where to write a saved clip: `dir` plus the per-game subfolder when one is set, with a
/// millisecond-stamped, per-process-sequenced name. The sequence number disambiguates two saves
/// landing in the same millisecond.
pub fn clip_output_path(dir: &str, game_folder: Option<&str>, millis: u64, seq: u32) -> (r: String)
    ensures
        r@ == joined(
            match text_of(game_folder) {
                Some(game) => joined(dir@, game),
                None => dir@,
            },
            clip_file(millis as nat, seq as nat),
        ),
{
    let folder = match game_folder {
        Some(game) => join(dir, game),
        None => dir.to_owned(),
    };
    let mut name = "rewynd-".to_owned();
    push_decimal(&mut name, millis);
    name.append("-");
    push_decimal(&mut name, seq as u64);
    name.append(".mp4");
    join(folder.as_str(), name.as_str())
}

/// What a saved clip is called is recognised as a clip, and its stamp read back.
pub proof fn law_clip_file_reads_back(millis: u64, seq: u32)
    ensures
        clip_name(clip_file(millis as nat, seq as nat)),
        stamp(clip_file(millis as nat, seq as nat)) == Some(millis as nat),
{
    reveal_strlit("rewynd-");
    reveal_strlit(".mp4");
    reveal_strlit("-");
    let name = clip_file(millis as nat, seq as nat);
    let a = decimal(millis as nat);
    let b = decimal(seq as nat);
    lemma_decimal_value(millis as nat);
    lemma_decimal_value(seq as nat);
    assert(name.subrange(0, 7) =~= "rewynd-"@);
    assert(name.subrange(name.len() - 4, name.len() as int) =~= ".mp4"@);
    let tail = name.skip(7);
    assert(tail.subrange(tail.len() - 4, tail.len() as int) =~= ".mp4"@);
    let rest = tail.take(tail.len() - 4);
    assert(rest =~= a + "-"@ + b);
    lemma_first_of(rest, '-');
    let dash = first_of(rest, '-');
    assert(dash == a.len()) by {
        assert(rest[a.len() as int] == '-');
        if dash < a.len() {
            assert(rest[dash] == a[dash]);
            assert(digit(a[dash]));
        }
    }
    assert(rest.take(dash) =~= a);
    assert(rest.skip(dash + 1) =~= b);
    law_parse_decimal(millis as nat, u64::MAX as nat);
    law_parse_decimal(seq as nat, u64::MAX as nat);
}

proof fn lemma_without_dots(s: Seq<char>)
    ensures
        without_dots(s).len() <= s.len(),
        without_dots(s) == s.take(without_dots(s).len() as int),
        without_dots(s).len() > 0 ==> without_dots(s).last() != '.' && without_dots(s).last()
            != ' ',
    decreases s.len(),
{
    if s.len() > 0 && (s.last() == '.' || s.last() == ' ') {
        lemma_without_dots(s.drop_last());
        let n = without_dots(s).len() as int;
        assert(s.drop_last().take(n) =~= s.take(n));
    } else {
        assert(s.take(s.len() as int) =~= s);
    }
}

proof fn lemma_capped(s: Seq<char>)
    ensures
        capped(s).len() <= s.len(),
        capped(s) == s.take(capped(s).len() as int),
        byte_len(capped(s)) <= MAX_FOLDER_BYTES,
    decreases s.len(),
{
    if s.len() > 0 && byte_len(s) > MAX_FOLDER_BYTES {
        lemma_capped(s.drop_last());
        let n = capped(s).len() as int;
        assert(s.drop_last().take(n) =~= s.take(n));
    } else {
        assert(s.take(s.len() as int) =~= s);
    }
}

/// A folder name is safe on every filesystem, whatever the game is called: it holds no
/// separator and no forbidden character, does not end in a dot or a space (so it is never `.`
/// or `..`), starts with no whitespace, and is at most the cap long.
pub proof fn law_folder_name_is_safe(raw: Seq<char>)
    ensures
        forall|i: int| 0 <= i < folder(raw).len() ==> !forbidden(#[trigger] folder(raw)[i]),
        folder(raw).len() > 0 ==> !white(folder(raw)[0]) && folder(raw).last() != '.'
            && folder(raw).last() != ' ',
        byte_len(folder(raw)) <= MAX_FOLDER_BYTES,
{
    let shown = allowed(raw);
    let words = collapse(shown);
    lemma_collapse_tidy(shown);
    lemma_capped(words);
    let cut = capped(words);
    lemma_without_dots(cut);
    let out = folder(raw);
    lemma_byte_len_grows(cut, out.len() as int);
    assert forall|i: int| 0 <= i < out.len() implies !forbidden(#[trigger] out[i]) by {
        assert(out[i] == cut[i] && cut[i] == words[i]);
        if words[i] != ' ' {
            let k = choose|k: int| 0 <= k < shown.len() && shown[k] == words[i];
            assert(!forbidden(shown[k]));
        }
    }
    if out.len() > 0 {
        assert(out[0] == words[0]);
    }
}

/// A folder name that was cleaned comes back unchanged.
pub proof fn law_folder_name_is_idempotent(raw: Seq<char>)
    ensures
        folder(folder(raw)) == folder(raw),
{
    let words = collapse(allowed(raw));
    let out = folder(raw);
    law_folder_name_is_safe(raw);
    lemma_collapse_tidy(allowed(raw));
    lemma_capped(words);
    lemma_without_dots(capped(words));
    assert(tidy(out)) by {
        assert forall|i: int| 0 <= i < out.len() implies #[trigger] out[i] == words[i] by {
            assert(out[i] == capped(words)[i]);
        }
        if out.len() > 0 {
            let last = out.len() - 1;
            assert(white(words[last]) ==> words[last] == ' ');
        }
    }
    lemma_collapse_of_tidy(out);
    assert(allowed(out) =~= out);
}

/// The library shows what was saved last first, and every pair of clips has its place: of two
/// different paths saved at one instant exactly one comes first.
pub proof fn law_library_is_newest_first(clips: Seq<ClipEntry>, i: int, j: int)
    requires
        newest_first(clips),
        0 <= i < j < clips.len(),
    ensures
        clips[i].saved_at >= clips[j].saved_at,
        clips[i].saved_at == clips[j].saved_at && clips[i].path@ != clips[j].path@ ==> newer(
            clips[i],
            clips[j],
        ) && !newer(clips[j], clips[i]),
{
    assert(!newer(clips[j], clips[i]));
    lemma_path_less_total(clips[i].path@, clips[j].path@);
    lemma_path_less_asymmetric(clips[i].path@, clips[j].path@);
}

/// Of two different paths one comes before the other.
proof fn lemma_path_less_total(a: Seq<char>, b: Seq<char>)
    ensures
        a == b || path_less(a, b) || path_less(b, a),
    decreases a.len(),
{
    if a.len() == 0 || b.len() == 0 {
        if a.len() == b.len() {
            assert(a =~= b);
        }
    } else if a[0] == b[0] {
        lemma_path_less_total(a.skip(1), b.skip(1));
        if a.skip(1) == b.skip(1) {
            assert(seq![a[0]] + a.skip(1) =~= a);
            assert(seq![b[0]] + b.skip(1) =~= b);
        }
    } else {
        assert((a[0] as int) < (b[0] as int) || (b[0] as int) < (a[0] as int));
    }
}

/// What is in a folder comes right behind the folder, before every name that only begins alike:
/// paths are ordered component by component.
pub proof fn law_paths_are_ordered_by_component(
    folder: Seq<char>,
    file: Seq<char>,
    c: char,
    rest: Seq<char>,
)
    requires
        c != '/',
    ensures
        path_less(folder, folder.push('/') + file),
        path_less(folder.push('/') + file, folder.push(c) + rest),
    decreases folder.len(),
{
    if folder.len() > 0 {
        law_paths_are_ordered_by_component(folder.skip(1), file, c, rest);
        assert((folder.push('/') + file).skip(1) =~= folder.skip(1).push('/') + file);
        assert((folder.push(c) + rest).skip(1) =~= folder.skip(1).push(c) + rest);
    }
}

/// A saved clip is found again: the path that it is written to ends in its own name, which is
/// listed as that of a clip saved at that millisecond, whatever the file's mtime says.
pub proof fn law_saved_clip_is_listed(
    dir: &str,
    game: Option<&str>,
    millis: u64,
    seq: u32,
    path: String,
    found: &str,
    name: &str,
    folder: Option<String>,
    modified: i128,
    size_bytes: u64,
    entry: Option<ClipEntry>,
)
    requires
        call_ensures(clip_output_path, (dir, game, millis, seq), path),
        found@ == path@,
        file_name(found@) == Some(name@),
        call_ensures(clip_entry, (found, name, folder, modified, size_bytes), entry),
    ensures
        entry matches Some(clip) && clip.saved_at == millis * 1_000_000 && clip.path@ == path@
            && clip.game == folder && clip.modified == modified && clip.size_bytes == size_bytes,
{
    let file = clip_file(millis as nat, seq as nat);
    law_clip_file_reads_back(millis, seq);
    reveal_strlit("rewynd-");
    reveal_strlit("-");
    reveal_strlit(".mp4");
    lemma_decimal_value(millis as nat);
    lemma_decimal_value(seq as nat);
    let a = decimal(millis as nat);
    let b = decimal(seq as nat);
    assert forall|i: int| 0 <= i < file.len() implies #[trigger] file[i] != '/' by {
        if 7 <= i < 7 + a.len() {
            assert(file[i] == a[i - 7]);
            assert(digit(a[i - 7]));
        } else if 8 + a.len() <= i < 8 + a.len() + b.len() {
            assert(file[i] == b[i - 8 - a.len()]);
            assert(digit(b[i - 8 - a.len()]));
        }
    }
    assert(file.len() > 2);
    let folder_path = match text_of(game) {
        Some(game) => joined(dir@, game),
        None => dir@,
    };
    crate::paths::law_file_name_of_joined(folder_path, file);
}

/// No two saves of a process share a name: two clips of one name have one stamp and one sequence
/// number.
pub proof fn law_saves_do_not_collide(millis: u64, seq: u32, other: u64, next: u32)
    requires
        clip_file(millis as nat, seq as nat) == clip_file(other as nat, next as nat),
    ensures
        millis == other,
        seq == next,
{
    law_clip_file_reads_back(millis, seq);
    law_clip_file_reads_back(other, next);
    reveal_strlit("rewynd-");
    reveal_strlit("-");
    reveal_strlit(".mp4");
    let name = clip_file(millis as nat, seq as nat);
    let a = decimal(millis as nat);
    lemma_decimal_value(seq as nat);
    lemma_decimal_value(next as nat);
    let from = 8 + a.len() as int;
    assert(name.subrange(from, name.len() - 4) =~= decimal(seq as nat));
    assert(clip_file(other as nat, next as nat).subrange(from, name.len() - 4) =~= decimal(
        next as nat,
    ));
}

/// A name that is safe already is kept as it is.
pub proof fn law_safe_folder_name_is_kept(name: Seq<char>)
    requires
        tidy(name),
        forall|i: int| 0 <= i < name.len() ==> !forbidden(#[trigger] name[i]),
        byte_len(name) <= 80,
        name.len() > 0 ==> name.last() != '.' && name.last() != ' ',
    ensures
        folder(name) == name,
{
    assert(allowed(name) =~= name);
    lemma_collapse_of_tidy(name);
}

/// A clip is stored where the user said, else in the default folder, else in the private one.
pub proof fn law_configured_folder_comes_first(
    configured: Option<&str>,
    default: Option<&str>,
    private: &str,
    dir: String,
)
    requires
        call_ensures(clips_dir, (configured, default, private), dir),
    ensures
        configured matches Some(chosen) ==> dir@ == chosen@,
        configured is None ==> (default matches Some(folder) ==> dir@ == folder@),
        configured is None && default is None ==> dir@ == private@,
{
}

/// Of a folder name too long for the file system no more is cut than has to be: one character
/// more would not fit.
pub proof fn law_long_folder_name_is_cut_late(s: Seq<char>)
    ensures
        capped(s).len() <= s.len(),
        capped(s) == s.take(capped(s).len() as int),
        byte_len(s) <= 80 ==> capped(s) == s,
        byte_len(s) > 80 ==> capped(s).len() < s.len() && byte_len(s.take(capped(s).len() as int + 1))
            > 80,
    decreases s.len(),
{
    if s.len() > 0 && byte_len(s) > 80 {
        let shorter = s.drop_last();
        law_long_folder_name_is_cut_late(shorter);
        let n = capped(s).len() as int;
        assert(s.take(n) =~= shorter.take(n));
        if byte_len(shorter) > 80 {
            assert(s.take(n + 1) =~= shorter.take(n + 1));
        } else {
            assert(s.take(n + 1) =~= s);
        }
    } else {
        assert(s.take(s.len() as int) =~= s);
    }
}

/// A folder name keeps every character that a file system takes; in place of any other it has a
/// space, and gaps are one space wide.
pub proof fn law_folder_name_keeps_what_is_allowed(raw: Seq<char>, fit: Seq<char>)
    requires
        fit.len() == raw.len(),
        forall|i: int|
            0 <= i < raw.len() ==> #[trigger] fit[i] == if forbidden(raw[i]) {
                ' '
            } else {
                raw[i]
            },
        byte_len(collapse(fit)) <= 80,
        collapse(fit).len() > 0 ==> collapse(fit).last() != '.',
    ensures
        folder(raw) == collapse(fit),
{
    assert(allowed(raw) =~= fit);
    crate::text::lemma_collapse_tidy(fit);
    law_long_folder_name_is_cut_late(collapse(fit));
    let name = collapse(fit);
    if name.len() > 0 {
        assert(!white(name.last()));
        assert(white(' '));
    }
}

/// The newest clip is found wherever there is one: it is a clip, and no clip's name comes after
/// its own.
pub proof fn law_newest_clip_is_found(
    paths: Vec<String>,
    r: Option<usize>,
    k: int,
    dir: Seq<char>,
    name: Seq<char>,
)
    requires
        call_ensures(newest_clip_of, (&paths,), r),
        0 <= k < paths@.len(),
        crate::paths::plain_folder(dir),
        crate::paths::names_a_file(name),
        paths@[k]@ == dir + seq!['/'] + name,
        name.len() >= 7 && name.take(7) == "rewynd-"@,
        name.len() >= 4 && name.skip(name.len() - 4) == ".mp4"@,
    ensures
        r is Some && r->0 < paths@.len(),
        file_name(paths@[r->0 as int]@) is Some,
        ({
            let newest = file_name(paths@[r->0 as int]@)->0;
            &&& !less(newest, name)
            &&& has_prefix(newest, "rewynd-"@)
            &&& has_suffix(newest, ".mp4"@)
        }),
{
    reveal_strlit("rewynd-");
    reveal_strlit(".mp4");
    crate::paths::lemma_two_parts(dir, name);
    assert(name.take(7) =~= name.subrange(0, 7));
    assert(name.skip(name.len() - 4) =~= name.subrange(name.len() - 4, name.len() as int));
    assert(clip_name(name_in(paths@[k]@)));
}

/// No character of a folder name means something to a file system, on any platform.
pub proof fn law_folder_name_has_no_separator(raw: &str, r: Option<String>, i: int)
    requires
        call_ensures(folder_name, (raw,), r),
        r matches Some(name) && 0 <= i < name@.len(),
    ensures
        ({
            let c = r->0@[i];
            &&& c != '/' && c != '\\' && c != ':' && c != '*' && c != '?'
            &&& c != '"' && c != '<' && c != '>' && c != '|'
            &&& c as u32 >= 32 && c as u32 != 127
        }),
{
    law_folder_name_is_safe(raw@);
    assert(!forbidden(folder(raw@)[i]));
}

} // verus!
