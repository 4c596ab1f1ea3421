//! What the user has told us about a clip: the name they gave it and whether they starred it.
//!
//! Keyed by file name alone, not by size or mtime: a clip's name has to survive moving between
//! game folders and a trim that rewrites the file in place. File names carry a millisecond
//! stamp plus a per-process sequence, so they are unique within the store.

use crate::paths::{file_name, file_name_of, owned_text, renamed, text_of, with_file_name};
use crate::text::{collapse, collapsed, control, end_of_text, has_suffix, is_control, is_less};
use crate::text::{lemma_collapse_of_tidy, lemma_collapse_tidy, lemma_cut_tidy, less, same};
use crate::text::{lemma_less_irreflexive, lemma_less_total, lemma_less_transitive};
use crate::text::{string_of, tidy, to_chars, trim_end, white};
use vstd::prelude::*;

verus! {

/// How long a clip name may be. Long enough for a sentence, short enough that a card's title
/// line stays one line.
pub const MAX_NAME_CHARS: usize = 80;

/// What we remember about one clip. An entry equal to the default is dropped from the store.
#[derive(Debug, PartialEq, Eq)]
pub struct ClipMeta {
    /// The name the user gave it.
    pub name: Option<String>,
    /// Whether it is starred.
    pub favourite: bool,
}

/// What is known of a clip.
pub struct MetaModel {
    pub name: Option<Seq<char>>,
    pub favourite: bool,
}

impl ClipMeta {
    /// The entry with its name as a sequence.
    pub open spec fn view(self) -> MetaModel {
        MetaModel { name: crate::paths::owned_text(self.name), favourite: self.favourite }
    }

    /// Whether nothing is known.
    fn is_empty(&self) -> (r: bool)
        ensures
            r == (self@ == blank()),
    {
        self.name.is_none() && !self.favourite
    }
}

impl Default for ClipMeta {
    fn default() -> (r: Self)
        ensures
            r@ == blank(),
    {
        ClipMeta { name: None, favourite: false }
    }
}

impl Clone for ClipMeta {
    fn clone(&self) -> (r: Self)
        ensures
            r == *self,
    {
        ClipMeta {
            name: match &self.name {
                Some(name) => Some(name.clone()),
                None => None,
            },
            favourite: self.favourite,
        }
    }
}

/// What is known of a clip that nobody said anything about.
pub open spec fn blank() -> MetaModel {
    MetaModel { name: None, favourite: false }
}

/// Every clip we know something about, keyed by file name and in the order of the names, so the
/// file stays in a stable order instead of reshuffling on every write.
#[derive(Debug, PartialEq, Eq)]
pub struct ClipMetaStore {
    entries: Vec<(String, ClipMeta)>,
}

/// Whether the entries are in strict order of their names, none of them blank.
pub open spec fn orderly(entries: Seq<(String, ClipMeta)>) -> bool {
    &&& forall|i: int, j: int|
        0 <= i < j < entries.len() ==> less((#[trigger] entries[i]).0@, (#[trigger] entries[j]).0@)
    &&& forall|i: int| 0 <= i < entries.len() ==> (#[trigger] entries[i]).1@ != blank()
}

/// Whether entry `i` is that of `key`.
pub open spec fn is_entry(entries: Seq<(String, ClipMeta)>, i: int, key: Seq<char>) -> bool {
    0 <= i < entries.len() && entries[i].0@ == key
}

/// What the entries say of `key`; a missing entry says nothing.
pub open spec fn lookup(entries: Seq<(String, ClipMeta)>, key: Seq<char>) -> MetaModel {
    if exists|i: int| is_entry(entries, i, key) {
        entries[choose|i: int| is_entry(entries, i, key)].1@
    } else {
        blank()
    }
}

/// A key has one entry at most.
proof fn lemma_one_entry(entries: Seq<(String, ClipMeta)>, i: int, key: Seq<char>)
    requires
        orderly(entries),
        is_entry(entries, i, key),
    ensures
        lookup(entries, key) == entries[i].1@,
        forall|j: int| is_entry(entries, j, key) ==> j == i,
{
    assert forall|j: int| is_entry(entries, j, key) implies j == i by {
        lemma_less_irreflexive(key);
        if j < i {
            assert(less(entries[j].0@, entries[i].0@));
        }
        if i < j {
            assert(less(entries[i].0@, entries[j].0@));
        }
    }
}

impl ClipMetaStore {
    /// What the store says of each file name: what its entries say.
    pub open spec fn says(self, key: Seq<char>) -> MetaModel {
        lookup(self.listed(), key)
    }

    /// The entries in their order.
    pub closed spec fn listed(self) -> Seq<(String, ClipMeta)> {
        self.entries@
    }

    #[verifier::type_invariant]
    spec fn in_order(self) -> bool {
        orderly(self.entries@)
    }

    /// A store that knows nothing.
    pub fn new() -> (r: Self)
        ensures
            forall|key: Seq<char>| r.says(key) == blank(),
            r.listed() == Seq::<(String, ClipMeta)>::empty(),
    {
        ClipMetaStore { entries: Vec::new() }
    }

    /// Where the entry of `file_name` is, or where it belongs.
    fn position(&self, file_name: &str) -> (r: (usize, bool))
        ensures
            r.0 <= self.entries@.len(),
            r.1 ==> is_entry(self.entries@, r.0 as int, file_name@),
            !r.1 ==> forall|i: int| !is_entry(self.entries@, i, file_name@),
            forall|i: int| 0 <= i < r.0 ==> less((#[trigger] self.entries@[i]).0@, file_name@),
            !r.1 ==> forall|i: int|
                r.0 <= i < self.entries@.len() ==> less(
                    file_name@,
                    (#[trigger] self.entries@[i]).0@,
                ),
    {
        proof {
            use_type_invariant(self);
        }
        let mut i: usize = 0;
        while i < self.entries.len() && is_less(self.entries[i].0.as_str(), file_name)
            invariant
                i <= self.entries@.len(),
                forall|k: int| 0 <= k < i ==> less((#[trigger] self.entries@[k]).0@, file_name@),
            decreases self.entries@.len() - i,
        {
            i = i + 1;
        }
        if i < self.entries.len() && same(self.entries[i].0.as_str(), file_name) {
            return (i, true);
        }
        proof {
            if i < self.entries@.len() {
                lemma_less_total(self.entries@[i as int].0@, file_name@);
            }
            assert forall|k: int| i <= k < self.entries@.len() implies less(
                file_name@,
                (#[trigger] self.entries@[k]).0@,
            ) by {
                if k > i {
                    assert(less(self.entries@[i as int].0@, self.entries@[k].0@));
                    lemma_less_transitive(
                        file_name@,
                        self.entries@[i as int].0@,
                        self.entries@[k].0@,
                    );
                }
            }
            assert forall|k: int| !is_entry(self.entries@, k, file_name@) by {
                lemma_less_irreflexive(file_name@);
                if 0 <= k < i {
                    assert(less(self.entries@[k].0@, file_name@));
                } else if i <= k < self.entries@.len() {
                    assert(less(file_name@, self.entries@[k].0@));
                }
            }
        }
        (i, false)
    }

    /// This clip's entry by store key, or a default one when it has none.
    pub fn entry_of(&self, file_name: &str) -> (r: ClipMeta)
        ensures
            r@ == self.says(file_name@),
    {
        let (at, found) = self.position(file_name);
        proof {
            use_type_invariant(self);
        }
        if found {
            proof {
                lemma_one_entry(self.entries@, at as int, file_name@);
            }
            self.entries[at].1.clone()
        } else {
            ClipMeta::default()
        }
    }

    /// What we know about the clip at `path`, if anything.
    pub fn get(&self, path: &str) -> (r: Option<ClipMeta>)
        ensures
            match file_name(path@) {
                None => r is None,
                Some(key) => match r {
                    Some(meta) => meta@ == self.says(key) && meta@ != blank(),
                    None => self.says(key) == blank(),
                },
            },
    {
        let key = match file_name_of(path) {
            Some(key) => key,
            None => {
                return None;
            },
        };
        let (at, found) = self.position(key.as_str());
        proof {
            use_type_invariant(self);
        }
        if found {
            proof {
                lemma_one_entry(self.entries@, at as int, key@);
            }
            Some(self.entries[at].1.clone())
        } else {
            None
        }
    }

    /// The name the user gave this clip, if they gave it one.
    pub fn name_of(&self, path: &str) -> (r: Option<String>)
        ensures
            crate::paths::owned_text(r) == match file_name(path@) {
                Some(key) => self.says(key).name,
                None => None,
            },
    {
        match self.get(path) {
            Some(meta) => meta.name,
            None => None,
        }
    }

    /// Whether this clip is starred.
    pub fn is_favourite(&self, path: &str) -> (r: bool)
        ensures
            r == match file_name(path@) {
                Some(key) => self.says(key).favourite,
                None => false,
            },
    {
        match self.get(path) {
            Some(meta) => meta.favourite,
            None => false,
        }
    }

    /// Apply `edit` to this clip's entry, creating it if needed. An entry left at its default
    /// (no name, not starred) is removed, so clearing a name does not leave a husk behind.
    pub fn set<F: FnOnce(ClipMeta) -> ClipMeta>(&mut self, file_name: &str, edit: F)
        requires
            forall|m: ClipMeta| call_requires(edit, (m,)),
        ensures
            forall|key: Seq<char>|
                key != file_name@ ==> #[trigger] final(self).says(key) == old(self).says(key),
            exists|before: ClipMeta, after: ClipMeta|
                before@ == old(self).says(file_name@) && #[trigger] call_ensures(
                    edit,
                    (before,),
                    after,
                ) && final(self).says(file_name@) == after@,
    {
        let current = self.entry_of(file_name);
        let ghost before = current;
        let meta = edit(current);
        let ghost after = meta;
        self.put(file_name, meta);
        proof {
            assert(call_ensures(edit, (before,), after));
        }
    }

    /// Make `meta` this clip's entry.
    fn put(&mut self, file_name: &str, meta: ClipMeta)
        ensures
            forall|key: Seq<char>|
                key != file_name@ ==> #[trigger] final(self).says(key) == old(self).says(key),
            final(self).says(file_name@) == meta@,
    {
        let (at, found) = self.position(file_name);
        proof {
            use_type_invariant(&*self);
        }
        let ghost before = self.entries@;
        let blank_entry = meta.is_empty();
        let mut entries: Vec<(String, ClipMeta)> = Vec::new();
        std::mem::swap(&mut entries, &mut self.entries);
        if found {
            entries.remove(at);
        }
        let ghost rest = entries@;
        proof {
            if found {
                assert(rest =~= before.remove(at as int));
                lemma_removed(before, rest, at as int, file_name@);
            } else {
                assert(rest == before);
            }
        }
        if !blank_entry {
            entries.insert(at, (file_name.to_owned(), meta));
            proof {
                assert(entries@ =~= rest.insert(at as int, entries@[at as int]));
                lemma_inserted(rest, entries@, at as int, file_name@, entries@[at as int]);
            }
        }
        self.entries = entries;
        proof {
            if blank_entry {
                assert forall|i: int| !is_entry(rest, i, file_name@) by {
                    if is_entry(rest, i, file_name@) {
                        lemma_less_irreflexive(file_name@);
                    }
                }
            }
        }
    }

    /// Whether the store holds nothing at all.
    pub fn is_empty(&self) -> (r: bool)
        ensures
            r == (self.listed().len() == 0),
            r == forall|key: Seq<char>| #[trigger] self.says(key) == blank(),
    {
        proof {
            use_type_invariant(self);
            if self.entries@.len() > 0 {
                let key = self.entries@[0].0@;
                assert(is_entry(self.entries@, 0, key));
                lemma_one_entry(self.entries@, 0, key);
                assert(self.says(key) != blank());
            } else {
                assert forall|key: Seq<char>| #[trigger] self.says(key) == blank() by {
                    assert(forall|i: int| !is_entry(self.entries@, i, key));
                }
            }
        }
        self.entries.len() == 0
    }

    /// Every entry, in the order of the file names.
    pub fn entries(&self) -> (r: &Vec<(String, ClipMeta)>)
        ensures
            r@ == self.listed(),
            orderly(r@),
    {
        proof {
            use_type_invariant(self);
        }
        &self.entries
    }
}

impl Default for ClipMetaStore {
    fn default() -> (r: Self)
        ensures
            forall|key: Seq<char>| r.says(key) == blank(),
            r.listed() == Seq::<(String, ClipMeta)>::empty(),
    {
        ClipMetaStore::new()
    }
}

/// Taking an entry out leaves the others in order and what they say.
proof fn lemma_removed(
    before: Seq<(String, ClipMeta)>,
    rest: Seq<(String, ClipMeta)>,
    at: int,
    key: Seq<char>,
)
    requires
        orderly(before),
        is_entry(before, at, key),
        rest == before.remove(at),
    ensures
        orderly(rest),
        forall|i: int| !is_entry(rest, i, key),
        forall|other: Seq<char>|
            other != key ==> #[trigger] lookup(rest, other) == lookup(before, other),
        forall|i: int| 0 <= i < at ==> less((#[trigger] rest[i]).0@, key),
        forall|i: int| at <= i < rest.len() ==> less(key, (#[trigger] rest[i]).0@),
{
    let back = |i: int|
        if i < at {
            i
        } else {
            i + 1
        };
    assert forall|i: int| 0 <= i < rest.len() implies #[trigger] rest[i] == before[back(i)] by {}
    assert forall|i: int, j: int| 0 <= i < j < rest.len() implies less(
        (#[trigger] rest[i]).0@,
        (#[trigger] rest[j]).0@,
    ) by {
        assert(rest[i] == before[back(i)] && rest[j] == before[back(j)]);
    }
    assert forall|i: int| 0 <= i < rest.len() implies (#[trigger] rest[i]).1@ != blank() by {
        assert(rest[i] == before[back(i)]);
    }
    lemma_one_entry(before, at, key);
    assert forall|i: int| !is_entry(rest, i, key) by {
        if is_entry(rest, i, key) {
            assert(is_entry(before, back(i), key));
        }
    }
    assert forall|other: Seq<char>| other != key implies #[trigger] lookup(rest, other) == lookup(
        before,
        other,
    ) by {
        if exists|i: int| is_entry(rest, i, other) {
            let i = choose|i: int| is_entry(rest, i, other);
            assert(is_entry(before, back(i), other));
            lemma_one_entry(rest, i, other);
            lemma_one_entry(before, back(i), other);
        } else if exists|i: int| is_entry(before, i, other) {
            let i = choose|i: int| is_entry(before, i, other);
            assert(i != at);
            let k = if i < at {
                i
            } else {
                i - 1
            };
            assert(rest[k] == before[i]);
            assert(is_entry(rest, k, other));
        }
    }
    assert forall|i: int| 0 <= i < at implies less((#[trigger] rest[i]).0@, key) by {
        assert(less(before[i].0@, before[at].0@));
    }
    assert forall|i: int| at <= i < rest.len() implies less(key, (#[trigger] rest[i]).0@) by {
        assert(less(before[at].0@, before[i + 1].0@));
    }
}

/// Putting an entry in its place keeps the order and what the others say.
proof fn lemma_inserted(
    rest: Seq<(String, ClipMeta)>,
    after: Seq<(String, ClipMeta)>,
    at: int,
    key: Seq<char>,
    entry: (String, ClipMeta),
)
    requires
        orderly(rest),
        0 <= at <= rest.len(),
        after == rest.insert(at, entry),
        entry.0@ == key,
        entry.1@ != blank(),
        forall|i: int| 0 <= i < at ==> less((#[trigger] rest[i]).0@, key),
        forall|i: int| at <= i < rest.len() ==> less(key, (#[trigger] rest[i]).0@),
    ensures
        orderly(after),
        lookup(after, key) == entry.1@,
        forall|other: Seq<char>|
            other != key ==> #[trigger] lookup(after, other) == lookup(rest, other),
{
    let back = |i: int|
        if i < at {
            i
        } else {
            i - 1
        };
    assert forall|i: int| 0 <= i < after.len() && i != at implies #[trigger] after[i] == rest[back(
        i,
    )] by {}
    assert forall|i: int, j: int| 0 <= i < j < after.len() implies less(
        (#[trigger] after[i]).0@,
        (#[trigger] after[j]).0@,
    ) by {
        if i != at {
            assert(after[i] == rest[back(i)]);
        }
        if j != at {
            assert(after[j] == rest[back(j)]);
        }
    }
    assert forall|i: int| 0 <= i < after.len() implies (#[trigger] after[i]).1@ != blank() by {
        if i != at {
            assert(after[i] == rest[back(i)]);
        }
    }
    assert(is_entry(after, at, key));
    lemma_one_entry(after, at, key);
    assert forall|other: Seq<char>| other != key implies #[trigger] lookup(after, other) == lookup(
        rest,
        other,
    ) by {
        if exists|i: int| is_entry(rest, i, other) {
            let i = choose|i: int| is_entry(rest, i, other);
            let k = if i < at {
                i
            } else {
                i + 1
            };
            assert(after[k] == rest[i]);
            assert(is_entry(after, k, other));
            lemma_one_entry(rest, i, other);
            lemma_one_entry(after, k, other);
        } else if exists|i: int| is_entry(after, i, other) {
            let i = choose|i: int| is_entry(after, i, other);
            assert(i != at);
            assert(is_entry(rest, back(i), other));
        }
    }
}

/// Whether a character is invisible or reorders what follows it. A clip name is drawn as a card
/// title and a heading, so one of these could hide text or flip it right to left.
pub open spec fn invisible(c: char) -> bool {
    let u = c as u32;
    ||| control(c)
    ||| u == 0x00ad  // soft hyphen
    ||| 0x200b <= u <= 0x200f  // zero width spaces, joiners, LTR/RTL marks
    ||| 0x202a <= u <= 0x202e  // bidi embedding and overrides
    ||| 0x2060 <= u <= 0x2064  // word joiner and invisible operators
    ||| 0x2066 <= u <= 0x2069  // bidi isolates
    ||| u == 0xfeff  // byte order mark
}

/// Whether a character is invisible or reorders what follows it.
pub fn is_invisible(c: char) -> (r: bool)
    ensures
        r == invisible(c),
{
    let u = c as u32;
    is_control(c) || u == 0x00ad || (0x200b <= u && u <= 0x200f) || (0x202a <= u && u <= 0x202e)
        || (0x2060 <= u && u <= 0x2064) || (0x2066 <= u && u <= 0x2069) || u == 0xfeff
}

/// The text with spaces in place of its invisible characters.
pub open spec fn made_visible(s: Seq<char>) -> Seq<char> {
    s.map_values(
        |c: char|
            if invisible(c) {
                ' '
            } else {
                c
            },
    )
}

/// A clip name as it will be stored; empty where nothing usable is left.
pub open spec fn cleaned(raw: Seq<char>) -> Seq<char> {
    let name = collapse(made_visible(raw));
    if name.len() > MAX_NAME_CHARS {
        trim_end(name.take(MAX_NAME_CHARS as int))
    } else {
        name
    }
}

/// A name, or none where it is empty.
pub open spec fn usable(name: Seq<char>) -> Option<Seq<char>> {
    if name.len() == 0 {
        None
    } else {
        Some(name)
    }
}

/// A clip name as it will be stored: whitespace collapsed, invisible characters dropped, capped
/// at [`MAX_NAME_CHARS`]. `None` when nothing usable is left, which means "no name".
pub fn clean_name(raw: &str) -> (r: Option<String>)
    ensures
        crate::paths::owned_text(r) == usable(cleaned(raw@)),
{
    let chars = to_chars(raw);
    let mut mapped: Vec<char> = Vec::new();
    let mut i: usize = 0;
    while i < chars.len()
        invariant
            i <= chars@.len(),
            chars@ == raw@,
            mapped@ == made_visible(raw@).take(i as int),
        decreases chars@.len() - i,
    {
        let c = chars[i];
        mapped.push(
            if is_invisible(c) {
                ' '
            } else {
                c
            },
        );
        proof {
            assert(mapped@ =~= made_visible(raw@).take(i + 1));
        }
        i = i + 1;
    }
    proof {
        assert(mapped@ =~= made_visible(raw@));
    }
    let name = collapsed(&mapped);
    let end: usize = if name.len() > MAX_NAME_CHARS {
        end_of_text(&name, 0, MAX_NAME_CHARS)
    } else {
        name.len()
    };
    proof {
        assert(name@.subrange(0, MAX_NAME_CHARS as int) =~= name@.take(MAX_NAME_CHARS as int));
        assert(name@.subrange(0, end as int) =~= cleaned(raw@));
    }
    if end == 0 {
        None
    } else {
        Some(string_of(&name, 0, end))
    }
}

/// The part of a name that a trimmed copy keeps.
pub open spec fn stem(raw: Seq<char>) -> Seq<char> {
    let name = cleaned(raw);
    trim_end(
        name.take(
            if name.len() < 70 {
                name.len() as int
            } else {
                70
            },
        ),
    )
}

/// The name a trimmed copy inherits from its source, re-cleaned, so a name already at the cap
/// makes room for the suffix instead of overflowing it.
pub fn trimmed_copy_name(name: &str) -> (r: Option<String>)
    ensures
        crate::paths::owned_text(r) == if cleaned(name@).len() == 0 {
            None
        } else {
            usable(cleaned(stem(name@) + " (trimmed)"@))
        },
{
    let clean = match clean_name(name) {
        Some(clean) => clean,
        None => {
            return None;
        },
    };
    let suffix = " (trimmed)";
    let room: usize = MAX_NAME_CHARS - 10;
    let chars = to_chars(clean.as_str());
    let cut: usize = if chars.len() < room {
        chars.len()
    } else {
        room
    };
    let end: usize = end_of_text(&chars, 0, cut);
    proof {
        assert(chars@.subrange(0, cut as int) =~= chars@.take(cut as int));
    }
    let mut out = string_of(&chars, 0, end);
    out.append(suffix);
    clean_name(out.as_str())
}

/// No stored name holds an invisible character, is longer than the cap, or begins or ends with
/// whitespace.
pub proof fn law_clean_name_is_clean(raw: Seq<char>)
    ensures
        cleaned(raw).len() <= MAX_NAME_CHARS,
        tidy(cleaned(raw)),
        forall|i: int| 0 <= i < cleaned(raw).len() ==> !invisible(#[trigger] cleaned(raw)[i]),
{
    let shown = made_visible(raw);
    let name = collapse(shown);
    lemma_collapse_tidy(shown);
    assert forall|i: int| 0 <= i < name.len() implies !invisible(#[trigger] name[i]) by {
        if name[i] != ' ' {
            let k = choose|k: int| 0 <= k < shown.len() && shown[k] == name[i];
            assert(!invisible(shown[k]));
        }
    }
    if name.len() > MAX_NAME_CHARS {
        lemma_cut_tidy(name, MAX_NAME_CHARS as int);
    }
}

/// Cleaning a clean name changes nothing.
pub proof fn law_clean_name_is_idempotent(raw: Seq<char>)
    ensures
        cleaned(cleaned(raw)) == cleaned(raw),
{
    law_clean_name_is_clean(raw);
    lemma_clean_keeps(cleaned(raw));
}

/// A tidy, visible text within the cap is kept as it is.
proof fn lemma_clean_keeps(s: Seq<char>)
    requires
        tidy(s),
        s.len() <= MAX_NAME_CHARS,
        forall|i: int| 0 <= i < s.len() ==> !invisible(#[trigger] s[i]),
    ensures
        cleaned(s) == s,
{
    assert(made_visible(s) =~= s);
    lemma_collapse_of_tidy(s);
}

/// The name of a trimmed copy says that it is one and fits under the cap, whatever the source
/// is called.
pub proof fn law_trimmed_copy_name_fits(raw: Seq<char>)
    requires
        cleaned(raw).len() > 0,
    ensures
        cleaned(stem(raw) + " (trimmed)"@) == stem(raw) + " (trimmed)"@,
        has_suffix(cleaned(stem(raw) + " (trimmed)"@), " (trimmed)"@),
        0 < cleaned(stem(raw) + " (trimmed)"@).len() <= MAX_NAME_CHARS,
{
    reveal_strlit(" (trimmed)");
    let suffix = " (trimmed)"@;
    assert(suffix.len() == 10);
    law_clean_name_is_clean(raw);
    let name = cleaned(raw);
    let cut = if name.len() < 70 {
        name.len() as int
    } else {
        70
    };
    lemma_cut_tidy(name, cut);
    let front = stem(raw);
    assert(front.len() > 0);
    let whole = front + suffix;
    assert(suffix[0] == ' ');
    assert forall|i: int| 0 <= i < suffix.len() implies !invisible(#[trigger] suffix[i]) by {}
    assert forall|i: int| 1 <= i < suffix.len() implies !white(#[trigger] suffix[i]) by {}
    assert forall|i: int| 0 <= i < whole.len() implies (white(#[trigger] whole[i]) ==> whole[i]
        == ' ' && i > 0) && !invisible(whole[i]) by {
        if i < front.len() {
            assert(whole[i] == front[i]);
            assert(front[i] == name[i]);
        } else {
            assert(whole[i] == suffix[i - front.len()]);
        }
    }
    assert forall|i: int| 0 < i < whole.len() && white(#[trigger] whole[i]) implies !white(
        whole[i - 1],
    ) by {
        if i < front.len() {
            assert(whole[i] == front[i] && whole[i - 1] == front[i - 1]);
        } else if i == front.len() {
            assert(whole[i - 1] == front.last());
        } else {
            assert(whole[i] == suffix[i - front.len()]);
        }
    }
    assert(whole.last() == suffix[9]);
    lemma_clean_keeps(whole);
    assert(whole.subrange(whole.len() - 10, whole.len() as int) =~= suffix);
}

/// The store's path, beside `config.toml`.
pub fn store_path(config_path: Option<&str>) -> (r: Option<String>)
    ensures
        owned_text(r) == match text_of(config_path) {
            Some(path) => Some(renamed(path, "clip-meta.json"@)),
            None => None,
        },
{
    match config_path {
        Some(path) => Some(with_file_name(path, "clip-meta.json")),
        None => None,
    }
}

/// A name that is clean already is kept as it is.
pub proof fn law_clean_name_is_kept(name: Seq<char>)
    requires
        tidy(name),
        name.len() <= 80,
        forall|i: int| 0 <= i < name.len() ==> !invisible(#[trigger] name[i]),
    ensures
        cleaned(name) == name,
{
    lemma_clean_keeps(name);
}

/// A trimmed copy keeps the name of its source, as far as there is room: all of a clean name of up
/// to 70 characters stands before the suffix.
pub proof fn law_trimmed_copy_keeps_the_name(name: Seq<char>)
    requires
        0 < name.len() <= 70,
        tidy(name),
        forall|i: int| 0 <= i < name.len() ==> !invisible(#[trigger] name[i]),
    ensures
        cleaned(stem(name) + " (trimmed)"@) == name + " (trimmed)"@,
{
    lemma_clean_keeps(name);
    lemma_cut_tidy(name, name.len() as int);
    assert(name.take(name.len() as int) =~= name);
    law_trimmed_copy_name_fits(name);
}

/// What a store lists is what it says: each entry is found under its own name, and what is not
/// listed is not known.
pub proof fn law_listed_entry_is_found(entries: Seq<(String, ClipMeta)>, key: Seq<char>)
    requires
        orderly(entries),
    ensures
        forall|i: int|
            0 <= i < entries.len() && (#[trigger] entries[i]).0@ == key ==> lookup(entries, key)
                == entries[i].1@,
        (forall|i: int| 0 <= i < entries.len() ==> (#[trigger] entries[i]).0@ != key) ==> lookup(
            entries,
            key,
        ) == (MetaModel { name: None, favourite: false }),
{
    assert forall|i: int| 0 <= i < entries.len() && (#[trigger] entries[i]).0@ == key implies lookup(
        entries,
        key,
    ) == entries[i].1@ by {
        assert(is_entry(entries, i, key));
        lemma_one_entry(entries, i, key);
    }
}

/// The store lies beside the config file.
pub proof fn law_store_lies_beside_the_config(dir: Seq<char>, name: Seq<char>, config: &str, r: Option<String>)
    requires
        crate::paths::plain_folder(dir),
        crate::paths::names_a_file(name),
        config@ == dir + seq!['/'] + name,
        call_ensures(store_path, (Some(config),), r),
    ensures
        r is Some && r->0@ == dir + "/clip-meta.json"@,
{
    reveal_strlit("clip-meta.json");
    reveal_strlit("/clip-meta.json");
    let file = "clip-meta.json"@;
    crate::paths::lemma_two_parts(dir, name);
    crate::paths::lemma_two_parts(dir, file);
    assert(dir + seq!['/'] + file =~= dir + "/clip-meta.json"@);
}

/// A name is cleaned by putting a space in place of what cannot be seen, one space in place of
/// each gap, and cutting it only where it is too long: what is left is the start of that text,
/// all of it where it fits.
pub proof fn law_clean_name_keeps_what_fits(raw: Seq<char>, seen: Seq<char>)
    requires
        seen.len() == raw.len(),
        forall|i: int|
            0 <= i < raw.len() ==> #[trigger] seen[i] == if invisible(raw[i]) {
                ' '
            } else {
                raw[i]
            },
    ensures
        ({
            let whole = collapse(seen);
            let name = cleaned(raw);
            &&& whole.len() <= 80 ==> name == whole
            &&& whole.len() > 80 ==> 79 <= name.len() <= 80 && name == whole.take(name.len() as int)
        }),
{
    assert(made_visible(raw) =~= seen);
    let whole = collapse(seen);
    crate::text::lemma_collapse_tidy(seen);
    if whole.len() > 80 {
        lemma_cut_tidy(whole, 80);
    }
}

/// A name is kept wherever anything of it can be seen; one of nothing but whitespace and what
/// cannot be seen is no name.
pub proof fn law_name_needs_something_to_see(raw: &str, r: Option<String>, i: int)
    requires
        call_ensures(clean_name, (raw,), r),
    ensures
        0 <= i < raw@.len() && !white(raw@[i]) && !invisible(raw@[i]) ==> r is Some,
        (forall|k: int|
            0 <= k < raw@.len() ==> white(#[trigger] raw@[k]) || invisible(raw@[k])) ==> r is None,
        r matches Some(name) ==> name@.len() > 0,
{
    let seen = made_visible(raw@);
    law_clean_name_keeps_what_fits(raw@, seen);
    if 0 <= i < raw@.len() && !white(raw@[i]) && !invisible(raw@[i]) {
        assert(seen[i] == raw@[i]);
        lemma_collapse_shows(seen, i);
    }
    if forall|k: int| 0 <= k < raw@.len() ==> white(#[trigger] raw@[k]) || invisible(raw@[k]) {
        assert forall|k: int| 0 <= k < seen.len() implies white(#[trigger] seen[k]) by {
            assert(white(raw@[k]) || invisible(raw@[k]));
        }
        lemma_collapse_hides(seen);
    }
}

proof fn lemma_collapse_shows(s: Seq<char>, i: int)
    requires
        0 <= i < s.len(),
        !white(s[i]),
    ensures
        collapse(s).len() > 0,
    decreases s.len(),
{
    if i < s.len() - 1 {
        lemma_collapse_shows(s.drop_last(), i);
    }
}

proof fn lemma_collapse_hides(s: Seq<char>)
    requires
        forall|k: int| 0 <= k < s.len() ==> white(#[trigger] s[k]),
    ensures
        collapse(s).len() == 0,
    decreases s.len(),
{
    if s.len() > 0 {
        assert(white(s[s.len() - 1]));
        assert forall|k: int| 0 <= k < s.drop_last().len() implies white(
            #[trigger] s.drop_last()[k],
        ) by {
            assert(white(s[k]));
        }
        lemma_collapse_hides(s.drop_last());
    }
}

/// What is stored is in the order of the names, each once, and says something: an entry without a
/// name that is no favourite is not kept.
pub proof fn law_stored_entries_say_something(entries: Seq<(String, ClipMeta)>, i: int, j: int)
    requires
        orderly(entries),
        0 <= i < entries.len(),
        0 <= j < entries.len(),
    ensures
        entries[i].1@.name is Some || entries[i].1@.favourite,
        entries[i].0@ == entries[j].0@ ==> i == j,
        i < j ==> less(entries[i].0@, entries[j].0@),
{
    crate::text::lemma_less_irreflexive(entries[i].0@);
}

} // verus!
