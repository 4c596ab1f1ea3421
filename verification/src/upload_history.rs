//! Local record of which clips have been uploaded where, so the library can show an "uploaded"
//! badge across restarts and refuse a duplicate upload.

use crate::paths::{file_name, file_name_of, owned_text, renamed, text_of, with_file_name};
use crate::text::same;
use vstd::prelude::*;

verus! {

/// Destination string stored for a ganked.tv upload.
pub const GANKED: &'static str = "ganked";

/// Destination string stored for a YouTube upload.
pub const YOUTUBE: &'static str = "youtube";

/// One recorded upload: a clip, where it went, and the id/link to reach it again.
#[derive(Debug, PartialEq, Eq)]
pub struct UploadRecord {
    /// The clip's file name.
    pub file_name: String,
    /// Its size.
    pub size_bytes: u64,
    /// Its mtime.
    pub modified_millis: u64,
    /// [`GANKED`] or [`YOUTUBE`].
    pub destination: String,
    /// The remote id (ganked.tv clip id / YouTube video id), used to verify the copy still exists.
    pub remote_id: String,
    /// The link to the copy.
    pub url: Option<String>,
    /// When it was uploaded.
    pub uploaded_millis: u64,
}

impl Clone for UploadRecord {
    fn clone(&self) -> (r: Self)
        ensures
            r == *self,
    {
        UploadRecord {
            file_name: self.file_name.clone(),
            size_bytes: self.size_bytes,
            modified_millis: self.modified_millis,
            destination: self.destination.clone(),
            remote_id: self.remote_id.clone(),
            url: match &self.url {
                Some(url) => Some(url.clone()),
                None => None,
            },
            uploaded_millis: self.uploaded_millis,
        }
    }
}

/// A clip's identity for matching history records: the file name plus size and mtime, so a clip
/// moved between game folders still matches while a rewrite (fresh mtime) does not.
#[derive(Debug, Clone, PartialEq, Eq)]
pub struct ClipKey {
    /// The clip's file name.
    pub file_name: String,
    /// Its size.
    pub size_bytes: u64,
    /// Its mtime.
    pub modified_millis: u64,
}

/// What a record is found by: the clip and the destination.
pub struct Identity {
    pub file_name: Seq<char>,
    pub size_bytes: u64,
    pub modified_millis: u64,
    pub destination: Seq<char>,
}

/// The identity of a record.
pub open spec fn identity(r: UploadRecord) -> Identity {
    Identity {
        file_name: r.file_name@,
        size_bytes: r.size_bytes,
        modified_millis: r.modified_millis,
        destination: r.destination@,
    }
}

/// A moment in whole milliseconds since the epoch: 0 before it, saturating.
pub open spec fn millis_of(nanos: int) -> nat {
    if nanos < 0 {
        0
    } else if nanos / 1_000_000 > u64::MAX {
        u64::MAX as nat
    } else {
        (nanos / 1_000_000) as nat
    }
}

/// A moment, in nanoseconds since the epoch, in whole milliseconds.
pub fn to_millis(nanos: i128) -> (r: u64)
    ensures
        r == millis_of(nanos as int),
{
    if nanos < 0 {
        return 0;
    }
    let millis: u128 = nanos as u128 / 1_000_000;
    if millis > u64::MAX as u128 {
        u64::MAX
    } else {
        millis as u64
    }
}

impl ClipKey {
    /// What a record of this clip at `destination` is found by.
    pub open spec fn at(self, destination: Seq<char>) -> Identity {
        Identity {
            file_name: self.file_name@,
            size_bytes: self.size_bytes,
            modified_millis: self.modified_millis,
            destination,
        }
    }

    /// The key for the clip at `path` with the given size and mtime (nanoseconds since the
    /// epoch), or `None` for a nameless path.
    pub fn new(path: &str, size_bytes: u64, modified: i128) -> (r: Option<Self>)
        ensures
            match r {
                Some(key) => file_name(path@) == Some(key.file_name@) && key.size_bytes
                    == size_bytes && key.modified_millis == millis_of(modified as int),
                None => file_name(path@) is None,
            },
    {
        match file_name_of(path) {
            Some(name) => Some(
                ClipKey { file_name: name, size_bytes, modified_millis: to_millis(modified) },
            ),
            None => None,
        }
    }

    /// The given time (nanoseconds since the epoch) as stored in `uploaded_millis`.
    pub fn now_millis(now: i128) -> (r: u64)
        ensures
            r == millis_of(now as int),
    {
        to_millis(now)
    }

    /// Whether `record` is of this clip.
    fn matches(&self, record: &UploadRecord) -> (r: bool)
        ensures
            r == (record.file_name@ == self.file_name@ && record.size_bytes == self.size_bytes
                && record.modified_millis == self.modified_millis),
    {
        same(record.file_name.as_str(), self.file_name.as_str()) && record.size_bytes
            == self.size_bytes && record.modified_millis == self.modified_millis
    }
}

/// The history file path, beside `config.toml`.
pub fn history_path(config_path: Option<&str>) -> (r: Option<String>)
    ensures
        owned_text(r) == match text_of(config_path) {
            Some(path) => Some(renamed(path, "upload-history.json"@)),
            None => None,
        },
{
    match config_path {
        Some(path) => Some(with_file_name(path, "upload-history.json")),
        None => None,
    }
}

/// The first of the records, from the `k`-th on, with this identity.
pub open spec fn first_match(records: Seq<UploadRecord>, id: Identity, k: int) -> Option<
    UploadRecord,
>
    decreases records.len() - k,
{
    if k >= records.len() {
        None
    } else if identity(records[k]) == id {
        Some(records[k])
    } else {
        first_match(records, id, k + 1)
    }
}

/// The records without those of this identity.
pub open spec fn without(records: Seq<UploadRecord>, id: Identity) -> Seq<UploadRecord>
    decreases records.len(),
{
    if records.len() == 0 {
        Seq::empty()
    } else if identity(records.last()) == id {
        without(records.drop_last(), id)
    } else {
        without(records.drop_last(), id).push(records.last())
    }
}

/// The record for `key` at `destination`, if the clip was uploaded there.
pub fn find_in(records: &[UploadRecord], key: &ClipKey, destination: &str) -> (r: Option<
    UploadRecord,
>)
    ensures
        r == first_match(records@, key.at(destination@), 0),
{
    let mut k: usize = 0;
    while k < records.len()
        invariant
            k <= records@.len(),
            first_match(records@, key.at(destination@), 0) == first_match(
                records@,
                key.at(destination@),
                k as int,
            ),
        decreases records@.len() - k,
    {
        let record = &records[k];
        if key.matches(record) && same(record.destination.as_str(), destination) {
            return Some(record.clone());
        }
        k = k + 1;
    }
    None
}

/// Drop every record for `key` at `destination`.
fn drop_matching(records: &mut Vec<UploadRecord>, key: &ClipKey, destination: &str)
    ensures
        final(records)@ == without(old(records)@, key.at(destination@)),
{
    let ghost all = records@;
    let ghost id = key.at(destination@);
    let mut kept: Vec<UploadRecord> = Vec::new();
    let mut k: usize = 0;
    proof {
        assert(all.take(0) =~= Seq::<UploadRecord>::empty());
    }
    while k < records.len()
        invariant
            k <= records@.len(),
            records@ == all,
            id == key.at(destination@),
            kept@ == without(all.take(k as int), id),
        decreases records@.len() - k,
    {
        let record = &records[k];
        proof {
            assert(all.take(k + 1).drop_last() =~= all.take(k as int));
        }
        if !(key.matches(record) && same(record.destination.as_str(), destination)) {
            kept.push(record.clone());
        }
        k = k + 1;
    }
    proof {
        assert(all.take(all.len() as int) =~= all);
    }
    *records = kept;
}

/// Replace any record with the same (clip, destination) identity, then append the new one — so the
/// file stays compacted to one entry per clip per destination rather than growing on re-upload.
pub fn upsert(records: &mut Vec<UploadRecord>, entry: UploadRecord)
    ensures
        final(records)@ == without(old(records)@, identity(entry)).push(entry),
{
    let key = ClipKey {
        file_name: entry.file_name.clone(),
        size_bytes: entry.size_bytes,
        modified_millis: entry.modified_millis,
    };
    drop_matching(records, &key, entry.destination.as_str());
    records.push(entry);
}

/// Forget the record for `key` at `destination` (e.g. after the remote copy was deleted), so the
/// duplicate guard lets the user upload again. `false` when there's nothing to forget.
pub fn forget(records: &mut Vec<UploadRecord>, key: &ClipKey, destination: &str) -> (changed: bool)
    ensures
        final(records)@ == without(old(records)@, key.at(destination@)),
        changed == (final(records)@.len() != old(records)@.len()),
{
    let before: usize = records.len();
    drop_matching(records, key, destination);
    records.len() != before
}

/// Without the records of one identity, none of it is found and every other one is found as
/// before.
proof fn lemma_without(records: Seq<UploadRecord>, id: Identity)
    ensures
        forall|i: int|
            0 <= i < without(records, id).len() ==> identity(#[trigger] without(records, id)[i])
                != id,
        forall|other: Identity|
            other != id ==> #[trigger] first_match(without(records, id), other, 0) == first_match(
                records,
                other,
                0,
            ),
    decreases records.len(),
{
    if records.len() > 0 {
        let init = records.drop_last();
        lemma_without(init, id);
        let rest = without(records, id);
        let before = without(init, id);
        assert forall|i: int| 0 <= i < rest.len() implies identity(#[trigger] rest[i]) != id by {
            if i < before.len() {
                assert(rest[i] == before[i]);
            }
        }
        assert forall|other: Identity| other != id implies #[trigger] first_match(rest, other, 0)
            == first_match(records, other, 0) by {
            assert(records =~= init.push(records.last()));
            lemma_first_match_push(init, records.last(), other, 0);
            if identity(records.last()) != id {
                lemma_first_match_push(before, records.last(), other, 0);
            }
        }
    }
}

/// A record at the end is found where no earlier one is.
proof fn lemma_first_match_push(records: Seq<UploadRecord>, last: UploadRecord, id: Identity, k: int)
    requires
        0 <= k <= records.len(),
    ensures
        first_match(records.push(last), id, k) == match first_match(records, id, k) {
            Some(r) => Some(r),
            None => if identity(last) == id {
                Some(last)
            } else {
                None
            },
        },
    decreases records.len() - k,
{
    if k < records.len() {
        assert(records.push(last)[k] == records[k]);
        lemma_first_match_push(records, last, id, k + 1);
    } else {
        assert(records.push(last)[k] == last);
        assert(first_match(records.push(last), id, k + 1) is None);
    }
}

proof fn lemma_no_match(records: Seq<UploadRecord>, id: Identity, k: int)
    requires
        0 <= k,
        forall|i: int| 0 <= i < records.len() ==> identity(#[trigger] records[i]) != id,
    ensures
        first_match(records, id, k) is None,
    decreases records.len() - k,
{
    if k < records.len() {
        lemma_no_match(records, id, k + 1);
    }
}

/// After an upload was recorded it is the one that is found, the only one of its clip and
/// destination; what is found of every other clip and destination is as before.
pub proof fn law_upsert_then_find(records: Seq<UploadRecord>, entry: UploadRecord)
    ensures
        first_match(without(records, identity(entry)).push(entry), identity(entry), 0) == Some(
            entry,
        ),
        forall|i: int|
            0 <= i < without(records, identity(entry)).len() ==> identity(
                #[trigger] without(records, identity(entry))[i],
            ) != identity(entry),
        forall|other: Identity|
            other != identity(entry) ==> #[trigger] first_match(
                without(records, identity(entry)).push(entry),
                other,
                0,
            ) == first_match(records, other, 0),
{
    let id = identity(entry);
    let rest = without(records, id);
    lemma_without(records, id);
    lemma_no_match(rest, id, 0);
    lemma_first_match_push(rest, entry, id, 0);
    assert forall|other: Identity| other != id implies #[trigger] first_match(
        rest.push(entry),
        other,
        0,
    ) == first_match(records, other, 0) by {
        lemma_first_match_push(rest, entry, other, 0);
        assert(first_match(rest, other, 0) == first_match(records, other, 0));
    }
}

/// After a record was forgotten none is found for its clip and destination; what is found of
/// every other is as before.
pub proof fn law_forget_then_find(records: Seq<UploadRecord>, id: Identity)
    ensures
        first_match(without(records, id), id, 0) is None,
        forall|other: Identity|
            other != id ==> #[trigger] first_match(without(records, id), other, 0) == first_match(
                records,
                other,
                0,
            ),
{
    lemma_without(records, id);
    lemma_no_match(without(records, id), id, 0);
}

/// Two records are of one upload exactly where they are of the same file, by name, size and mtime,
/// at the same destination: a rewritten file or another destination is another upload.
pub proof fn law_identity_tells_uploads_apart(a: UploadRecord, b: UploadRecord)
    ensures
        identity(a) == identity(b) <==> a.file_name@ == b.file_name@ && a.size_bytes
            == b.size_bytes && a.modified_millis == b.modified_millis && a.destination@
            == b.destination@,
{
}

/// What is found is a record of that very clip and destination, the first one, and where nothing is
/// found there is none.
pub proof fn law_found_record_is_of_the_clip(
    records: Seq<UploadRecord>,
    key: ClipKey,
    destination: Seq<char>,
)
    ensures
        match first_match(records, key.at(destination), 0) {
            Some(r) => r.file_name@ == key.file_name@ && r.size_bytes == key.size_bytes
                && r.modified_millis == key.modified_millis && r.destination@ == destination
                && records.contains(r),
            None => forall|i: int|
                0 <= i < records.len() ==> !((#[trigger] records[i]).file_name@ == key.file_name@
                    && records[i].size_bytes == key.size_bytes && records[i].modified_millis
                    == key.modified_millis && records[i].destination@ == destination),
        },
{
    lemma_first_match(records, key.at(destination), 0);
}

proof fn lemma_first_match(records: Seq<UploadRecord>, id: Identity, k: int)
    requires
        0 <= k,
    ensures
        match first_match(records, id, k) {
            Some(r) => identity(r) == id && records.contains(r),
            None => forall|i: int| k <= i < records.len() ==> identity(#[trigger] records[i]) != id,
        },
    decreases records.len() - k,
{
    if k < records.len() {
        if identity(records[k]) == id {
            assert(records.contains(records[k]));
        } else {
            lemma_first_match(records, id, k + 1);
        }
    }
}

/// Forgetting an upload loses no other: what stays is every record of another clip or destination,
/// in order.
pub proof fn law_only_the_upload_is_forgotten(records: Seq<UploadRecord>, id: Identity)
    ensures
        without(records, id) == records.filter(
            |r: UploadRecord|
                !(r.file_name@ == id.file_name && r.size_bytes == id.size_bytes
                    && r.modified_millis == id.modified_millis && r.destination@ == id.destination),
        ),
    decreases records.len(),
{
    reveal(Seq::filter);
    if records.len() > 0 {
        law_only_the_upload_is_forgotten(records.drop_last(), id);
    }
}

/// A moment from the epoch on is in its millisecond.
pub proof fn law_moment_is_in_its_millisecond(nanos: int)
    requires
        0 <= nanos < 0x1_0000_0000_0000_0000 * 1_000_000,
    ensures
        millis_of(nanos) * 1_000_000 <= nanos < (millis_of(nanos) + 1) * 1_000_000,
{
}

/// A clip keeps its key wherever it is moved, and gets another when it is rewritten.
pub proof fn law_key_is_of_the_file(
    path: &str,
    other: &str,
    size_bytes: u64,
    modified: i128,
    later: i128,
    key: Option<ClipKey>,
    moved: Option<ClipKey>,
    rewritten: Option<ClipKey>,
)
    requires
        call_ensures(ClipKey::new, (path, size_bytes, modified), key),
        call_ensures(ClipKey::new, (other, size_bytes, modified), moved),
        call_ensures(ClipKey::new, (path, size_bytes, later), rewritten),
        file_name(path@) is Some,
        file_name(other@) == file_name(path@),
        0 <= modified,
        modified + 1_000_000 <= later < 0x1_0000_0000_0000_0000 * 1_000_000,
    ensures
        forall|destination: Seq<char>|
            #![trigger key->0.at(destination)]
            key->0.at(destination) == moved->0.at(destination) && key->0.at(destination)
                != rewritten->0.at(destination),
{
}

/// The history lies beside the config file.
pub proof fn law_history_lies_beside_the_config(dir: Seq<char>, name: Seq<char>, config: &str, r: Option<String>)
    requires
        crate::paths::plain_folder(dir),
        crate::paths::names_a_file(name),
        config@ == dir + seq!['/'] + name,
        call_ensures(history_path, (Some(config),), r),
    ensures
        r is Some && r->0@ == dir + "/upload-history.json"@,
{
    reveal_strlit("upload-history.json");
    reveal_strlit("/upload-history.json");
    let file = "upload-history.json"@;
    crate::paths::lemma_two_parts(dir, name);
    crate::paths::lemma_two_parts(dir, file);
    assert(dir + seq!['/'] + file =~= dir + "/upload-history.json"@);
}

/// A time before the epoch counts as the epoch, and one too late to be counted as the last that
/// can be; no later time has fewer milliseconds.
pub proof fn law_moments_keep_their_order(earlier: i128, later: i128, a: u64, b: u64)
    requires
        earlier <= later,
        call_ensures(to_millis, (earlier,), a),
        call_ensures(to_millis, (later,), b),
    ensures
        a <= b,
        earlier < 0 ==> a == 0,
        later >= 0x1_0000_0000_0000_0000 * 1_000_000 ==> b == u64::MAX,
{
}

} // verus!
