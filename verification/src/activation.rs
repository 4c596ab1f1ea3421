//! Hand-off of a `rewynd://clip/<name>` launch to an already-running settings window: the
//! refused second instance drops the link into a file, and the running window picks it up. The
//! receiver re-validates the link before acting on it, so the file's content is never trusted
//! beyond being a candidate link. Whatever the verdict, the file is removed: a pending one never
//! outlives one look at it.

use crate::text::{trim, trimmed};
use vstd::prelude::*;
use vstd::utf8::{decode_utf8, valid_utf8};

verus! {

/// How long a pending activation stays honored, in nanoseconds: 30 s. Generous against watcher
/// latency and a slow machine, short enough that a link left behind by a crashed window is not
/// replayed on the next launch.
pub const MAX_AGE_NANOS: i128 = 30_000_000_000;

/// Ceiling on the activation file size. A valid link is well under this; anything larger is not
/// ours and is discarded unread.
pub const MAX_LEN: u64 = 4096;

/// `String::from_utf8`: the text that the bytes encode, or `None` where they are not UTF-8.
#[verifier::external_body]
fn decode(bytes: Vec<u8>) -> (r: Option<String>)
    ensures
        match r {
            Some(text) => valid_utf8(bytes@) && text@ == decode_utf8(bytes@),
            None => !valid_utf8(bytes@),
        },
{
    String::from_utf8(bytes).ok()
}

/// Whether a pending file of this size is read at all.
pub fn worth_reading(len: u64) -> (r: bool)
    ensures
        r == (len <= MAX_LEN),
{
    len <= MAX_LEN
}

/// The link in a pending activation file: its trimmed text, unless the file could not be read,
/// is longer than any link, is not text, is blank, or is stale.
pub open spec fn pending_link(content: Option<Seq<u8>>, modified: int, now: int) -> Option<
    Seq<char>,
> {
    match content {
        None => None,
        Some(bytes) => if bytes.len() > MAX_LEN || now - modified > MAX_AGE_NANOS || !valid_utf8(
            bytes,
        ) || trim(decode_utf8(bytes)).len() == 0 {
            None
        } else {
            Some(trim(decode_utf8(bytes)))
        },
    }
}

/// The view of optional bytes.
pub open spec fn bytes_of(content: Option<Vec<u8>>) -> Option<Seq<u8>> {
    match content {
        Some(bytes) => Some(bytes@),
        None => None,
    }
}

/// The fresh link in a pending activation file, given its content where it was read and the
/// time, both in nanoseconds since the epoch. An mtime ahead of `now` (clock step between
/// writer and reader) counts as fresh.
pub fn take_settings_activation(content: Option<Vec<u8>>, modified: i128, now: i128) -> (r: Option<
    String,
>)
    ensures
        crate::paths::owned_text(r) == pending_link(
            bytes_of(content),
            modified as int,
            now as int,
        ),
{
    let bytes = match content {
        Some(bytes) => bytes,
        None => {
            return None;
        },
    };
    if bytes.len() as u64 > MAX_LEN {
        return None;
    }
    let stale: bool = match now.checked_sub(modified) {
        Some(age) => age > MAX_AGE_NANOS,
        None => now > modified,
    };
    if stale {
        return None;
    }
    match decode(bytes) {
        Some(text) => {
            let link = trimmed(text.as_str());
            if link.as_str().is_empty() {
                None
            } else {
                Some(link)
            }
        },
        None => None,
    }
}

/// A link that a crashed window left behind is not replayed, and one that was just dropped is:
/// what counts is whether it is older than half a minute.
pub proof fn law_only_a_fresh_link_is_taken(bytes: Seq<u8>, modified: int, now: int)
    requires
        valid_utf8(bytes),
        bytes.len() <= 4096,
        trim(decode_utf8(bytes)).len() > 0,
    ensures
        pending_link(Some(bytes), modified, now) is Some <==> now <= modified + 30_000_000_000,
        pending_link(Some(bytes), modified, now) matches Some(link) ==> link == trim(
            decode_utf8(bytes),
        ),
{
}

/// What is no link is never taken: a file that is blank, not text or longer than any link.
pub proof fn law_no_link_is_made_up(bytes: Seq<u8>, modified: int, now: int)
    requires
        !valid_utf8(bytes) || bytes.len() > 4096 || trim(decode_utf8(bytes)).len() == 0,
    ensures
        pending_link(Some(bytes), modified, now) is None,
        pending_link(None, modified, now) is None,
{
}

} // verus!
