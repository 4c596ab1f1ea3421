//! The recorder's live status, published to a small file the GUI polls.
//!
//! The reader rejects a stale file left by a crashed recorder by checking that the pid is still
//! a live recorder process.

use crate::paths::{join, joined, InstanceDir};
use vstd::prelude::*;

verus! {

/// Bumped when the status shape changes incompatibly; the reader rejects other versions.
pub const RECORDER_STATUS_VERSION: u32 = 1;

/// What the recorder is doing right now.
#[derive(Debug, Clone, Copy, PartialEq, Eq, Structural)]
pub enum RecorderState {
    /// Actively buffering (a game, or the whole desktop — see [`RecorderStatus::game`]).
    Recording,
    /// Running but waiting for a game to focus (game-only capture, nothing detected yet).
    Idle,
    /// The capture pipeline failed; see [`RecorderStatus::detail`].
    Failed,
}

/// The recorder's published status.
#[derive(Debug, Clone, PartialEq, Eq)]
pub struct RecorderStatus {
    /// Schema version; see [`RECORDER_STATUS_VERSION`].
    pub version: u32,
    /// The writing recorder's pid, so a reader can reject a stale file.
    pub pid: u32,
    /// The active backend (`"gpu:<name>"` / `"cpu"`).
    pub encoder: String,
    /// The current state.
    pub state: RecorderState,
    /// The game being recorded; `None` while [`Recording`](RecorderState::Recording) means the
    /// whole desktop.
    pub game: Option<String>,
    /// Extra detail (e.g. a failure message) when relevant.
    pub detail: Option<String>,
}

/// Path to the status file, next to the pid file.
pub fn recorder_status_path(dir: &InstanceDir) -> (r: String)
    ensures
        r@ == joined(dir.path@, "status.json"@),
{
    join(dir.path.as_str(), "status.json")
}

/// The status that was read, unless it is of another version or was written by a recorder that
/// is no longer running.
pub fn read_recorder_status<F: Fn(u32) -> bool>(status: RecorderStatus, alive: F) -> (r: Option<
    RecorderStatus,
>)
    requires
        call_requires(alive, (status.pid,)),
    ensures
        r is Some ==> r->0 == status,
        status.version != RECORDER_STATUS_VERSION ==> r is None,
        status.version == RECORDER_STATUS_VERSION ==> call_ensures(alive, (status.pid,), r is Some),
{
    if status.version != RECORDER_STATUS_VERSION {
        return None;
    }
    if alive(status.pid) {
        Some(status)
    } else {
        None
    }
}

/// A status is handed on as it was written, by a live recorder of this version alone.
pub proof fn law_stale_status_is_dropped<F: Fn(u32) -> bool>(
    status: RecorderStatus,
    alive: F,
    r: Option<RecorderStatus>,
)
    requires
        call_ensures(read_recorder_status::<F>, (status, alive), r),
        forall|b: bool| call_ensures(alive, (status.pid,), b) ==> !b,
    ensures
        r is None,
{
}

} // verus!
