//! What every encoder shares: parameters, errors, and the encoded pictures and packets that the
//! ring buffer and the muxer work on.

use crate::clock::Duration;
use vstd::prelude::*;

verus! {

/// One encoded picture: an Annex-B access unit.
#[derive(Debug, Clone, PartialEq, Eq)]
pub struct EncodedChunk {
    /// The access unit's bytes.
    pub bytes: Vec<u8>,
    /// Whether a clip can begin here.
    pub is_keyframe: bool,
    /// Capture-relative timestamp.
    pub pts: Duration,
}

/// One encoded audio packet.
#[derive(Debug, Clone, PartialEq, Eq)]
pub struct EncodedAudioChunk {
    /// The packet's bytes.
    pub bytes: Vec<u8>,
    /// Samples per channel that the packet spans.
    pub frames: u32,
    /// Capture-relative timestamp of its first sample.
    pub pts: Duration,
}

/// Errors from the encoder.
#[derive(Debug)]
pub enum EncodeError {
    /// The encoder failed to initialise.
    Init(String),
    /// The encoder failed while encoding a frame.
    Encode(String),
}

impl EncodeError {
    /// What went wrong, in words.
    pub fn message(&self) -> (r: String)
        ensures
            r@ == match *self {
                EncodeError::Init(why) => "failed to initialise the encoder: "@ + why@,
                EncodeError::Encode(why) => "failed to encode a frame: "@ + why@,
            },
    {
        match self {
            EncodeError::Init(why) => "failed to initialise the encoder: ".to_owned().concat(
                why.as_str(),
            ),
            EncodeError::Encode(why) => "failed to encode a frame: ".to_owned().concat(
                why.as_str(),
            ),
        }
    }

    /// Whether this is an initialisation error that says `why`.
    pub open spec fn is_init(self, why: Seq<char>) -> bool {
        self matches EncodeError::Init(text) && text@ == why
    }

    /// Whether this is an encoding error that says `why`.
    pub open spec fn is_encode(self, why: Seq<char>) -> bool {
        self matches EncodeError::Encode(text) && text@ == why
    }
}

/// Encoder configuration.
///
/// Resolution, framerate and bitrate are parameters; the defaults target 1080p60 but other
/// qualities are addable.
#[derive(Debug, Clone, Copy, PartialEq, Eq, Structural)]
pub struct EncodeParams {
    /// Output width in pixels.
    pub width: u32,
    /// Output height in pixels.
    pub height: u32,
    /// Target framerate in frames per second.
    pub framerate: u32,
    /// Average target bitrate in bits per second.
    pub bitrate_bps: u32,
    /// Frames between IDRs (GOP length); governs where the ring buffer can cut.
    pub idr_period: u32,
}

impl Default for EncodeParams {
    fn default() -> (r: Self)
        ensures
            r == (EncodeParams {
                width: 1920,
                height: 1080,
                framerate: 60,
                bitrate_bps: 12_000_000,
                idr_period: 60,
            }),
    {
        EncodeParams {
            width: 1920,
            height: 1080,
            framerate: 60,
            bitrate_bps: 12_000_000,
            idr_period: 60,
        }
    }
}

} // verus!
