//! The read side: what a preview, playback and a lossless trim need from a saved MP4.
//!
//! What a clip's `moov` says of its video track is held as plain tables ([`VideoHead`]); everything
//! here works on those.

use crate::clock::Duration;
use crate::encode::EncodedChunk;
use crate::mux::video_sample;
use crate::nal::{annexb, append_nal, avcc_units, law_stored_units_read_back, start_code};
use crate::nal::{units, AvccFault};
use vstd::prelude::*;

verus! {

/// Fraction of the clip duration to prefer for a thumbnail, in millionths. Past the intro,
/// before anything a mid-clip resume would cut short.
pub const PREVIEW_POSITION: u32 = 400_000;

/// One whole, in millionths.
pub const WHOLE: u32 = 1_000_000;

/// Errors from reading a clip back.
#[derive(Debug, Clone, PartialEq, Eq)]
pub enum ReadError {
    /// The file could not be read.
    Io {
        /// The clip's path.
        path: String,
        /// What the system said.
        source: String,
    },
    /// The file is not an MP4 this reader understands (truncated, corrupt, foreign).
    Mp4(String),
    /// The file has no H.264 video track.
    NoVideoTrack,
    /// No sync sample to decode (an empty or delta-only track).
    NoKeyframe,
    /// An AVCC sample whose length prefixes overrun the sample (or an invalid prefix size).
    MalformedSample,
    /// The metadata contradicts itself.
    Corrupt,
}

impl ReadError {
    /// The error in words.
    pub open spec fn text(self) -> Seq<char> {
        match self {
            ReadError::Io { path, source } => "could not read "@ + path@ + ": "@ + source@,
            ReadError::Mp4(why) => "not a readable MP4: "@ + why@,
            ReadError::NoVideoTrack => "the file has no H.264 video track"@,
            ReadError::NoKeyframe => "the video track has no keyframe"@,
            ReadError::MalformedSample => "the keyframe sample is malformed"@,
            ReadError::Corrupt => "the MP4 metadata is corrupt"@,
        }
    }

    /// What went wrong, in words.
    pub fn message(&self) -> (r: String)
        ensures
            r@ == self.text(),
    {
        match self {
            ReadError::Io { path, source } => "could not read ".to_owned().concat(
                path.as_str(),
            ).concat(": ").concat(source.as_str()),
            ReadError::Mp4(why) => "not a readable MP4: ".to_owned().concat(why.as_str()),
            ReadError::NoVideoTrack => "the file has no H.264 video track".to_owned(),
            ReadError::NoKeyframe => "the video track has no keyframe".to_owned(),
            ReadError::MalformedSample => "the keyframe sample is malformed".to_owned(),
            ReadError::Corrupt => "the MP4 metadata is corrupt".to_owned(),
        }
    }
}

/// What a library card shows about a clip without decoding it.
#[derive(Debug, Clone, Copy, PartialEq, Eq)]
pub struct ClipSummary {
    /// Width in pixels.
    pub width: u32,
    /// Height in pixels.
    pub height: u32,
    /// Length of the video track.
    pub duration: Duration,
}

/// One sample of a track as it was read.
#[derive(Debug, Clone, PartialEq, Eq)]
pub struct ClipSample {
    /// Decode time, in the track's timescale.
    pub start_time: u64,
    /// How long it lasts, in the track's timescale.
    pub duration: u32,
    /// What to add to the decode time for the presentation time.
    pub rendering_offset: i32,
    /// Whether decoding can begin here.
    pub is_sync: bool,
    /// The sample's bytes.
    pub bytes: Vec<u8>,
}

/// Which track a clip's video is in: its id and whether it is H.264 video.
#[derive(Debug, Clone, Copy, PartialEq, Eq)]
pub struct TrackKind {
    /// The track's id.
    pub id: u32,
    /// Whether its handler is the video handler.
    pub is_video: bool,
    /// Whether its sample entry is H.264.
    pub is_h264: bool,
}

/// Whether track `k` of `tracks` is an H.264 video track.
pub open spec fn h264_video(tracks: Seq<TrackKind>, k: int) -> bool {
    0 <= k < tracks.len() && tracks[k].is_video && tracks[k].is_h264
}

/// Whether `r` is the least id of the H.264 video tracks, or says that there is none.
pub open spec fn found_video(tracks: Seq<TrackKind>, r: Result<u32, ReadError>) -> bool {
    match r {
        Ok(id) => (exists|k: int| #[trigger] h264_video(tracks, k) && tracks[k].id == id)
            && forall|k: int| #[trigger] h264_video(tracks, k) ==> id <= tracks[k].id,
        Err(e) => e == ReadError::NoVideoTrack && forall|k: int| !#[trigger] h264_video(tracks, k),
    }
}

/// The id of the first H.264 video track: the least id among them.
pub fn video_track(tracks: &[TrackKind]) -> (r: Result<u32, ReadError>)
    ensures
        found_video(tracks@, r),
{
    let mut best: Option<u32> = None;
    let mut i: usize = 0;
    while i < tracks.len()
        invariant
            i <= tracks.len(),
            match best {
                Some(id) => (exists|k: int|
                    k < i && #[trigger] h264_video(tracks@, k) && tracks@[k].id == id) && forall|
                    k: int,
                |
                    k < i && #[trigger] h264_video(tracks@, k) ==> id <= tracks@[k].id,
                None => forall|k: int| k < i ==> !#[trigger] h264_video(tracks@, k),
            },
        decreases tracks.len() - i,
    {
        let t = &tracks[i];
        if t.is_video && t.is_h264 {
            proof {
                assert(h264_video(tracks@, i as int));
            }
            match best {
                Some(id) => {
                    if t.id < id {
                        best = Some(t.id);
                    }
                },
                None => {
                    best = Some(t.id);
                },
            }
        }
        i = i + 1;
    }
    match best {
        Some(id) => Ok(id),
        None => Err(ReadError::NoVideoTrack),
    }
}

/// The sample NAL length-prefix size that an `avcC` declares: 1, 2, or 4 bytes (the write side
/// always uses 4; 3 is invalid per ISO 14496-15 and rejected). Only the low two bits of the
/// field are meaningful.
pub fn nal_length_size(length_size_minus_one: u8) -> (r: Result<usize, ReadError>)
    ensures
        match r {
            Ok(size) => size == length_size_minus_one % 4 + 1 && size != 3,
            Err(e) => e == ReadError::MalformedSample && length_size_minus_one % 4 == 2,
        },
{
    let size: usize = (length_size_minus_one % 4) as usize + 1;
    if size == 3 {
        Err(ReadError::MalformedSample)
    } else {
        Ok(size)
    }
}

/// Convert one AVCC sample (big-endian length prefixes of `prefix_size` bytes, per the
/// track's `avcC`) into Annex-B, appending to `out`. Where the sample is malformed, the NAL
/// units before the fault have been appended.
pub fn avcc_to_annexb(sample: &[u8], prefix_size: usize, out: &mut Vec<u8>) -> (r: Result<
    (),
    ReadError,
>)
    requires
        1 <= prefix_size <= 4,
    ensures
        final(out)@ == old(out)@ + annexb(avcc_units(sample@, prefix_size as int, 0).0),
        match r {
            Ok(()) => avcc_units(sample@, prefix_size as int, 0).1 is None,
            Err(e) => e == ReadError::MalformedSample && avcc_units(
                sample@,
                prefix_size as int,
                0,
            ).1 is Some,
        },
{
    match crate::annexb::annexb_from_avcc(sample, prefix_size, out) {
        Ok(()) => Ok(()),
        Err(_) => Err(ReadError::MalformedSample),
    }
}

/// The parameter sets and then the NAL units of a sample, all in Annex-B form.
pub open spec fn keyframe_annexb(
    sps: Seq<u8>,
    pps: Seq<u8>,
    prefix_size: int,
    sample: Seq<u8>,
) -> Seq<u8> {
    start_code() + sps + start_code() + pps + annexb(avcc_units(sample, prefix_size, 0).0)
}

/// The part of a clip's video track that its `avcC` and headers declare.
#[derive(Debug, PartialEq, Eq)]
pub struct VideoHead {
    /// The track's timescale; 0 counts as 1.
    pub timescale: u32,
    /// Width in pixels.
    pub width: u16,
    /// Height in pixels.
    pub height: u16,
    /// Length of the track in microseconds.
    pub duration_micros: u64,
    /// How many samples the track declares.
    pub sample_count: u32,
    /// The length-prefix field of the `avcC`.
    pub length_size_minus_one: u8,
    /// The first sequence parameter set, or why there is none.
    pub sps: Result<Vec<u8>, String>,
    /// The first picture parameter set, or why there is none.
    pub pps: Result<Vec<u8>, String>,
}

/// What became of bytes that were asked for.
pub open spec fn bytes_of(r: Result<Vec<u8>, ReadError>) -> Result<Seq<u8>, ReadError> {
    match r {
        Ok(bytes) => Ok(bytes@),
        Err(e) => Err(e),
    }
}

/// The dimensions and duration that a clip's video headers give.
pub fn clip_summary(head: &VideoHead) -> (r: ClipSummary)
    ensures
        head.summed_up(r),
{
    ClipSummary {
        width: head.width as u32,
        height: head.height as u32,
        duration: Duration::from_micros(head.duration_micros),
    }
}

impl VideoHead {
    /// Whether a summary gives the dimensions and the duration.
    pub open spec fn summed_up(self, summary: ClipSummary) -> bool {
        &&& summary.width == self.width
        &&& summary.height == self.height
        &&& summary.duration@ == self.duration_micros * 1_000
    }

    /// The keyframe `sample` as a self-contained Annex-B buffer, or why there is none.
    pub open spec fn keyframe_of(self, sample: Option<ClipSample>) -> Result<Seq<u8>, ReadError> {
        match self.head_error() {
            Some(e) => Err(e),
            None => match sample {
                Some(s) if s.is_sync => {
                    let size = self.length_size_minus_one % 4 + 1;
                    if avcc_units(s.bytes@, size, 0).1 is None {
                        Ok(keyframe_annexb(self.sps->Ok_0@, self.pps->Ok_0@, size, s.bytes@))
                    } else {
                        Err(ReadError::MalformedSample)
                    }
                },
                _ => Err(ReadError::NoKeyframe),
            },
        }
    }

    /// The first keyframe among `samples`, whose reading `failure` ended, if anything did.
    pub open spec fn first_keyframe_of(
        self,
        samples: Seq<ClipSample>,
        failure: Option<ReadError>,
    ) -> Result<Seq<u8>, ReadError> {
        match (self.head_error(), first_sync(samples, 0)) {
            (Some(e), _) => Err(e),
            (None, Some(k)) => self.keyframe_of(Some(samples[k])),
            (None, None) => Err(
                match failure {
                    Some(e) => e,
                    None => ReadError::NoKeyframe,
                },
            ),
        }
    }

    /// The timescale to divide by.
    pub open spec fn scale(self) -> nat {
        crate::seek::scale_of(self.timescale)
    }

    /// The first of the reasons for which the track cannot be decoded, the parameter sets
    /// before the prefix size.
    pub open spec fn head_error(self) -> Option<ReadError> {
        match self.sps {
            Err(why) => Some(ReadError::Mp4(why)),
            Ok(_) => match self.pps {
                Err(why) => Some(ReadError::Mp4(why)),
                Ok(_) => if self.length_size_minus_one % 4 == 2 {
                    Some(ReadError::MalformedSample)
                } else {
                    None
                },
            },
        }
    }

    /// The parameter sets in Annex-B form, and the prefix size.
    pub fn decoder_setup(&self) -> (r: Result<(Vec<u8>, usize), ReadError>)
        ensures
            match r {
                Ok((header, size)) => self.head_error() is None && 1 <= size <= 4 && size
                    == self.length_size_minus_one % 4 + 1 && header@ == start_code()
                    + self.sps->Ok_0@ + start_code() + self.pps->Ok_0@,
                Err(e) => self.head_error() == Some(e),
            },
    {
        let mut out: Vec<u8> = Vec::new();
        match &self.sps {
            Ok(sps) => append_nal(&mut out, sps.as_slice()),
            Err(why) => {
                return Err(ReadError::Mp4(why.clone()));
            },
        }
        match &self.pps {
            Ok(pps) => append_nal(&mut out, pps.as_slice()),
            Err(why) => {
                return Err(ReadError::Mp4(why.clone()));
            },
        }
        let size: usize = match nal_length_size(self.length_size_minus_one) {
            Ok(size) => size,
            Err(e) => {
                return Err(e);
            },
        };
        proof {
            assert(out@ =~= start_code() + self.sps->Ok_0@ + start_code() + self.pps->Ok_0@);
        }
        Ok((out, size))
    }

    /// The keyframe `sample` as a self-contained Annex-B buffer (`avcC` SPS/PPS, then the
    /// sample's NALs). The caller picks a sync sample; a missing or non-sync one would not
    /// decode alone, so it is reported as [`ReadError::NoKeyframe`].
    pub fn keyframe_at(&self, sample: Option<&ClipSample>) -> (r: Result<Vec<u8>, ReadError>)
        ensures
            bytes_of(r) == self.keyframe_of(
                match sample {
                    Some(s) => Some(*s),
                    None => None,
                },
            ),
    {
        let (mut out, size) = match self.decoder_setup() {
            Ok(setup) => setup,
            Err(e) => {
                return Err(e);
            },
        };
        match sample {
            Some(s) => if s.is_sync {
                match avcc_to_annexb(s.bytes.as_slice(), size, &mut out) {
                    Ok(()) => Ok(out),
                    Err(e) => Err(e),
                }
            } else {
                Err(ReadError::NoKeyframe)
            },
            None => Err(ReadError::NoKeyframe),
        }
    }

    /// The first keyframe among `samples` as a self-contained Annex-B buffer: the `avcC`
    /// SPS/PPS, then the sync sample's NAL units, all start-code delimited — what a raw
    /// H.264 decoder wants for a single-frame decode. `failure` is what ended the reading of
    /// `samples`, if anything did.
    pub fn first_keyframe_annexb(&self, samples: &[ClipSample], failure: &Option<ReadError>) -> (r:
        Result<Vec<u8>, ReadError>)
        ensures
            bytes_of(r) == self.first_keyframe_of(samples@, *failure),
    {
        match self.decoder_setup() {
            Ok(_) => {},
            Err(e) => {
                return Err(e);
            },
        }
        let mut i: usize = 0;
        while i < samples.len()
            invariant
                i <= samples.len(),
                self.head_error() is None,
                first_sync(samples@, 0) == first_sync(samples@, i as int),
            decreases samples.len() - i,
        {
            if samples[i].is_sync {
                return self.keyframe_at(Some(&samples[i]));
            }
            i = i + 1;
        }
        match failure {
            Some(e) => Err(clone_error(e)),
            None => Err(ReadError::NoKeyframe),
        }
    }
}

/// The first sync sample from the `k`-th on.
pub open spec fn first_sync(samples: Seq<ClipSample>, k: int) -> Option<int>
    decreases samples.len() - k,
{
    if k >= samples.len() {
        None
    } else if samples[k].is_sync {
        Some(k)
    } else {
        first_sync(samples, k + 1)
    }
}

/// The same error once more.
pub(crate) fn clone_error(e: &ReadError) -> (r: ReadError)
    ensures
        r == *e,
{
    match e {
        ReadError::Io { path, source } => ReadError::Io {
            path: path.clone(),
            source: source.clone(),
        },
        ReadError::Mp4(why) => ReadError::Mp4(why.clone()),
        ReadError::NoVideoTrack => ReadError::NoVideoTrack,
        ReadError::NoKeyframe => ReadError::NoKeyframe,
        ReadError::MalformedSample => ReadError::MalformedSample,
        ReadError::Corrupt => ReadError::Corrupt,
    }
}

/// What is read of a frame that was muxed are the NAL units of the frame that was encoded, and
/// nothing of it is malformed; read as a keyframe, they follow the parameter sets.
pub proof fn law_muxed_frame_reads_back(
    video: Seq<EncodedChunk>,
    i: int,
    framerate: u32,
    sps: Seq<u8>,
    pps: Seq<u8>,
)
    requires
        0 <= i < video.len(),
        video[i].bytes@.len() < 0x1_0000_0000,
    ensures
        avcc_units(video_sample(video, i, framerate).bytes, 4, 0) == (
            units(video[i].bytes@),
            None::<AvccFault>,
        ),
        keyframe_annexb(sps, pps, 4, video_sample(video, i, framerate).bytes) == start_code() + sps
            + start_code() + pps + annexb(units(video[i].bytes@)),
{
    law_stored_units_read_back(video[i].bytes@);
}

/// The keyframe of a clip is its first sync sample, whatever comes before and after it: the
/// sample's NAL units behind the SPS and the PPS of the head. Where there is no sync sample, there
/// is no keyframe.
pub proof fn law_first_keyframe_is_the_first_sync(head: VideoHead, samples: Seq<ClipSample>, k: int)
    requires
        head.head_error() is None,
        0 <= k <= samples.len(),
        forall|j: int| 0 <= j < k ==> !(#[trigger] samples[j]).is_sync,
        k < samples.len() ==> samples[k].is_sync && avcc_units(
            samples[k].bytes@,
            head.length_size_minus_one as int % 4 + 1,
            0,
        ).1 is None,
    ensures
        k < samples.len() ==> head.first_keyframe_of(samples, None) == Ok::<Seq<u8>, ReadError>(
            start_code() + head.sps->Ok_0@ + start_code() + head.pps->Ok_0@ + annexb(
                avcc_units(samples[k].bytes@, head.length_size_minus_one as int % 4 + 1, 0).0,
            ),
        ),
        k == samples.len() ==> head.first_keyframe_of(samples, None) == Err::<Seq<u8>, ReadError>(
            ReadError::NoKeyframe,
        ),
{
    lemma_first_sync_from(samples, 0, k);
}

proof fn lemma_first_sync_from(samples: Seq<ClipSample>, from: int, k: int)
    requires
        0 <= from <= k <= samples.len(),
        forall|j: int| 0 <= j < k ==> !(#[trigger] samples[j]).is_sync,
        k < samples.len() ==> samples[k].is_sync,
    ensures
        first_sync(samples, from) == if k < samples.len() {
            Some(k)
        } else {
            None
        },
    decreases k - from,
{
    if from < k {
        lemma_first_sync_from(samples, from + 1, k);
    }
}

/// A clip is summed up by the size and the length that its header declares.
pub proof fn law_summary_is_the_clips(head: VideoHead, r: ClipSummary)
    requires
        call_ensures(clip_summary, (&head,), r),
    ensures
        r.width == head.width,
        r.height == head.height,
        r.duration@ == 1_000 * head.duration_micros,
{
}

/// The track that is read is the H.264 video track of the lowest id, and it is found wherever
/// there is one.
pub proof fn law_video_track_is_found(tracks: &[TrackKind], r: Result<u32, ReadError>, at: int)
    requires
        call_ensures(video_track, (tracks,), r),
    ensures
        0 <= at < tracks@.len() && tracks@[at].is_video && tracks@[at].is_h264 ==> r is Ok && r->Ok_0
            <= tracks@[at].id,
        r matches Ok(id) ==> exists|j: int|
            0 <= j < tracks@.len() && (#[trigger] tracks@[j]).id == id && tracks@[j].is_video
                && tracks@[j].is_h264,
        r matches Err(e) ==> e is NoVideoTrack,
{
    if 0 <= at < tracks@.len() && tracks@[at].is_video && tracks@[at].is_h264 {
        assert(h264_video(tracks@, at));
    }
    if r is Ok {
        let j = choose|j: int| #[trigger] h264_video(tracks@, j) && tracks@[j].id == r->Ok_0;
        assert(tracks@[j].id == r->Ok_0);
    }
}

} // verus!
