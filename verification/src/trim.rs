//! Lossless trimming: which samples of a saved clip make up a shorter one.
//!
//! The start snaps back to the nearest keyframe at or before the requested start, so the cut
//! needs no re-encode and the result stays decodable; every video frame through the end is
//! kept, and the audio packets in the same window ride along.

use crate::clock::{Duration, MAX_NANOS};
use crate::encode::{EncodedAudioChunk, EncodedChunk};
use crate::mux::{countable, is_countable, laid_out, law_movie_carries_every_frame};
use crate::mux::{law_movie_carries_every_track, AudioTrack, Movie, Mp4Muxer, MuxError};
use crate::nal::{annexb, append_nal, avcc_units, clean_unit, law_annexb_read_back, start_code};
use crate::nal::units;
use crate::read::{avcc_to_annexb, clone_error, first_sync, nal_length_size, ClipSample};
use crate::read::{ReadError, VideoHead};
use crate::seek::{law_time_is_nearest, nanos_of, presented_at, scale_of, time_of, units_of};
use vstd::prelude::*;

verus! {

/// Errors from trimming.
#[derive(Debug)]
pub enum TrimError {
    /// The source could not be read (missing, corrupt, or no video track).
    Read(ReadError),
    /// Writing the trimmed clip failed.
    Mux(MuxError),
    /// The requested window selected no frames (empty, reversed, or past the clip's end).
    EmptyRange,
}

impl TrimError {
    /// What went wrong, in words.
    pub fn message(&self) -> (r: String)
        ensures
            r@ == match *self {
                TrimError::Read(e) => e.text(),
                TrimError::Mux(e) => "writing the trimmed clip failed: "@ + e.text(),
                TrimError::EmptyRange => "the trim range is empty"@,
            },
    {
        match self {
            TrimError::Read(e) => e.message(),
            TrimError::Mux(e) => {
                let why = e.message();
                "writing the trimmed clip failed: ".to_owned().concat(why.as_str())
            },
            TrimError::EmptyRange => "the trim range is empty".to_owned(),
        }
    }
}

/// What a completed trim produced.
#[derive(Debug, Clone, Copy, PartialEq, Eq)]
pub struct TrimSummary {
    /// Duration of the trimmed clip, from its (keyframe-aligned) start to the last kept frame.
    pub duration: Duration,
}

/// A clip's video track as it was read.
#[derive(Debug)]
pub struct VideoSource {
    /// What the headers declare.
    pub head: VideoHead,
    /// The samples, up to the first that is missing or cannot be read.
    pub samples: Vec<ClipSample>,
    /// Why reading stopped, where it stopped on an error.
    pub failure: Option<ReadError>,
}

/// One of a clip's Opus tracks as it was read.
#[derive(Debug)]
pub struct OpusSource {
    /// The track's id.
    pub id: u32,
    /// The channel count of the `dOps`, where there is one.
    pub channels: Option<u8>,
    /// The track's timescale.
    pub timescale: u32,
    /// The packets, up to the first that is missing or cannot be read.
    pub samples: Vec<ClipSample>,
    /// Why reading stopped, where it stopped on an error.
    pub failure: Option<ReadError>,
}

/// What a trim keeps of an Opus track.
#[derive(Debug)]
pub struct TrimAudio {
    /// The track's id.
    pub id: u32,
    /// Channel count.
    pub channels: u8,
    /// Sample rate.
    pub sample_rate: u32,
    /// The kept packets.
    pub chunks: Vec<EncodedAudioChunk>,
}

/// A trimmed clip, ready to be muxed.
#[derive(Debug)]
pub struct TrimPlan {
    /// Width in pixels.
    pub width: u32,
    /// Height in pixels.
    pub height: u32,
    /// Frame rate of the source, for the last frame's duration.
    pub fps: u32,
    /// The kept frames; the first carries the parameter sets inline.
    pub video: Vec<EncodedChunk>,
    /// The kept packets of each Opus track, in track-id order.
    pub audio: Vec<TrimAudio>,
    /// What is reported of the trim.
    pub summary: TrimSummary,
}

/// The frame rate of a track, rounded, between 1 and 240; 60 where its duration is unknown.
pub open spec fn rate_of(sample_count: u32, duration_micros: u64) -> nat {
    if duration_micros == 0 {
        60
    } else {
        let rate = (2 * sample_count * 1_000_000 + duration_micros) as nat / (2
            * duration_micros) as nat;
        if rate < 1 {
            1
        } else if rate > 240 {
            240
        } else {
            rate
        }
    }
}

/// One frame period in nanoseconds, to the nearest.
pub open spec fn period(fps: nat) -> nat {
    (2_000_000_000 + fps) / (2 * fps)
}

/// When sample `i` is presented, in nanoseconds.
pub open spec fn shown(samples: Seq<ClipSample>, i: int, scale: nat) -> nat {
    nanos_of(units_of(samples[i].start_time, samples[i].rendering_offset), scale)
}

/// The last of the first `n` samples that is a keyframe at or before `start`.
pub open spec fn last_keyframe(samples: Seq<ClipSample>, scale: nat, start: nat, n: int) -> Option<
    int,
>
    decreases n,
{
    if n <= 0 {
        None
    } else if samples[n - 1].is_sync && shown(samples, n - 1, scale) <= start {
        Some(n - 1)
    } else {
        last_keyframe(samples, scale, start, n - 1)
    }
}

/// The first frame that a trim keeps: the last keyframe at or before `start`, else the first
/// keyframe, else the first frame.
pub open spec fn first_kept(samples: Seq<ClipSample>, scale: nat, start: nat) -> int {
    match last_keyframe(samples, scale, start, samples.len() as int) {
        Some(i) => i,
        None => match first_sync(samples, 0) {
            Some(i) => i,
            None => 0,
        },
    }
}

/// The last frame that a trim keeps: of the first `n`, the last one from `first` on that is
/// presented at or before `end`.
pub open spec fn last_kept(
    samples: Seq<ClipSample>,
    scale: nat,
    end: nat,
    first: int,
    n: int,
) -> Option<int>
    decreases n,
{
    if n <= first || n <= 0 {
        None
    } else if shown(samples, n - 1, scale) <= end {
        Some(n - 1)
    } else {
        last_kept(samples, scale, end, first, n - 1)
    }
}

/// Whether every sample is well-formed AVCC.
pub open spec fn well_formed(samples: Seq<ClipSample>, size: int) -> bool {
    forall|i: int| 0 <= i < samples.len() ==> avcc_units((#[trigger] samples[i]).bytes@, size, 0).1
        is None
}

/// The window of frames that a trim keeps, or `None` where it keeps nothing: there are no
/// frames, or the window starts at or after the clip's end, or it ends before its first frame.
pub open spec fn window(
    samples: Seq<ClipSample>,
    scale: nat,
    frame: nat,
    start: nat,
    end: nat,
) -> Option<(int, int)> {
    if samples.len() == 0 || start >= shown(samples, samples.len() - 1, scale) + frame {
        None
    } else {
        let first = first_kept(samples, scale, start);
        match last_kept(samples, scale, end, first, samples.len() as int) {
            Some(last) => Some((first, last)),
            None => None,
        }
    }
}

/// The Annex-B form of a kept sample, the first one behind the parameter sets.
pub open spec fn kept_bytes(head: VideoHead, sample: ClipSample, is_first: bool) -> Seq<u8> {
    let size = head.length_size_minus_one % 4 + 1;
    let body = annexb(avcc_units(sample.bytes@, size, 0).0);
    if is_first {
        start_code() + head.sps->Ok_0@ + start_code() + head.pps->Ok_0@ + body
    } else {
        body
    }
}

/// Whether `chunks` are frames `first` to `last` of the track.
pub open spec fn keeps_frames(
    chunks: Seq<EncodedChunk>,
    video: VideoSource,
    first: int,
    last: int,
) -> bool {
    &&& chunks.len() == last - first + 1
    &&& forall|k: int|
        0 <= k < chunks.len() ==> (#[trigger] chunks[k]).pts@ == shown(
            video.samples@,
            first + k,
            video.head.scale(),
        ) && chunks[k].is_keyframe == video.samples@[first + k].is_sync && chunks[k].bytes@
            == kept_bytes(video.head, video.samples@[first + k], k == 0)
}

/// When a packet is presented, in nanoseconds.
pub open spec fn heard(packets: Seq<ClipSample>, i: int, rate: nat) -> nat {
    nanos_of(packets[i].start_time as nat, rate)
}

/// The first packet from the `k`-th on that is presented after `hi`, or the end.
pub open spec fn packet_stop(packets: Seq<ClipSample>, rate: nat, hi: nat, k: int) -> int
    decreases packets.len() - k,
{
    if k >= packets.len() {
        packets.len() as int
    } else if heard(packets, k, rate) > hi {
        k
    } else {
        packet_stop(packets, rate, hi, k + 1)
    }
}

/// Those of the first `n` packets that are presented at or after `lo`.
pub open spec fn from_low(packets: Seq<ClipSample>, rate: nat, lo: nat, n: int) -> Seq<int>
    decreases n,
{
    if n <= 0 {
        Seq::empty()
    } else if heard(packets, n - 1, rate) < lo {
        from_low(packets, rate, lo, n - 1)
    } else {
        from_low(packets, rate, lo, n - 1).push(n - 1)
    }
}

/// Whether `chunks` are the packets `which`.
pub open spec fn keeps_packets(
    chunks: Seq<EncodedAudioChunk>,
    packets: Seq<ClipSample>,
    rate: nat,
    which: Seq<int>,
) -> bool {
    &&& chunks.len() == which.len()
    &&& forall|k: int|
        0 <= k < chunks.len() ==> (#[trigger] chunks[k]).bytes@ == packets[which[k]].bytes@
            && chunks[k].frames == packets[which[k]].duration && chunks[k].pts@ == heard(
            packets,
            which[k],
            rate,
        )
}

/// Whether `cut` is what the window from `lo` to `hi` keeps of `source`: the packets presented
/// in it, up to the first one after it.
pub open spec fn cut_of(cut: TrimAudio, source: OpusSource, lo: nat, hi: nat) -> bool {
    let rate = scale_of(source.timescale);
    &&& cut.id == source.id
    &&& cut.sample_rate == rate
    &&& cut.channels == match source.channels {
        Some(n) => if n == 0 {
            1
        } else {
            n
        },
        None => 2u8,
    }
    &&& keeps_packets(
        cut.chunks@,
        source.samples@,
        rate,
        from_low(source.samples@, rate, lo, packet_stop(source.samples@, rate, hi, 0)),
    )
}

/// Whether the window up to `hi` runs into the error that ended the reading of a track.
pub open spec fn broken(source: OpusSource, hi: nat) -> bool {
    source.failure is Some && packet_stop(source.samples@, scale_of(source.timescale), hi, 0)
        == source.samples@.len()
}

/// The frame rate of a track.
pub fn estimate_rate(sample_count: u32, duration_micros: u64) -> (fps: u32)
    ensures
        fps == rate_of(sample_count, duration_micros),
        1 <= fps <= 240,
{
    if duration_micros == 0 {
        return 60;
    }
    let rate: u128 = (2 * sample_count as u128 * 1_000_000 + duration_micros as u128) / (2
        * duration_micros as u128);
    if rate < 1 {
        1
    } else if rate > 240 {
        240
    } else {
        rate as u32
    }
}

/// The first and the last frame that a trim keeps.
pub fn trim_window(
    samples: &Vec<ClipSample>,
    timescale: u32,
    frame: u64,
    start: Duration,
    end: Duration,
) -> (r: Option<(usize, usize)>)
    requires
        timescale > 0,
    ensures
        match r {
            Some((first, last)) => first <= last < samples.len() && window(
                samples@,
                timescale as nat,
                frame as nat,
                start@,
                end@,
            ) == Some((first as int, last as int)),
            None => window(samples@, timescale as nat, frame as nat, start@, end@) is None,
        },
{
    let n: usize = samples.len();
    if n == 0 {
        return None;
    }
    let tail = &samples[n - 1];
    let clip_end: u128 = presented_at(
        tail.start_time,
        tail.rendering_offset,
        timescale,
    ).as_nanos() + frame as u128;
    if start.as_nanos() >= clip_end {
        return None;
    }
    let first: usize = first_kept_of(samples, timescale, start);
    let mut k: usize = n;
    while k > first
        invariant
            first < n,
            first <= k <= n,
            n == samples.len(),
            timescale > 0,
            last_kept(samples@, timescale as nat, end@, first as int, n as int) == last_kept(
                samples@,
                timescale as nat,
                end@,
                first as int,
                k as int,
            ),
            first == first_kept(samples@, timescale as nat, start@),
            start@ < shown(samples@, n - 1, timescale as nat) + frame,
        decreases k,
    {
        let s = &samples[k - 1];
        if presented_at(s.start_time, s.rendering_offset, timescale).at_most(&end) {
            return Some((first, k - 1));
        }
        k = k - 1;
    }
    None
}

/// The first frame that a trim keeps.
fn first_kept_of(samples: &Vec<ClipSample>, timescale: u32, start: Duration) -> (first: usize)
    requires
        timescale > 0,
        samples.len() > 0,
    ensures
        first < samples.len(),
        first == first_kept(samples@, timescale as nat, start@),
{
    let n: usize = samples.len();
    let mut k: usize = n;
    while k > 0
        invariant
            k <= n,
            n == samples.len(),
            timescale > 0,
            last_keyframe(samples@, timescale as nat, start@, n as int) == last_keyframe(
                samples@,
                timescale as nat,
                start@,
                k as int,
            ),
        decreases k,
    {
        let s = &samples[k - 1];
        if s.is_sync && presented_at(s.start_time, s.rendering_offset, timescale).at_most(&start) {
            return k - 1;
        }
        k = k - 1;
    }
    let mut i: usize = 0;
    while i < n
        invariant
            i <= n,
            n == samples.len(),
            last_keyframe(samples@, timescale as nat, start@, n as int) is None,
            first_sync(samples@, 0) == first_sync(samples@, i as int),
        decreases n - i,
    {
        if samples[i].is_sync {
            return i;
        }
        i = i + 1;
    }
    0
}

/// What the window from `lo` to `hi` keeps of an Opus track, or the error that it runs into.
pub fn cut_audio(source: &OpusSource, lo: Duration, hi: Duration) -> (r: Result<
    TrimAudio,
    ReadError,
>)
    ensures
        match r {
            Ok(cut) => !broken(*source, hi@) && cut_of(cut, *source, lo@, hi@),
            Err(e) => broken(*source, hi@) && source.failure == Some(e),
        },
{
    let rate: u32 = if source.timescale == 0 {
        1
    } else {
        source.timescale
    };
    let channels: u8 = match source.channels {
        Some(n) => if n == 0 {
            1
        } else {
            n
        },
        None => 2,
    };
    let packets = &source.samples;
    let mut chunks: Vec<EncodedAudioChunk> = Vec::new();
    let mut i: usize = 0;
    let mut stopped = false;
    while i < packets.len() && !stopped
        invariant
            i <= packets.len(),
            rate == scale_of(source.timescale),
            rate > 0,
            *packets == source.samples,
            stopped ==> packet_stop(packets@, rate as nat, hi@, 0) == i && i < packets.len(),
            !stopped ==> packet_stop(packets@, rate as nat, hi@, 0) == packet_stop(
                packets@,
                rate as nat,
                hi@,
                i as int,
            ),
            keeps_packets(
                chunks@,
                packets@,
                rate as nat,
                from_low(packets@, rate as nat, lo@, i as int),
            ),
        decreases packets.len() - i + if stopped { 0int } else { 1int },
    {
        let packet = &packets[i];
        let pts = time_of(packet.start_time, rate);
        if !pts.at_most(&hi) {
            stopped = true;
        } else {
            if lo.at_most(&pts) {
                let bytes = packet.bytes.clone();
                proof {
                    assert(bytes@ =~= packet.bytes@);
                }
                chunks.push(EncodedAudioChunk { bytes, frames: packet.duration, pts });
            }
            i = i + 1;
        }
    }
    if !stopped {
        match &source.failure {
            Some(e) => {
                return Err(clone_error(e));
            },
            None => {},
        }
    }
    Ok(TrimAudio { id: source.id, channels, sample_rate: rate, chunks })
}

/// Why the head of a track stops a trim: an invalid prefix size before missing parameter sets.
pub open spec fn setup_error(head: VideoHead) -> Option<ReadError> {
    if head.length_size_minus_one % 4 == 2 {
        Some(ReadError::MalformedSample)
    } else {
        match head.sps {
            Err(why) => Some(ReadError::Mp4(why)),
            Ok(_) => match head.pps {
                Err(why) => Some(ReadError::Mp4(why)),
                Ok(_) => None,
            },
        }
    }
}

/// Why the video track stops a trim.
pub open spec fn video_error(video: VideoSource) -> Option<ReadError> {
    match setup_error(video.head) {
        Some(e) => Some(e),
        None => if !well_formed(video.samples@, video.head.length_size_minus_one % 4 + 1) {
            Some(ReadError::MalformedSample)
        } else {
            video.failure
        },
    }
}

/// One frame period of a track, in nanoseconds.
pub open spec fn frame_of(head: VideoHead) -> nat {
    period(rate_of(head.sample_count, head.duration_micros))
}

/// The frames that a trim keeps of a track.
pub open spec fn kept_window(video: VideoSource, start: Duration, end: Duration) -> Option<
    (int, int),
> {
    window(video.samples@, video.head.scale(), frame_of(video.head), start@, end@)
}

/// Whether no two tracks have one id.
pub open spec fn distinct_ids(audio: Seq<OpusSource>) -> bool {
    forall|i: int, j: int|
        0 <= i < j < audio.len() ==> (#[trigger] audio[i]).id != (#[trigger] audio[j]).id
}

/// Whether `cut` is the window from `lo` to `hi` of one of the tracks.
pub open spec fn cut_from(cut: TrimAudio, audio: Seq<OpusSource>, lo: nat, hi: nat) -> bool {
    exists|j: int| 0 <= j < audio.len() && cut_of(cut, #[trigger] audio[j], lo, hi)
}

/// Whether the tracks of `cuts` are those of `audio` in the order of their ids, each cut to the
/// window from `lo` to `hi`.
pub open spec fn cuts_of(
    cuts: Seq<TrimAudio>,
    audio: Seq<OpusSource>,
    lo: nat,
    hi: nat,
) -> bool {
    &&& cuts.len() == audio.len()
    &&& forall|i: int, j: int|
        0 <= i < j < cuts.len() ==> (#[trigger] cuts[i]).id < (#[trigger] cuts[j]).id
    &&& forall|k: int| 0 <= k < cuts.len() ==> cut_from(#[trigger] cuts[k], audio, lo, hi)
}

/// Whether `e` is what the first track to fail, in the order of the ids, failed on.
pub open spec fn first_failure(audio: Seq<OpusSource>, hi: nat, e: ReadError) -> bool {
    exists|j: int|
        0 <= j < audio.len() && broken(#[trigger] audio[j], hi) && audio[j].failure == Some(e)
            && forall|i: int|
            0 <= i < audio.len() && broken(#[trigger] audio[i], hi) ==> audio[j].id <= audio[i].id
}

/// The kept frames of a track.
fn keep_frames(video: &VideoSource, size: usize, first: usize, last: usize) -> (r: Vec<
    EncodedChunk,
>)
    requires
        first <= last < video.samples.len(),
        size == video.head.length_size_minus_one % 4 + 1,
        video.head.sps is Ok,
        video.head.pps is Ok,
    ensures
        keeps_frames(r@, *video, first as int, last as int),
{
    let scale: u32 = if video.head.timescale == 0 {
        1
    } else {
        video.head.timescale
    };
    let mut chunks: Vec<EncodedChunk> = Vec::new();
    let mut i: usize = first;
    while i <= last
        invariant
            first <= i <= last + 1,
            last < video.samples.len(),
            scale == video.head.scale(),
            scale > 0,
            size == video.head.length_size_minus_one % 4 + 1,
            video.head.sps is Ok,
            video.head.pps is Ok,
            chunks@.len() == i - first,
            forall|k: int|
                0 <= k < chunks@.len() ==> (#[trigger] chunks@[k]).pts@ == shown(
                    video.samples@,
                    first + k,
                    video.head.scale(),
                ) && chunks@[k].is_keyframe == video.samples@[first + k].is_sync
                    && chunks@[k].bytes@ == kept_bytes(
                    video.head,
                    video.samples@[first + k],
                    k == 0,
                ),
        decreases last + 1 - i,
    {
        let sample = &video.samples[i];
        let mut bytes: Vec<u8> = Vec::new();
        if i == first {
            match (&video.head.sps, &video.head.pps) {
                (Ok(sps), Ok(pps)) => {
                    append_nal(&mut bytes, sps.as_slice());
                    append_nal(&mut bytes, pps.as_slice());
                },
                _ => {},
            }
        }
        let ghost front = bytes@;
        // Every sample was found well-formed before the window was chosen.
        let _ = avcc_to_annexb(sample.bytes.as_slice(), size, &mut bytes);
        proof {
            assert(front =~= if i == first {
                start_code() + video.head.sps->Ok_0@ + start_code() + video.head.pps->Ok_0@
            } else {
                Seq::empty()
            });
            assert(bytes@ =~= kept_bytes(video.head, *sample, i == first));
        }
        chunks.push(
            EncodedChunk {
                bytes,
                is_keyframe: sample.is_sync,
                pts: presented_at(sample.start_time, sample.rendering_offset, scale),
            },
        );
        i = i + 1;
    }
    chunks
}

/// Whether every sample is well-formed AVCC.
fn all_well_formed(samples: &Vec<ClipSample>, size: usize) -> (r: bool)
    requires
        1 <= size <= 4,
    ensures
        r == well_formed(samples@, size as int),
{
    let mut i: usize = 0;
    while i < samples.len()
        invariant
            i <= samples.len(),
            1 <= size <= 4,
            forall|k: int|
                0 <= k < i ==> avcc_units((#[trigger] samples@[k]).bytes@, size as int, 0).1
                    is None,
        decreases samples.len() - i,
    {
        let mut scratch: Vec<u8> = Vec::new();
        match avcc_to_annexb(samples[i].bytes.as_slice(), size, &mut scratch) {
            Ok(()) => {},
            Err(_) => {
                proof {
                    assert(avcc_units(samples@[i as int].bytes@, size as int, 0).1 is Some);
                }
                return false;
            },
        }
        i = i + 1;
    }
    true
}

/// Every Opus track cut to the window, in the order of the ids, or the error of the first that
/// fails.
fn cut_all(audio: &[OpusSource], lo: Duration, hi: Duration) -> (r: Result<
    Vec<TrimAudio>,
    ReadError,
>)
    requires
        distinct_ids(audio@),
    ensures
        match r {
            Ok(cuts) => cuts_of(cuts@, audio@, lo@, hi@) && forall|j: int|
                0 <= j < audio@.len() ==> !broken(#[trigger] audio@[j], hi@),
            Err(e) => first_failure(audio@, hi@, e),
        },
{
    let mut cuts: Vec<TrimAudio> = Vec::new();
    let mut failed: Option<(usize, ReadError)> = None;
    let mut n: usize = 0;
    while n < audio.len()
        invariant
            n <= audio.len(),
            distinct_ids(audio@),
            match failed {
                Some((j, e)) => j < n && broken(audio@[j as int], hi@) && audio@[j as int].failure
                    == Some(e) && forall|i: int|
                    0 <= i < n && broken(#[trigger] audio@[i], hi@) ==> audio@[j as int].id
                        <= audio@[i].id,
                None => cuts_of(cuts@, audio@.take(n as int), lo@, hi@) && forall|j: int|
                    0 <= j < n ==> !broken(#[trigger] audio@[j], hi@),
            },
        decreases audio.len() - n,
    {
        match cut_audio(&audio[n], lo, hi) {
            Ok(cut) => {
                if failed.is_none() {
                    insert_cut(&mut cuts, cut, audio, n, lo, hi);
                }
            },
            Err(e) => {
                let earlier = match &failed {
                    Some((j, _)) => audio[*j].id <= audio[n].id,
                    None => false,
                };
                if !earlier {
                    failed = Some((n, e));
                }
            },
        }
        n = n + 1;
    }
    match failed {
        Some((j, e)) => {
            proof {
                assert(broken(audio@[j as int], hi@));
            }
            Err(e)
        },
        None => {
            proof {
                assert(audio@.take(audio@.len() as int) =~= audio@);
            }
            Ok(cuts)
        },
    }
}

/// Put the cut of track `n` in its place among the cuts of the tracks before it.
fn insert_cut(
    cuts: &mut Vec<TrimAudio>,
    cut: TrimAudio,
    audio: &[OpusSource],
    n: usize,
    lo: Duration,
    hi: Duration,
)
    requires
        n < audio@.len(),
        distinct_ids(audio@),
        cuts_of(old(cuts)@, audio@.take(n as int), lo@, hi@),
        cut_of(cut, audio@[n as int], lo@, hi@),
    ensures
        cuts_of(final(cuts)@, audio@.take(n + 1), lo@, hi@),
{
    let ghost before = cuts@;
    let ghost done = audio@.take(n as int);
    let ghost now = audio@.take(n + 1);
    let mut at: usize = 0;
    while at < cuts.len() && cuts[at].id < cut.id
        invariant
            at <= cuts.len(),
            cuts@ == before,
            forall|k: int| 0 <= k < at ==> (#[trigger] before[k]).id < cut.id,
        decreases cuts.len() - at,
    {
        at = at + 1;
    }
    proof {
        assert forall|k: int| at <= k < before.len() implies cut.id < (#[trigger] before[k]).id by {
            assert(before[at as int].id >= cut.id);
            if k > at {
                assert(before[at as int].id < before[k].id);
            }
            assert(cut_from(before[k], done, lo@, hi@));
            let j = choose|j: int|
                0 <= j < done.len() && cut_of(before[k], #[trigger] done[j], lo@, hi@);
            assert(done[j] == audio@[j]);
            assert(audio@[j].id != audio@[n as int].id);
        }
    }
    cuts.insert(at, cut);
    proof {
        let after = cuts@;
        assert(after =~= before.insert(at as int, cut));
        assert forall|i: int, j: int| 0 <= i < j < after.len() implies (#[trigger] after[i]).id < (
        #[trigger] after[j]).id by {
            let a = if i < at {
                i
            } else {
                i - 1
            };
            let b = if j < at {
                j
            } else {
                j - 1
            };
            if i != at {
                assert(after[i] == before[a]);
            }
            if j != at {
                assert(after[j] == before[b]);
            }
        }
        assert forall|k: int| 0 <= k < after.len() implies cut_from(
            #[trigger] after[k],
            now,
            lo@,
            hi@,
        ) by {
            if k == at {
                assert(now[n as int] == audio@[n as int]);
            } else {
                let a = if k < at {
                    k
                } else {
                    k - 1
                };
                assert(after[k] == before[a]);
                assert(cut_from(before[a], done, lo@, hi@));
                let j = choose|j: int|
                    0 <= j < done.len() && cut_of(before[a], #[trigger] done[j], lo@, hi@);
                assert(now[j] == done[j]);
            }
        }
    }
}

/// Losslessly trim a clip to the `[start, end]` window.
///
/// The start snaps back to the nearest keyframe at or before `start`, so the cut needs no
/// re-encode and the result stays decodable; every video frame through `end` is kept, and the
/// audio packets in the same window ride along. Keyframe granularity is the recorder's IDR
/// interval.
pub fn trim_clip(
    video: &VideoSource,
    audio: &[OpusSource],
    start: Duration,
    end: Duration,
) -> (r: Result<TrimPlan, TrimError>)
    requires
        distinct_ids(audio@),
    ensures
        match r {
            Ok(plan) => {
                &&& end@ > start@
                &&& video_error(*video) is None
                &&& plan.cut_from(*video, audio@, start, end)
            },
            Err(TrimError::EmptyRange) => end@ <= start@ || (video_error(*video) is None
                && kept_window(*video, start, end) is None),
            Err(TrimError::Read(e)) => end@ > start@ && (video_error(*video) == Some(e) || (
            video_error(*video) is None && (kept_window(*video, start, end) matches Some(
                (first, last),
            ) && first_failure(
                audio@,
                shown(video.samples@, last, video.head.scale()) + frame_of(video.head),
                e,
            )))),
            Err(TrimError::Mux(_)) => false,
        },
{
    if end.at_most(&start) {
        return Err(TrimError::EmptyRange);
    }
    let size: usize = match nal_length_size(video.head.length_size_minus_one) {
        Ok(size) => size,
        Err(e) => {
            return Err(TrimError::Read(e));
        },
    };
    match &video.head.sps {
        Ok(_) => {},
        Err(why) => {
            return Err(TrimError::Read(ReadError::Mp4(why.clone())));
        },
    }
    match &video.head.pps {
        Ok(_) => {},
        Err(why) => {
            return Err(TrimError::Read(ReadError::Mp4(why.clone())));
        },
    }
    if !all_well_formed(&video.samples, size) {
        return Err(TrimError::Read(ReadError::MalformedSample));
    }
    match &video.failure {
        Some(e) => {
            return Err(TrimError::Read(clone_error(e)));
        },
        None => {},
    }
    let fps: u32 = estimate_rate(video.head.sample_count, video.head.duration_micros);
    let frame: u64 = (2_000_000_000 + fps as u64) / (2 * fps as u64);
    let scale: u32 = if video.head.timescale == 0 {
        1
    } else {
        video.head.timescale
    };
    proof {
        assert(video_error(*video) is None);
        assert(frame == frame_of(video.head));
    }
    let (first, last) = match trim_window(&video.samples, scale, frame, start, end) {
        Some(window) => window,
        None => {
            return Err(TrimError::EmptyRange);
        },
    };
    let chunks = keep_frames(video, size, first, last);
    let head_sample = &video.samples[first];
    let tail_sample = &video.samples[last];
    let in_pts = presented_at(head_sample.start_time, head_sample.rendering_offset, scale);
    let out_pts = presented_at(tail_sample.start_time, tail_sample.rendering_offset, scale);
    proof {
        lemma_shown_bound(*tail_sample, scale as nat);
        assert(frame <= 2_000_000_000) by (nonlinear_arith)
            requires
                frame == (2_000_000_000 + fps) / (2 * fps),
                1 <= fps <= 240,
        ;
    }
    let hi = Duration::saturating_from_nanos(out_pts.as_nanos() + frame as u128);
    let kept_span: u128 = out_pts.saturating_sub(in_pts).as_nanos();
    let audio_cuts = match cut_all(audio, in_pts, hi) {
        Ok(cuts) => cuts,
        Err(e) => {
            return Err(TrimError::Read(e));
        },
    };
    Ok(
        TrimPlan {
            width: video.head.width as u32,
            height: video.head.height as u32,
            fps,
            video: chunks,
            audio: audio_cuts,
            summary: TrimSummary {
                duration: Duration::saturating_from_nanos(kept_span + frame as u128),
            },
        },
    )
}

/// A presentation time leaves room for one more frame in a span.
proof fn lemma_shown_bound(sample: ClipSample, scale: nat)
    requires
        scale >= 1,
    ensures
        nanos_of(units_of(sample.start_time, sample.rendering_offset), scale) + 2_000_000_000
            <= MAX_NANOS,
{
    let units = units_of(sample.start_time, sample.rendering_offset);
    assert(units <= 0x8000_0000_0000_0000 + 0x8000_0000);
    let doubled = 2 * units * 1_000_000_000 + scale;
    let nanos = nanos_of(units, scale);
    let whole = units * 1_000_000_000;
    vstd::arithmetic::div_mod::lemma_fundamental_div_mod(doubled as int, (2 * scale) as int);
    assert(nanos <= whole + 1) by (nonlinear_arith)
        requires
            (2 * scale) * nanos <= doubled,
            doubled == 2 * whole + scale,
            scale >= 1,
            whole >= 0,
    ;
}

/// Whether `tracks` are the kept packets as the muxer takes them. A mid-stream cut has no
/// encoder priming at its first packet, so nothing is skipped.
pub open spec fn tracks_of(tracks: Seq<AudioTrack>, cuts: Seq<TrimAudio>) -> bool {
    &&& tracks.len() == cuts.len()
    &&& forall|k: int|
        0 <= k < tracks.len() ==> (#[trigger] tracks[k]).chunks@ == cuts[k].chunks@
            && tracks[k].channels == cuts[k].channels && tracks[k].sample_rate
            == cuts[k].sample_rate && tracks[k].pre_skip == 0
}

/// Whether the length of every kept track can be counted.
pub open spec fn all_countable(cuts: Seq<TrimAudio>) -> bool {
    forall|k: int|
        0 <= k < cuts.len() ==> crate::mux::total_frames((#[trigger] cuts[k]).chunks@) * 1_000_000
            <= u64::MAX
}

impl TrimPlan {
    /// Whether this is what the window from `start` to `end` keeps of a clip.
    pub open spec fn cut_from(
        self,
        video: VideoSource,
        audio: Seq<OpusSource>,
        start: Duration,
        end: Duration,
    ) -> bool {
        &&& kept_window(video, start, end) matches Some((first, last)) && {
            let lo = shown(video.samples@, first, video.head.scale());
            let out = shown(video.samples@, last, video.head.scale());
            let hi = out + frame_of(video.head);
            &&& keeps_frames(self.video@, video, first, last)
            &&& cuts_of(self.audio@, audio, lo, hi)
            &&& forall|j: int| 0 <= j < audio.len() ==> !broken(#[trigger] audio[j], hi)
            &&& self.summary.duration@ == (if out >= lo {
                out - lo
            } else {
                0
            }) + frame_of(video.head)
        }
        &&& self.width == video.head.width
        &&& self.height == video.head.height
        &&& self.fps == rate_of(video.head.sample_count, video.head.duration_micros)
    }

    /// Whether `movie` is the trimmed clip as a muxer for its size and rate lays it out.
    pub open spec fn laid_out_as(self, movie: Movie) -> bool {
        exists|muxer: Mp4Muxer, tracks: Seq<AudioTrack>|
            muxer.is_for(self.width, self.height, self.fps) && tracks_of(tracks, self.audio@)
                && #[trigger] laid_out(movie, muxer, self.video@, tracks)
    }

    /// Lay out the trimmed clip. Timestamps rebase to zero, so it plays from its own start.
    /// Sample durations that cannot be counted are corrupt metadata.
    pub fn movie(&self) -> (r: Result<Movie, TrimError>)
        ensures
            match r {
                Ok(movie) => all_countable(self.audio@) && self.video@.len() > 0
                    && self.video@[0].is_keyframe && self.laid_out_as(movie),
                Err(TrimError::Read(e)) => e == ReadError::Corrupt && !all_countable(self.audio@),
                Err(TrimError::Mux(MuxError::NotKeyframeStart)) => all_countable(self.audio@) && (
                self.video@.len() == 0 || !self.video@[0].is_keyframe),
                Err(TrimError::Mux(MuxError::MissingParameterSets)) => all_countable(self.audio@)
                    && self.video@.len() > 0 && self.video@[0].is_keyframe
                    && crate::mux::parameter_sets(self.video@) is None,
                Err(_) => false,
            },
    {
        let mut tracks: Vec<AudioTrack> = Vec::new();
        let mut i: usize = 0;
        while i < self.audio.len()
            invariant
                i <= self.audio.len(),
                tracks@.len() == i,
                forall|k: int|
                    0 <= k < i ==> (#[trigger] tracks@[k]).chunks@ == self.audio@[k].chunks@
                        && tracks@[k].channels == self.audio@[k].channels && tracks@[k].sample_rate
                        == self.audio@[k].sample_rate && tracks@[k].pre_skip == 0 && countable(
                        tracks@[k],
                    ),
                forall|k: int|
                    0 <= k < i ==> crate::mux::total_frames((#[trigger] self.audio@[k]).chunks@)
                        * 1_000_000 <= u64::MAX,
            decreases self.audio.len() - i,
        {
            let cut = &self.audio[i];
            let track = AudioTrack {
                chunks: cut.chunks.as_slice(),
                channels: cut.channels,
                sample_rate: cut.sample_rate,
                pre_skip: 0,
            };
            if !is_countable(&track) {
                proof {
                    assert(!(crate::mux::total_frames(self.audio@[i as int].chunks@) * 1_000_000
                        <= u64::MAX));
                }
                return Err(TrimError::Read(ReadError::Corrupt));
            }
            tracks.push(track);
            i = i + 1;
        }
        proof {
            assert(all_countable(self.audio@));
        }
        let muxer = Mp4Muxer::new(self.width, self.height, self.fps);
        match muxer.movie(self.video.as_slice(), tracks.as_slice()) {
            Ok(movie) => {
                proof {
                    assert(tracks_of(tracks@, self.audio@));
                    assert(laid_out(movie, muxer, self.video@, tracks@));
                    assert(self.laid_out_as(movie));
                }
                Ok(movie)
            },
            Err(e) => Err(TrimError::Mux(e)),
        }
    }
}

proof fn lemma_last_keyframe(samples: Seq<ClipSample>, scale: nat, start: nat, n: int)
    requires
        0 <= n <= samples.len(),
    ensures
        match last_keyframe(samples, scale, start, n) {
            Some(i) => 0 <= i < n && samples[i].is_sync && shown(samples, i, scale) <= start
                && forall|k: int|
                i < k < n && (#[trigger] samples[k]).is_sync ==> shown(samples, k, scale) > start,
            None => forall|k: int|
                0 <= k < n && (#[trigger] samples[k]).is_sync ==> shown(samples, k, scale) > start,
        },
    decreases n,
{
    if n > 0 && !(samples[n - 1].is_sync && shown(samples, n - 1, scale) <= start) {
        lemma_last_keyframe(samples, scale, start, n - 1);
    }
}

proof fn lemma_first_sync(samples: Seq<ClipSample>, k: int)
    requires
        0 <= k,
    ensures
        match first_sync(samples, k) {
            Some(i) => k <= i < samples.len() && samples[i].is_sync,
            None => forall|j: int| k <= j < samples.len() ==> !(#[trigger] samples[j]).is_sync,
        },
    decreases samples.len() - k,
{
    if k < samples.len() && !samples[k].is_sync {
        lemma_first_sync(samples, k + 1);
    }
}

/// A trimmed clip begins on a keyframe whenever the source has one, and where there is a
/// keyframe at or before the requested start, on the last such keyframe: the cut never starts
/// later than asked for and skips no keyframe that would do.
pub proof fn law_trim_starts_on_keyframe(samples: Seq<ClipSample>, scale: nat, start: nat)
    requires
        exists|k: int| 0 <= k < samples.len() && (#[trigger] samples[k]).is_sync,
    ensures
        0 <= first_kept(samples, scale, start) < samples.len(),
        samples[first_kept(samples, scale, start)].is_sync,
        forall|k: int|
            0 <= k < samples.len() && (#[trigger] samples[k]).is_sync && shown(samples, k, scale)
                <= start ==> k <= first_kept(samples, scale, start) && shown(
                samples,
                first_kept(samples, scale, start),
                scale,
            ) <= start,
{
    lemma_last_keyframe(samples, scale, start, samples.len() as int);
    lemma_first_sync(samples, 0);
}

proof fn lemma_last_kept(samples: Seq<ClipSample>, scale: nat, end: nat, first: int, n: int)
    requires
        0 <= first,
        n <= samples.len(),
    ensures
        match last_kept(samples, scale, end, first, n) {
            Some(i) => first <= i < n && shown(samples, i, scale) <= end && forall|k: int|
                i < k < n ==> shown(samples, k, scale) > end,
            None => forall|k: int| first <= k < n ==> shown(samples, k, scale) > end,
        },
    decreases n,
{
    if n > first && n > 0 && shown(samples, n - 1, scale) > end {
        lemma_last_kept(samples, scale, end, first, n - 1);
    }
}

/// Every frame from the first kept one through the requested end is kept: no frame after the
/// last kept one is presented at or before `end`.
pub proof fn law_trim_keeps_through_end(
    samples: Seq<ClipSample>,
    scale: nat,
    frame: nat,
    start: nat,
    end: nat,
)
    ensures
        window(samples, scale, frame, start, end) matches Some((first, last)) ==> 0 <= first
            <= last < samples.len() && shown(samples, last, scale) <= end && forall|k: int|
            last < k < samples.len() ==> shown(samples, k, scale) > end,
{
    lemma_last_keyframe(samples, scale, start, samples.len() as int);
    lemma_first_sync(samples, 0);
    if samples.len() > 0 {
        lemma_last_kept(
            samples,
            scale,
            end,
            first_kept(samples, scale, start),
            samples.len() as int,
        );
    }
}

/// A trim is lossless and in order: the kept frames are an unbroken run of the source's, and each
/// carries the NAL units that its source sample stores, with the sample's keyframe flag and, to
/// the nearest nanosecond, its time. Only the first carries anything else: the parameter sets,
/// before its own units.
pub proof fn law_trim_is_lossless(
    plan: TrimPlan,
    video: VideoSource,
    audio: Seq<OpusSource>,
    start: Duration,
    end: Duration,
) -> (first: int)
    requires
        plan.cut_from(video, audio, start, end),
        video_error(video) is None,
        video.head.timescale > 0,
    ensures
        0 <= first,
        0 < plan.video@.len(),
        first + plan.video@.len() <= video.samples@.len(),
        forall|k: int|
            0 <= k < plan.video@.len() ==> {
                let sample = video.samples@[first + k];
                let read = avcc_units(
                    sample.bytes@,
                    video.head.length_size_minus_one as int % 4 + 1,
                    0,
                );
                let chunk = #[trigger] plan.video@[k];
                &&& read.1 is None
                &&& k > 0 ==> chunk.bytes@ == annexb(read.0)
                &&& k == 0 ==> chunk.bytes@ == start_code() + video.head.sps->Ok_0@ + start_code()
                    + video.head.pps->Ok_0@ + annexb(read.0)
                &&& chunk.is_keyframe == sample.is_sync
                &&& sample.start_time <= i64::MAX && sample.start_time + sample.rendering_offset
                    >= 0 ==> -(video.head.timescale as int) <= 2 * (chunk.pts@
                    * video.head.timescale - (sample.start_time + sample.rendering_offset)
                    * 1_000_000_000) <= video.head.timescale
            },
{
    let scale = video.head.scale();
    law_trim_keeps_through_end(video.samples@, scale, frame_of(video.head), start@, end@);
    let (first, last) = kept_window(video, start, end)->0;
    assert forall|k: int| 0 <= k < plan.video@.len() implies {
        let sample = video.samples@[first + k];
        let read = avcc_units(sample.bytes@, video.head.length_size_minus_one as int % 4 + 1, 0);
        let chunk = #[trigger] plan.video@[k];
        &&& read.1 is None
        &&& k > 0 ==> chunk.bytes@ == annexb(read.0)
        &&& k == 0 ==> chunk.bytes@ == start_code() + video.head.sps->Ok_0@ + start_code()
            + video.head.pps->Ok_0@ + annexb(read.0)
        &&& chunk.is_keyframe == sample.is_sync
        &&& sample.start_time <= i64::MAX && sample.start_time + sample.rendering_offset >= 0
            ==> -(video.head.timescale as int) <= 2 * (chunk.pts@ * video.head.timescale - (
        sample.start_time + sample.rendering_offset) * 1_000_000_000) <= video.head.timescale
    } by {
        let sample = video.samples@[first + k];
        law_time_is_nearest(units_of(sample.start_time, sample.rendering_offset), scale);
    }
    first
}

/// The NAL units of a kept frame are those that its source sample stores, as any reader of the
/// stream finds them, where they are such as encoders write them; before the first frame's stand
/// the parameter sets.
pub proof fn law_trimmed_units_read_back(
    plan: TrimPlan,
    video: VideoSource,
    audio: Seq<OpusSource>,
    start: Duration,
    end: Duration,
) -> (first: int)
    requires
        plan.cut_from(video, audio, start, end),
        video_error(video) is None,
        video.head.timescale > 0,
        clean_unit(video.head.sps->Ok_0@),
        clean_unit(video.head.pps->Ok_0@),
        forall|i: int, j: int|
            0 <= i < video.samples@.len() && 0 <= j < avcc_units(
                video.samples@[i].bytes@,
                video.head.length_size_minus_one as int % 4 + 1,
                0,
            ).0.len() ==> clean_unit(
                #[trigger] avcc_units(
                    video.samples@[i].bytes@,
                    video.head.length_size_minus_one as int % 4 + 1,
                    0,
                ).0[j],
            ),
    ensures
        0 <= first,
        first + plan.video@.len() <= video.samples@.len(),
        forall|k: int|
            0 <= k < plan.video@.len() ==> {
                let stored = avcc_units(
                    video.samples@[first + k].bytes@,
                    video.head.length_size_minus_one as int % 4 + 1,
                    0,
                ).0;
                units((#[trigger] plan.video@[k]).bytes@) == if k == 0 {
                    seq![video.head.sps->Ok_0@, video.head.pps->Ok_0@] + stored
                } else {
                    stored
                }
            },
{
    let first = law_trim_is_lossless(plan, video, audio, start, end);
    let size = video.head.length_size_minus_one as int % 4 + 1;
    assert forall|k: int| 0 <= k < plan.video@.len() implies {
        let stored = avcc_units(video.samples@[first + k].bytes@, size, 0).0;
        units((#[trigger] plan.video@[k]).bytes@) == if k == 0 {
            seq![video.head.sps->Ok_0@, video.head.pps->Ok_0@] + stored
        } else {
            stored
        }
    } by {
        let stored = avcc_units(video.samples@[first + k].bytes@, size, 0).0;
        let sets = seq![video.head.sps->Ok_0@, video.head.pps->Ok_0@];
        assert(plan.video@[k].bytes@.len() >= 0);
        if k == 0 {
            let nals = sets + stored;
            assert forall|j: int| 0 <= j < nals.len() implies clean_unit(#[trigger] nals[j]) by {
                if j >= 2 {
                    assert(nals[j] == stored[j - 2]);
                }
            }
            lemma_annexb_of_both(sets, stored);
            reveal_with_fuel(annexb, 3);
            assert(sets.drop_last().drop_last() =~= Seq::<Seq<u8>>::empty());
            assert(annexb(sets) =~= start_code() + sets[0] + start_code() + sets[1]);
            law_annexb_read_back(nals);
        } else {
            law_annexb_read_back(stored);
        }
    }
    first
}

/// What is written of two runs of NAL units is what is written of the one and then of the other.
proof fn lemma_annexb_of_both(a: Seq<Seq<u8>>, b: Seq<Seq<u8>>)
    ensures
        annexb(a + b) == annexb(a) + annexb(b),
    decreases b.len(),
{
    if b.len() == 0 {
        assert(a + b =~= a);
        assert(annexb(a) + annexb(b) =~= annexb(a));
    } else {
        lemma_annexb_of_both(a, b.drop_last());
        assert((a + b).drop_last() =~= a + b.drop_last());
        assert(annexb(a + b) =~= annexb(a) + annexb(b));
    }
}

/// Trimming a clip to its whole length loses nothing: where it begins on a keyframe and every
/// later keyframe is after `start`, a window that reaches the last frame keeps every frame.
pub proof fn law_whole_trim_keeps_every_frame(
    plan: TrimPlan,
    video: VideoSource,
    audio: Seq<OpusSource>,
    start: Duration,
    end: Duration,
)
    requires
        plan.cut_from(video, audio, start, end),
        video.samples@.len() > 0,
        video.samples@[0].is_sync,
        forall|k: int|
            0 < k < video.samples@.len() && (#[trigger] video.samples@[k]).is_sync ==> shown(
                video.samples@,
                k,
                video.head.scale(),
            ) > start@,
        shown(video.samples@, video.samples@.len() - 1, video.head.scale()) <= end@,
    ensures
        plan.video@.len() == video.samples@.len(),
{
    let scale = video.head.scale();
    law_trim_keeps_through_end(video.samples@, scale, frame_of(video.head), start@, end@);
    lemma_last_keyframe(video.samples@, scale, start@, video.samples@.len() as int);
    lemma_first_sync(video.samples@, 0);
    assert(first_sync(video.samples@, 0) == Some(0int));
}

/// A trimmed clip begins no later than asked for wherever a keyframe allows it, ends with the
/// last frame that is due by `end`, and lasts from its first frame to one frame period after its
/// last.
pub proof fn law_trim_covers_the_window(
    plan: TrimPlan,
    video: VideoSource,
    audio: Seq<OpusSource>,
    start: Duration,
    end: Duration,
)
    requires
        plan.cut_from(video, audio, start, end),
        exists|k: int|
            0 <= k < video.samples@.len() && (#[trigger] video.samples@[k]).is_sync && shown(
                video.samples@,
                k,
                video.head.scale(),
            ) <= start@,
    ensures
        plan.video@[0].is_keyframe,
        plan.video@[0].pts@ <= start@,
        plan.video@.last().pts@ <= end@,
        plan.video@[0].pts@ <= plan.video@.last().pts@ ==> plan.summary.duration@
            == plan.video@.last().pts@ - plan.video@[0].pts@ + period(plan.fps as nat),
        plan.width == video.head.width,
        plan.height == video.head.height,
{
    let scale = video.head.scale();
    law_trim_starts_on_keyframe(video.samples@, scale, start@);
    law_trim_keeps_through_end(video.samples@, scale, frame_of(video.head), start@, end@);
    let (first, last) = kept_window(video, start, end)->0;
    let k = choose|k: int|
        0 <= k < video.samples@.len() && (#[trigger] video.samples@[k]).is_sync && shown(
            video.samples@,
            k,
            scale,
        ) <= start@;
    assert(shown(video.samples@, first, scale) <= start@);
    assert(plan.video@[last - first].pts@ == shown(video.samples@, last, scale));
}

proof fn lemma_packet_stop(packets: Seq<ClipSample>, rate: nat, hi: nat, k: int)
    requires
        0 <= k <= packets.len(),
    ensures
        k <= packet_stop(packets, rate, hi, k) <= packets.len(),
        forall|i: int|
            k <= i < packet_stop(packets, rate, hi, k) ==> #[trigger] heard(packets, i, rate) <= hi,
        packet_stop(packets, rate, hi, k) < packets.len() ==> heard(
            packets,
            packet_stop(packets, rate, hi, k),
            rate,
        ) > hi,
    decreases packets.len() - k,
{
    if k < packets.len() && heard(packets, k, rate) <= hi {
        lemma_packet_stop(packets, rate, hi, k + 1);
    }
}

proof fn lemma_from_low(packets: Seq<ClipSample>, rate: nat, lo: nat, n: int)
    requires
        0 <= n <= packets.len(),
    ensures
        forall|k: int|
            0 <= k < from_low(packets, rate, lo, n).len() ==> 0 <= #[trigger] from_low(
                packets,
                rate,
                lo,
                n,
            )[k] < n && heard(packets, from_low(packets, rate, lo, n)[k], rate) >= lo,
        forall|j: int, k: int|
            0 <= j < k < from_low(packets, rate, lo, n).len() ==> #[trigger] from_low(
                packets,
                rate,
                lo,
                n,
            )[j] < #[trigger] from_low(packets, rate, lo, n)[k],
        forall|i: int|
            0 <= i < n && #[trigger] heard(packets, i, rate) >= lo ==> from_low(
                packets,
                rate,
                lo,
                n,
            ).contains(i),
    decreases n,
{
    if n > 0 {
        lemma_from_low(packets, rate, lo, n - 1);
        let before = from_low(packets, rate, lo, n - 1);
        let now = from_low(packets, rate, lo, n);
        assert forall|i: int|
            0 <= i < n && #[trigger] heard(packets, i, rate) >= lo implies now.contains(i) by {
            if i < n - 1 {
                assert(before.contains(i));
                let k = choose|k: int| 0 <= k < before.len() && before[k] == i;
                assert(now[k] == i);
            } else {
                assert(now[now.len() - 1] == i);
            }
        }
    }
}

/// The audio in the window rides along, whole and in order: `which[k]` is the source packet that
/// the `k`-th kept packet is. A kept packet has the bytes and the length of its source and, to
/// the nearest nanosecond, its time, and lies in the window. Every packet in the window is kept,
/// up to the first one after it.
pub proof fn law_trim_keeps_audio_in_window(
    cut: TrimAudio,
    source: OpusSource,
    lo: nat,
    hi: nat,
) -> (which: Seq<int>)
    requires
        cut_of(cut, source, lo, hi),
        source.timescale > 0,
    ensures
        cut.id == source.id,
        cut.sample_rate == source.timescale,
        source.channels matches Some(n) && n > 0 ==> cut.channels == source.channels->0,
        which.len() == cut.chunks@.len(),
        forall|j: int, k: int|
            0 <= j < k < which.len() ==> #[trigger] which[j] < #[trigger] which[k],
        forall|k: int|
            0 <= k < which.len() ==> {
                let packet = source.samples@[#[trigger] which[k]];
                let chunk = cut.chunks@[k];
                &&& 0 <= which[k] < source.samples@.len()
                &&& chunk.bytes@ == packet.bytes@
                &&& chunk.frames == packet.duration
                &&& lo <= chunk.pts@ <= hi
                &&& -(source.timescale as int) <= 2 * (chunk.pts@ * source.timescale
                    - packet.start_time * 1_000_000_000) <= source.timescale
            },
        forall|i: int|
            0 <= i < source.samples@.len() && lo <= nanos_of(
                (#[trigger] source.samples@[i]).start_time as nat,
                source.timescale as nat,
            ) && (forall|j: int|
                0 <= j <= i ==> nanos_of(
                    (#[trigger] source.samples@[j]).start_time as nat,
                    source.timescale as nat,
                ) <= hi) ==> which.contains(i),
{
    let packets = source.samples@;
    let rate = source.timescale as nat;
    let stop = packet_stop(packets, rate, hi, 0);
    let which = from_low(packets, rate, lo, stop);
    lemma_packet_stop(packets, rate, hi, 0);
    lemma_from_low(packets, rate, lo, stop);
    assert forall|k: int| 0 <= k < which.len() implies {
        let packet = source.samples@[#[trigger] which[k]];
        let chunk = cut.chunks@[k];
        &&& 0 <= which[k] < source.samples@.len()
        &&& chunk.bytes@ == packet.bytes@
        &&& chunk.frames == packet.duration
        &&& lo <= chunk.pts@ <= hi
        &&& -(source.timescale as int) <= 2 * (chunk.pts@ * source.timescale - packet.start_time
            * 1_000_000_000) <= source.timescale
    } by {
        let chunk = cut.chunks@[k];
        assert(chunk.pts@ == heard(packets, which[k], rate));
        law_time_is_nearest(packets[which[k]].start_time as nat, rate);
    }
    assert forall|i: int|
        0 <= i < packets.len() && lo <= nanos_of((#[trigger] packets[i]).start_time as nat, rate)
            && (forall|j: int|
            0 <= j <= i ==> nanos_of((#[trigger] packets[j]).start_time as nat, rate)
                <= hi) implies which.contains(i) by {
        if stop <= i {
            assert(nanos_of(packets[stop].start_time as nat, rate) <= hi);
        }
        assert(heard(packets, i, rate) >= lo);
    }
    which
}

/// No audio track is lost: for every track of the source there is a cut of it, and the cuts are
/// in the order of the ids.
pub proof fn law_trim_keeps_every_audio_track(
    cuts: Seq<TrimAudio>,
    audio: Seq<OpusSource>,
    lo: nat,
    hi: nat,
    j: int,
) -> (k: int)
    requires
        distinct_ids(audio),
        cuts_of(cuts, audio, lo, hi),
        0 <= j < audio.len(),
    ensures
        0 <= k < cuts.len(),
        cut_of(cuts[k], audio[j], lo, hi),
        cuts[k].id == audio[j].id,
        forall|i: int| 0 <= i < k ==> (#[trigger] cuts[i]).id < audio[j].id,
        forall|i: int| k < i < cuts.len() ==> (#[trigger] cuts[i]).id > audio[j].id,
{
    let ids = cuts.map_values(|cut: TrimAudio| cut.id);
    let all = audio.map_values(|source: OpusSource| source.id);
    assert(ids.no_duplicates()) by {
        assert forall|a: int, b: int| 0 <= a < ids.len() && 0 <= b < ids.len() && a
            != b implies ids[a] != ids[b] by {
            if a < b {
                assert(cuts[a].id < cuts[b].id);
            } else {
                assert(cuts[b].id < cuts[a].id);
            }
        }
    }
    assert(all.no_duplicates()) by {
        assert forall|a: int, b: int| 0 <= a < all.len() && 0 <= b < all.len() && a
            != b implies all[a] != all[b] by {
            if a < b {
                assert(audio[a].id != audio[b].id);
            } else {
                assert(audio[b].id != audio[a].id);
            }
        }
    }
    ids.unique_seq_to_set();
    all.unique_seq_to_set();
    assert(ids.to_set().subset_of(all.to_set())) by {
        assert forall|id: u32| ids.to_set().contains(id) implies all.to_set().contains(id) by {
            let a = choose|a: int| 0 <= a < ids.len() && ids[a] == id;
            assert(cut_from(cuts[a], audio, lo, hi));
            let b = choose|b: int|
                0 <= b < audio.len() && cut_of(cuts[a], #[trigger] audio[b], lo, hi);
            assert(all[b] == id);
        }
    }
    vstd::set_lib::lemma_subset_equality(ids.to_set(), all.to_set());
    assert(all[j] == audio[j].id);
    assert(all.to_set().contains(audio[j].id));
    assert(ids.to_set().contains(audio[j].id));
    let k = choose|k: int| 0 <= k < ids.len() && ids[k] == audio[j].id;
    assert(cut_from(cuts[k], audio, lo, hi));
    let b = choose|b: int| 0 <= b < audio.len() && cut_of(cuts[k], #[trigger] audio[b], lo, hi);
    assert(b == j) by {
        if b < j {
            assert(audio[b].id != audio[j].id);
        } else if j < b {
            assert(audio[j].id != audio[b].id);
        }
    }
    assert forall|i: int| 0 <= i < k implies (#[trigger] cuts[i]).id < audio[j].id by {
        assert(cuts[i].id < cuts[k].id);
    }
    assert forall|i: int| k < i < cuts.len() implies (#[trigger] cuts[i]).id > audio[j].id by {
        assert(cuts[k].id < cuts[i].id);
    }
    k
}

/// The frame rate of a clip is the nearest whole one to its frames per second, between 1 and 240,
/// and a frame period is the nearest number of nanoseconds to one frame at it.
pub proof fn law_frame_rate_is_nearest(sample_count: u32, duration_micros: u64)
    requires
        duration_micros > 0,
    ensures
        ({
            let fps = rate_of(sample_count, duration_micros);
            let frames = sample_count * 1_000_000;
            &&& 1 <= fps <= 240
            &&& 1 < fps ==> 2 * (fps * duration_micros - frames) <= duration_micros
            &&& fps < 240 ==> 2 * (frames - fps * duration_micros) < duration_micros
            &&& -(fps as int) <= 2 * (period(fps) * fps - 1_000_000_000) <= fps
        }),
{
    let dur = duration_micros as int;
    let frames = sample_count * 1_000_000;
    let doubled = 2 * frames + dur;
    let raw = doubled / (2 * dur);
    let fps = rate_of(sample_count, duration_micros) as int;
    vstd::arithmetic::div_mod::lemma_fundamental_div_mod(doubled, 2 * dur);
    assert(2 * (raw * dur - frames) <= dur && 2 * (frames - raw * dur) < dur) by (nonlinear_arith)
        requires
            doubled == 2 * dur * raw + doubled % (2 * dur),
            0 <= doubled % (2 * dur) < 2 * dur,
            doubled == 2 * frames + dur,
    ;
    if raw > 240 {
        assert(240 * dur <= raw * dur) by (nonlinear_arith)
            requires
                raw > 240,
                dur > 0,
        ;
        assert(241 * dur <= raw * dur) by (nonlinear_arith)
            requires
                raw > 240,
                dur > 0,
        ;
    }
    if raw < 1 {
        assert(raw * dur <= 0) by (nonlinear_arith)
            requires
                raw < 1,
                dur > 0,
        ;
    }
    let nanos = 2_000_000_000 + fps;
    let each = period(fps as nat) as int;
    vstd::arithmetic::div_mod::lemma_fundamental_div_mod(nanos, 2 * fps);
    assert(-fps <= 2 * (each * fps - 1_000_000_000) <= fps) by (nonlinear_arith)
        requires
            nanos == 2 * fps * each + nanos % (2 * fps),
            0 <= nanos % (2 * fps) < 2 * fps,
            nanos == 2_000_000_000 + fps,
    ;
}

/// Writing a trimmed clip loses nothing of it: there is a sample for every kept frame, in order,
/// that stores the frame's NAL units, and for every kept track with packets a track whose samples
/// carry them. Nothing of the audio is skipped, for a cut has no priming at its first packet.
pub proof fn law_trimmed_movie_carries_what_was_kept(plan: TrimPlan, movie: Movie) -> (which: Seq<
    int,
>)
    requires
        plan.laid_out_as(movie),
        forall|i: int|
            0 <= i < plan.video@.len() ==> (#[trigger] plan.video@[i]).bytes@.len()
                < 0x1_0000_0000,
    ensures
        movie.video.samples@.len() == plan.video@.len(),
        forall|i: int|
            0 <= i < plan.video@.len() ==> avcc_units(
                (#[trigger] movie.video.samples@[i]).bytes@,
                4,
                0,
            ).0 == units(plan.video@[i].bytes@) && movie.video.samples@[i].is_sync
                == plan.video@[i].is_keyframe,
        which.len() == movie.audio@.len(),
        forall|j: int, k: int|
            0 <= j < k < which.len() ==> #[trigger] which[j] < #[trigger] which[k],
        forall|t: int|
            0 <= t < plan.audio@.len() ==> ((#[trigger] plan.audio@[t]).chunks@.len() > 0
                <==> which.contains(t)),
        forall|k: int|
            0 <= k < which.len() ==> {
                let cut = plan.audio@[#[trigger] which[k]];
                let layout = movie.audio@[k];
                &&& 0 <= which[k] < plan.audio@.len()
                &&& layout.pre_skip == 0
                &&& layout.channels == cut.channels
                &&& layout.sample_rate == cut.sample_rate
                &&& layout.samples@.len() == cut.chunks@.len()
                &&& forall|i: int|
                    0 <= i < cut.chunks@.len() ==> (#[trigger] layout.samples@[i]).bytes@
                        == cut.chunks@[i].bytes@
            },
{
    let (muxer, tracks) = choose|muxer: Mp4Muxer, tracks: Seq<AudioTrack>|
        muxer.is_for(plan.width, plan.height, plan.fps) && tracks_of(tracks, plan.audio@)
            && #[trigger] laid_out(movie, muxer, plan.video@, tracks);
    law_movie_carries_every_frame(movie, muxer, plan.video@, tracks);
    let which = law_movie_carries_every_track(movie, muxer, plan.video@, tracks);
    assert forall|t: int| 0 <= t < plan.audio@.len() implies ((
    #[trigger] plan.audio@[t]).chunks@.len() > 0 <==> which.contains(t)) by {
        assert(tracks[t].chunks@ == plan.audio@[t].chunks@);
    }
    assert forall|k: int| 0 <= k < which.len() implies {
        let cut = plan.audio@[#[trigger] which[k]];
        let layout = movie.audio@[k];
        &&& 0 <= which[k] < plan.audio@.len()
        &&& layout.pre_skip == 0
        &&& layout.channels == cut.channels
        &&& layout.sample_rate == cut.sample_rate
        &&& layout.samples@.len() == cut.chunks@.len()
        &&& forall|i: int|
            0 <= i < cut.chunks@.len() ==> (#[trigger] layout.samples@[i]).bytes@
                == cut.chunks@[i].bytes@
    } by {
        assert(tracks[which[k]].chunks@ == plan.audio@[which[k]].chunks@);
    }
    which
}

/// A trim is refused for an empty range, and granted for every other that starts before the last
/// frame of a readable clip, with a keyframe at or before its start.
pub proof fn law_readable_clip_is_trimmed(
    video: VideoSource,
    audio: &[OpusSource],
    start: Duration,
    end: Duration,
    r: Result<TrimPlan, TrimError>,
    k: int,
)
    requires
        call_ensures(trim_clip, (&video, audio, start, end), r),
        video.head.length_size_minus_one as int % 4 != 2,
        video.head.sps is Ok,
        video.head.pps is Ok,
        video.failure is None,
        forall|i: int|
            0 <= i < video.samples@.len() ==> avcc_units(
                (#[trigger] video.samples@[i]).bytes@,
                video.head.length_size_minus_one as int % 4 + 1,
                0,
            ).1 is None,
        forall|i: int| 0 <= i < audio@.len() ==> (#[trigger] audio@[i]).failure is None,
        0 <= k < video.samples@.len(),
        video.samples@[k].is_sync,
        shown(video.samples@, k, video.head.scale()) <= start@,
        start@ < shown(video.samples@, video.samples@.len() - 1, video.head.scale()),
    ensures
        end@ <= start@ ==> r is Err && r->Err_0 is EmptyRange,
        end@ > start@ ==> r is Ok,
{
    let samples = video.samples@;
    let scale = video.head.scale();
    assert(video.head.length_size_minus_one % 4 == video.head.length_size_minus_one as int % 4);
    assert(video_error(video) is None);
    law_trim_starts_on_keyframe(samples, scale, start@);
    let first = first_kept(samples, scale, start@);
    if end@ > start@ {
        lemma_last_kept(samples, scale, end@, first, samples.len() as int);
        lemma_kept_is_found(samples, scale, end@, first, samples.len() as int);
    }
}

proof fn lemma_kept_is_found(samples: Seq<ClipSample>, scale: nat, end: nat, first: int, n: int)
    requires
        0 <= first < n <= samples.len(),
        shown(samples, first, scale) <= end,
    ensures
        last_kept(samples, scale, end, first, n) is Some,
    decreases n,
{
    if shown(samples, n - 1, scale) > end {
        lemma_kept_is_found(samples, scale, end, first, n - 1);
    }
}

} // verus!
