//! H.264 Annex-B to MP4 muxing with real timestamps from capture.
//!
//! [`EncodedChunk::pts`] carries each frame's capture-relative timestamp, which is written into
//! the container as per-sample durations, so that players don't guess the framerate. The
//! encoder's Annex-B output becomes the AVCC (length-prefixed) form that MP4 stores, and the
//! SPS/PPS of the first IDR the `avcC` configuration.
//!
//! A clip is first laid out as a [`Movie`]: the tracks, their samples with times in the track's
//! timescale, and their edit lists. Writing that out is the `mp4` crate's work.

use crate::clock::Duration;
use crate::encode::{EncodedAudioChunk, EncodedChunk};
use crate::nal::{avcc, avcc_units, be_bytes, codes, law_stored_units_read_back, lemma_codes};
use crate::nal::{push_bytes, start_codes, trimmed_end, unit_at, units, units_behind, AvccFault};
use crate::nal::{NAL_PPS, NAL_SPS};
use vstd::prelude::*;

verus! {

/// Microsecond timescale for the movie and its video track: capture time deltas are written
/// exactly, with no fps rounding.
pub const TIMESCALE: u32 = 1_000_000;

/// The `isom` brand: the bytes of the name, most significant first.
pub const ISOM: u32 = 0x6973_6f6d;

/// The `iso2` brand.
pub const ISO2: u32 = 0x6973_6f32;

/// The `avc1` brand.
pub const AVC1: u32 = 0x6176_6331;

/// The `mp41` brand.
pub const MP41: u32 = 0x6d70_3431;

/// The `Opus` brand.
pub const OPUS: u32 = 0x4f70_7573;

/// The minor version of the major brand.
pub const MINOR_VERSION: u32 = 512;

/// Errors from muxing.
#[derive(Debug)]
pub enum MuxError {
    /// The chunk sequence did not start on a keyframe, so the file would not be playable.
    NotKeyframeStart,
    /// The first keyframe carried no inline SPS/PPS, so no `avcC` config can be built.
    MissingParameterSets,
    /// Underlying I/O error while writing the container.
    Io(String),
    /// The `mp4` muxer rejected the data.
    Mp4(String),
}

impl MuxError {
    /// The error in words.
    pub open spec fn text(self) -> Seq<char> {
        match self {
            MuxError::NotKeyframeStart => "clip does not start on a keyframe"@,
            MuxError::MissingParameterSets => "clip has no SPS/PPS parameter sets"@,
            MuxError::Io(why) => why@,
            MuxError::Mp4(why) => "mp4 muxing failed: "@ + why@,
        }
    }

    /// What went wrong, in words.
    pub fn message(&self) -> (r: String)
        ensures
            r@ == self.text(),
    {
        match self {
            MuxError::NotKeyframeStart => "clip does not start on a keyframe".to_owned(),
            MuxError::MissingParameterSets => "clip has no SPS/PPS parameter sets".to_owned(),
            MuxError::Io(why) => why.clone(),
            MuxError::Mp4(why) => "mp4 muxing failed: ".to_owned().concat(why.as_str()),
        }
    }
}

/// The Opus audio side of an A/V clip.
pub struct AudioTrack<'a> {
    /// Encoded Opus packets, oldest-first, on the same capture clock as the video chunks.
    pub chunks: &'a [EncodedAudioChunk],
    /// Channel count (1 or 2).
    pub channels: u8,
    /// Sample rate (the track's media timescale); Opus capture is 48 kHz.
    pub sample_rate: u32,
    /// Encoder lookahead in samples — the `dOps` PreSkip and the trim `elst` `media_time`.
    pub pre_skip: u16,
}

/// One sample of a track as the container stores it.
#[derive(Debug, Clone, PartialEq, Eq)]
pub struct MovieSample {
    /// Presentation time, in the track's timescale.
    pub start_time: u64,
    /// How long the sample lasts, in the track's timescale.
    pub duration: u32,
    /// Whether decoding can begin here.
    pub is_sync: bool,
    /// The sample's bytes.
    pub bytes: Vec<u8>,
}

/// What [`MovieSample`] stands for.
pub struct SampleModel {
    pub start_time: nat,
    pub duration: nat,
    pub is_sync: bool,
    pub bytes: Seq<u8>,
}

impl MovieSample {
    /// The sample with its bytes as a sequence.
    pub open spec fn view(self) -> SampleModel {
        SampleModel {
            start_time: self.start_time as nat,
            duration: self.duration as nat,
            is_sync: self.is_sync,
            bytes: self.bytes@,
        }
    }
}

/// The samples of a track.
pub open spec fn models(samples: Seq<MovieSample>) -> Seq<SampleModel> {
    samples.map_values(|s: MovieSample| s@)
}

/// A movie's video track.
#[derive(Debug, Clone, PartialEq, Eq)]
pub struct VideoLayout {
    /// Width for the visual sample entry.
    pub width: u16,
    /// Height for the visual sample entry.
    pub height: u16,
    /// The sequence parameter set of the `avcC` configuration.
    pub sps: Vec<u8>,
    /// The picture parameter set of the `avcC` configuration.
    pub pps: Vec<u8>,
    /// The samples, in [`TIMESCALE`].
    pub samples: Vec<MovieSample>,
}

/// One of a movie's Opus tracks.
#[derive(Debug, Clone, PartialEq, Eq)]
pub struct AudioLayout {
    /// Channel count.
    pub channels: u8,
    /// Sample rate, and the track's timescale.
    pub sample_rate: u32,
    /// The `dOps` PreSkip.
    pub pre_skip: u16,
    /// The samples, in the track's timescale.
    pub samples: Vec<MovieSample>,
    /// The edit list: duration in [`TIMESCALE`] and media time in the track's timescale, where
    /// a media time of -1 marks an empty edit. Empty where no edit is needed.
    pub edits: Vec<(u64, i64)>,
}

/// A clip laid out for the container.
#[derive(Debug, Clone, PartialEq, Eq)]
pub struct Movie {
    /// Compatible brands, the major brand first, each as its four bytes read big-endian.
    pub brands: Vec<u32>,
    /// The video track, track 1.
    pub video: VideoLayout,
    /// The audio tracks, track 2 onward.
    pub audio: Vec<AudioLayout>,
}

/// The nanoseconds from `from` to `to`, or 0 where `to` is earlier.
pub open spec fn span(from: Duration, to: Duration) -> nat {
    if to@ >= from@ {
        (to@ - from@) as nat
    } else {
        0
    }
}

/// The lesser of two numbers.
pub open spec fn lesser(a: nat, b: nat) -> nat {
    if a <= b {
        a
    } else {
        b
    }
}

/// How long frame `i` stays on screen, in nanoseconds: the gap to the next frame; for the last
/// frame the gap before it, and for a lone frame one frame period.
pub open spec fn frame_span(video: Seq<EncodedChunk>, i: int, framerate: u32) -> nat {
    if i + 1 < video.len() {
        span(video[i].pts, video[i + 1].pts)
    } else if i > 0 {
        span(video[i - 1].pts, video[i].pts)
    } else {
        1_000_000_000nat / framerate as nat
    }
}

/// Frame `i` of a clip as a sample: timed from the clip's first frame, in microseconds.
pub open spec fn video_sample(video: Seq<EncodedChunk>, i: int, framerate: u32) -> SampleModel {
    SampleModel {
        start_time: span(video[0].pts, video[i].pts) / 1_000 % 0x1_0000_0000_0000_0000,
        duration: lesser(frame_span(video, i, framerate) / 1_000, u32::MAX as nat),
        is_sync: video[i].is_keyframe,
        bytes: avcc(units(video[i].bytes@)),
    }
}

/// The samples of a clip's video track.
pub open spec fn video_samples(video: Seq<EncodedChunk>, framerate: u32) -> Seq<SampleModel> {
    Seq::new(video.len(), |i: int| video_sample(video, i, framerate))
}

/// The samples per channel that the packets span.
pub open spec fn total_frames(chunks: Seq<EncodedAudioChunk>) -> nat
    decreases chunks.len(),
{
    if chunks.len() == 0 {
        0
    } else {
        total_frames(chunks.drop_last()) + chunks.last().frames as nat
    }
}

/// The samples of an audio track: the packets back to back.
pub open spec fn audio_samples(chunks: Seq<EncodedAudioChunk>) -> Seq<SampleModel> {
    Seq::new(
        chunks.len(),
        |i: int|
            SampleModel {
                start_time: total_frames(chunks.take(i)),
                duration: chunks[i].frames as nat,
                is_sync: true,
                bytes: chunks[i].bytes@,
            },
    )
}

/// An audio track's edit list: an empty edit for its start offset from the clip's base, then a
/// trim edit at the encoder pre-skip; none where neither does anything.
pub open spec fn edit_list(track: AudioTrack, base: Duration) -> Seq<(u64, i64)> {
    let total = total_frames(track.chunks@);
    let offset = lesser(span(base, track.chunks@[0].pts) / 1_000, u64::MAX as nat);
    let skip = lesser(track.pre_skip as nat, total);
    let rate = if track.sample_rate == 0 {
        1
    } else {
        track.sample_rate as nat
    };
    let trim = ((((total - skip) as nat) * 1_000_000 / rate) as u64, skip as i64);
    if offset > 0 {
        seq![(offset as u64, -1i64), trim]
    } else if skip > 0 {
        seq![trim]
    } else {
        Seq::empty()
    }
}

/// Whether an audio track's length in microseconds can be counted in 64 bits.
pub open spec fn countable(track: AudioTrack) -> bool {
    total_frames(track.chunks@) * 1_000_000 <= u64::MAX
}

/// Whether `layout` is `track` laid out for a clip that begins at `base`.
pub open spec fn lays_out(layout: AudioLayout, track: AudioTrack, base: Duration) -> bool {
    &&& layout.channels == track.channels
    &&& layout.sample_rate == track.sample_rate
    &&& layout.pre_skip == track.pre_skip
    &&& models(layout.samples@) == audio_samples(track.chunks@)
    &&& layout.edits@ == edit_list(track, base)
}

/// The tracks that have packets.
pub open spec fn audible(tracks: Seq<AudioTrack>) -> Seq<AudioTrack>
    decreases tracks.len(),
{
    if tracks.len() == 0 {
        Seq::empty()
    } else if tracks.last().chunks@.len() > 0 {
        audible(tracks.drop_last()).push(tracks.last())
    } else {
        audible(tracks.drop_last())
    }
}

/// The first NAL unit among `units` whose type is `t`.
pub open spec fn first_unit(units: Seq<Seq<u8>>, t: u8) -> Option<Seq<u8>>
    decreases units.len(),
{
    if units.len() == 0 {
        None
    } else if units[0].len() > 0 && units[0][0] & 0x1f == t {
        Some(units[0])
    } else {
        first_unit(units.skip(1), t)
    }
}

/// The slices of `nals` as sequences.
pub open spec fn slices(nals: Seq<&[u8]>) -> Seq<Seq<u8>> {
    nals.map_values(|nal: &[u8]| nal@)
}

/// Split an Annex-B buffer into NAL unit payloads, dropping the `00 00 01` start codes
/// (and the extra leading `00` of any four-byte `00 00 00 01` variant).
pub fn nal_units(data: &[u8]) -> (r: Vec<&[u8]>)
    ensures
        slices(r@) == units(data@),
{
    let starts = start_codes(data);
    let mut out: Vec<&[u8]> = Vec::new();
    let mut k: usize = 0;
    let ghost all = codes(data@, 0);
    let size: usize = data.len();
    proof {
        lemma_codes(data@, 0);
        assert(slices(out@) =~= Seq::<Seq<u8>>::empty());
    }
    while k < starts.len()
        invariant
            k <= starts.len(),
            size == data.len(),
            all == codes(data@, 0),
            starts@.map_values(|i: usize| i as int) == all,
            crate::nal::ordered_codes(data@, 0, all),
            slices(out@) == units_behind(data@, all, k as int),
        decreases starts.len() - k,
    {
        proof {
            assert(all[k as int] == starts@[k as int] as int);
            if k + 1 < all.len() {
                assert(all[k + 1] == starts@[k + 1] as int);
            }
        }
        let from: usize = starts[k] + 3;
        let to: usize = if k + 1 < starts.len() {
            starts[k + 1]
        } else {
            size
        };
        let end: usize = trimmed_end(data, from, to);
        let ghost before = out@;
        if from < end {
            out.push(vstd::slice::slice_subrange(data, from, end));
            proof {
                assert(slices(out@) =~= slices(before).push(unit_at(data@, all, k as int)));
            }
        }
        k = k + 1;
    }
    out
}

/// The first NAL unit of the given `nal_unit_type`, if present.
pub fn find_nal(data: &[u8], nal_type: u8) -> (r: Option<&[u8]>)
    ensures
        match r {
            Some(nal) => first_unit(units(data@), nal_type) == Some(nal@),
            None => first_unit(units(data@), nal_type) is None,
        },
{
    let nals = nal_units(data);
    let ghost all = units(data@);
    let mut k: usize = 0;
    proof {
        assert(all.skip(0) =~= all);
    }
    while k < nals.len()
        invariant
            k <= nals.len(),
            all == units(data@),
            slices(nals@) == all,
            first_unit(all, nal_type) == first_unit(all.skip(k as int), nal_type),
        decreases nals.len() - k,
    {
        let nal = nals[k];
        proof {
            assert(all[k as int] == nals@[k as int]@);
            assert(all.skip(k as int).skip(1) =~= all.skip(k + 1));
        }
        if nal.len() > 0 && nal[0] & 0x1f == nal_type {
            return Some(nal);
        }
        k = k + 1;
    }
    None
}

/// Convert Annex-B (start-code-delimited) NAL units into AVCC form: each NAL prefixed
/// by its four-byte big-endian length, which is how MP4 stores H.264 samples.
pub fn annexb_to_avcc(data: &[u8]) -> (r: Vec<u8>)
    ensures
        r@ == avcc(units(data@)),
{
    let nals = nal_units(data);
    let ghost all = units(data@);
    let mut out: Vec<u8> = Vec::new();
    let mut k: usize = 0;
    proof {
        assert(all.take(0) =~= Seq::<Seq<u8>>::empty());
    }
    while k < nals.len()
        invariant
            k <= nals.len(),
            all == units(data@),
            slices(nals@) == all,
            out@ == avcc(all.take(k as int)),
        decreases nals.len() - k,
    {
        let nal = nals[k];
        let n: usize = nal.len();
        let ghost before = out@;
        out.push((n / 0x1000000 % 0x100) as u8);
        out.push((n / 0x10000 % 0x100) as u8);
        out.push((n / 0x100 % 0x100) as u8);
        out.push((n % 0x100) as u8);
        proof {
            assert(out@ =~= before + be_bytes(n as nat));
        }
        push_bytes(&mut out, nal, 0, n);
        proof {
            assert(all[k as int] == nal@);
            assert(nal@.subrange(0, n as int) =~= nal@);
            assert(all.take(k + 1).drop_last() =~= all.take(k as int));
        }
        k = k + 1;
    }
    proof {
        assert(all.take(all.len() as int) =~= all);
    }
    out
}

/// MP4 muxer (Annex-B to AVCC) for a single H.264 video track.
#[derive(Debug, Clone, Copy)]
pub struct Mp4Muxer {
    width: u16,
    height: u16,
    framerate: u32,
}

/// The sequence and picture parameter sets that a clip begins with, if it has both.
pub open spec fn parameter_sets(video: Seq<EncodedChunk>) -> Option<(Seq<u8>, Seq<u8>)> {
    match (
        first_unit(units(video[0].bytes@), NAL_SPS),
        first_unit(units(video[0].bytes@), NAL_PPS),
    ) {
        (Some(sps), Some(pps)) => Some((sps, pps)),
        _ => None,
    }
}

/// The brands of a movie, with the Opus brand only where there is audio.
pub open spec fn brand_list(has_audio: bool) -> Seq<u32> {
    let common = seq![ISOM, ISO2, AVC1, MP41];
    if has_audio {
        common.push(OPUS)
    } else {
        common
    }
}

/// Whether `movie` is what `muxer` lays out for a clip.
pub open spec fn laid_out(
    movie: Movie,
    muxer: Mp4Muxer,
    video: Seq<EncodedChunk>,
    audio: Seq<AudioTrack>,
) -> bool {
    &&& parameter_sets(video) == Some((movie.video.sps@, movie.video.pps@))
    &&& (movie.video.width, movie.video.height) == muxer.size()
    &&& models(movie.video.samples@) == video_samples(video, muxer.rate())
    &&& movie.brands@ == brand_list(audible(audio).len() > 0)
    &&& movie.audio@.len() == audible(audio).len()
    &&& forall|k: int|
        0 <= k < movie.audio@.len() ==> lays_out(
            #[trigger] movie.audio@[k],
            audible(audio)[k],
            video[0].pts,
        )
}

/// Whether an audio track's length in microseconds can be counted in 64 bits.
pub fn is_countable(track: &AudioTrack) -> (r: bool)
    ensures
        r == countable(*track),
{
    let chunks = track.chunks;
    let mut total: u64 = 0;
    let mut i: usize = 0;
    proof {
        assert(chunks@.take(0) =~= Seq::<EncodedAudioChunk>::empty());
    }
    while i < chunks.len()
        invariant
            i <= chunks.len(),
            chunks == track.chunks,
            total == total_frames(chunks@.take(i as int)),
            total <= u64::MAX / 1_000_000,
        decreases chunks.len() - i,
    {
        proof {
            assert(chunks@.take(i + 1).drop_last() =~= chunks@.take(i as int));
            lemma_total_grows(chunks@, i + 1);
        }
        total = total + chunks[i].frames as u64;
        if total > u64::MAX / 1_000_000 {
            return false;
        }
        i = i + 1;
    }
    proof {
        assert(chunks@.take(chunks@.len() as int) =~= chunks@);
    }
    true
}

/// How long frame `i` stays on screen, in microseconds as a sample stores it.
fn frame_micros(video: &[EncodedChunk], i: usize, framerate: u32) -> (r: u32)
    requires
        i < video.len(),
        framerate >= 1,
    ensures
        r == lesser(frame_span(video@, i as int, framerate) / 1_000, u32::MAX as nat),
{
    let gap = if i + 1 < video.len() {
        video[i + 1].pts.saturating_sub(video[i].pts)
    } else if i > 0 {
        video[i].pts.saturating_sub(video[i - 1].pts)
    } else {
        Duration::from_nanos(1_000_000_000u64 / framerate as u64)
    };
    let micros: u128 = gap.as_micros();
    if micros <= u32::MAX as u128 {
        micros as u32
    } else {
        u32::MAX
    }
}

/// Lay out one audio track for a clip that begins at `base`.
///
/// Packets are written back to back: each sample's duration is its real Opus frame length, so
/// the audio sample clock stays exact. The edit list carries the real start offset (an empty
/// edit) and the encoder pre-skip trim, so the audio presents at the right moment with no
/// priming click.
pub fn lay_out_audio(track: &AudioTrack, base: Duration) -> (r: AudioLayout)
    requires
        track.chunks@.len() > 0,
        countable(*track),
    ensures
        lays_out(r, *track, base),
{
    let chunks = track.chunks;
    let mut samples: Vec<MovieSample> = Vec::new();
    let mut cumulative: u64 = 0;
    let mut i: usize = 0;
    proof {
        assert(chunks@.take(0) =~= Seq::<EncodedAudioChunk>::empty());
        assert(models(samples@) =~= audio_samples(chunks@).take(0));
    }
    while i < chunks.len()
        invariant
            i <= chunks.len(),
            chunks == track.chunks,
            countable(*track),
            cumulative == total_frames(chunks@.take(i as int)),
            models(samples@) == audio_samples(chunks@).take(i as int),
        decreases chunks.len() - i,
    {
        let chunk = &chunks[i];
        let ghost before = samples@;
        let bytes = chunk.bytes.clone();
        proof {
            assert(bytes@ =~= chunk.bytes@);
            assert(chunks@.take(i + 1).drop_last() =~= chunks@.take(i as int));
            lemma_total_grows(chunks@, i + 1);
        }
        samples.push(
            MovieSample { start_time: cumulative, duration: chunk.frames, is_sync: true, bytes },
        );
        proof {
            assert(models(samples@) =~= models(before).push(samples@.last()@));
            assert(samples@.last()@ == audio_samples(chunks@)[i as int]);
            assert(audio_samples(chunks@).take(i + 1) =~= audio_samples(chunks@).take(
                i as int,
            ).push(audio_samples(chunks@)[i as int]));
        }
        cumulative = cumulative + chunk.frames as u64;
        i = i + 1;
    }
    proof {
        assert(chunks@.take(chunks@.len() as int) =~= chunks@);
        assert(audio_samples(chunks@).take(chunks@.len() as int) =~= audio_samples(chunks@));
    }
    let offset_micros: u128 = chunks[0].pts.saturating_sub(base).as_micros();
    let offset: u64 = if offset_micros <= u64::MAX as u128 {
        offset_micros as u64
    } else {
        u64::MAX
    };
    let skip: u64 = if track.pre_skip as u64 <= cumulative {
        track.pre_skip as u64
    } else {
        cumulative
    };
    let rate: u64 = if track.sample_rate == 0 {
        1
    } else {
        track.sample_rate as u64
    };
    let mut edits: Vec<(u64, i64)> = Vec::new();
    if offset > 0 || skip > 0 {
        let trim: u64 = (cumulative - skip) * 1_000_000 / rate;
        if offset > 0 {
            edits.push((offset, -1));
        }
        edits.push((trim, skip as i64));
    }
    proof {
        assert(edits@ =~= edit_list(*track, base));
    }
    AudioLayout {
        channels: track.channels,
        sample_rate: track.sample_rate,
        pre_skip: track.pre_skip,
        samples,
        edits,
    }
}

/// More packets span no fewer samples.
proof fn lemma_total_grows(chunks: Seq<EncodedAudioChunk>, n: int)
    requires
        0 <= n <= chunks.len(),
    ensures
        total_frames(chunks.take(n)) <= total_frames(chunks),
    decreases chunks.len() - n,
{
    if n == chunks.len() {
        assert(chunks.take(n) =~= chunks);
    } else {
        lemma_total_grows(chunks, n + 1);
        assert(chunks.take(n + 1).drop_last() =~= chunks.take(n));
    }
}

impl Mp4Muxer {
    /// The frame rate that a lone frame's duration is taken from.
    pub closed spec fn rate(self) -> u32 {
        self.framerate
    }

    /// The dimensions for the visual sample entry.
    pub closed spec fn size(self) -> (u16, u16) {
        (self.width, self.height)
    }

    /// Whether the muxer is for a stream of these dimensions and this framerate: dimensions are
    /// capped at 65535, and a framerate of 0 counts as 1.
    pub open spec fn is_for(self, width: u32, height: u32, framerate: u32) -> bool {
        &&& self.size().0 == lesser(width as nat, u16::MAX as nat)
        &&& self.size().1 == lesser(height as nat, u16::MAX as nat)
        &&& framerate == 0 ==> self.rate() == 1
        &&& framerate > 0 ==> self.rate() == framerate
    }

    #[verifier::type_invariant]
    spec fn has_rate(self) -> bool {
        self.framerate >= 1
    }

    /// Create a muxer for an H.264 stream of the given pixel dimensions and framerate.
    /// The dimensions feed the track's visual sample entry (the decoder reads the real
    /// size from the SPS); the framerate sets the duration of the final frame, which has
    /// no successor to measure against.
    pub fn new(width: u32, height: u32, framerate: u32) -> (r: Self)
        ensures
            r.is_for(width, height, framerate),
    {
        Mp4Muxer {
            width: if width <= u16::MAX as u32 {
                width as u16
            } else {
                u16::MAX
            },
            height: if height <= u16::MAX as u32 {
                height as u16
            } else {
                u16::MAX
            },
            framerate: if framerate == 0 {
                1
            } else {
                framerate
            },
        }
    }

    /// Lay out `video`, which must begin on an IDR that carries its parameter sets, and the
    /// audio tracks that have packets.
    ///
    /// Timestamps are capture-relative and a flushed clip is a mid-stream slice, so every track
    /// is timed against the first video chunk: the clip starts at zero, and the audio keeps its
    /// real offset from the video.
    pub fn movie(&self, video: &[EncodedChunk], audio: &[AudioTrack]) -> (r: Result<
        Movie,
        MuxError,
    >)
        requires
            forall|i: int| 0 <= i < audio@.len() ==> countable(#[trigger] audio@[i]),
        ensures
            match r {
                Ok(movie) => video@.len() > 0 && video@[0].is_keyframe && laid_out(
                    movie,
                    *self,
                    video@,
                    audio@,
                ),
                Err(MuxError::NotKeyframeStart) => video@.len() == 0 || !video@[0].is_keyframe,
                Err(MuxError::MissingParameterSets) => video@.len() > 0 && video@[0].is_keyframe
                    && parameter_sets(video@) is None,
                Err(_) => false,
            },
    {
        proof {
            use_type_invariant(self);
        }
        if video.len() == 0 || !video[0].is_keyframe {
            return Err(MuxError::NotKeyframeStart);
        }
        let first = &video[0];
        let sps = match find_nal(first.bytes.as_slice(), NAL_SPS) {
            Some(nal) => nal,
            None => {
                return Err(MuxError::MissingParameterSets);
            },
        };
        let pps = match find_nal(first.bytes.as_slice(), NAL_PPS) {
            Some(nal) => nal,
            None => {
                return Err(MuxError::MissingParameterSets);
            },
        };
        let samples = self.lay_out_video(video);
        let mut layouts: Vec<AudioLayout> = Vec::new();
        let mut i: usize = 0;
        proof {
            assert(audio@.take(0) =~= Seq::<AudioTrack>::empty());
        }
        while i < audio.len()
            invariant
                i <= audio.len(),
                video@.len() > 0,
                *first == video@[0],
                forall|i: int| 0 <= i < audio@.len() ==> countable(#[trigger] audio@[i]),
                layouts@.len() == audible(audio@.take(i as int)).len(),
                forall|k: int|
                    0 <= k < layouts@.len() ==> lays_out(
                        #[trigger] layouts@[k],
                        audible(audio@.take(i as int))[k],
                        video@[0].pts,
                    ),
            decreases audio.len() - i,
        {
            proof {
                assert(audio@.take(i + 1).drop_last() =~= audio@.take(i as int));
            }
            if audio[i].chunks.len() > 0 {
                layouts.push(lay_out_audio(&audio[i], first.pts));
            }
            i = i + 1;
        }
        proof {
            assert(audio@.take(audio@.len() as int) =~= audio@);
        }
        let mut brands: Vec<u32> = Vec::new();
        brands.push(ISOM);
        brands.push(ISO2);
        brands.push(AVC1);
        brands.push(MP41);
        if layouts.len() > 0 {
            brands.push(OPUS);
        }
        proof {
            assert(brands@ =~= brand_list(layouts@.len() > 0));
        }
        Ok(
            Movie {
                brands,
                video: VideoLayout {
                    width: self.width,
                    height: self.height,
                    sps: vstd::slice::slice_to_vec(sps),
                    pps: vstd::slice::slice_to_vec(pps),
                    samples,
                },
                audio: layouts,
            },
        )
    }

    /// The video track's samples.
    fn lay_out_video(&self, video: &[EncodedChunk]) -> (samples: Vec<MovieSample>)
        requires
            video@.len() > 0,
        ensures
            models(samples@) == video_samples(video@, self.rate()),
    {
        proof {
            use_type_invariant(self);
        }
        let framerate: u32 = self.framerate;
        let base = video[0].pts;
        let mut samples: Vec<MovieSample> = Vec::new();
        let ghost all = video_samples(video@, framerate);
        let mut i: usize = 0;
        proof {
            assert(models(samples@) =~= all.take(0));
        }
        while i < video.len()
            invariant
                i <= video.len(),
                framerate >= 1,
                video@.len() > 0,
                base == video@[0].pts,
                all == video_samples(video@, framerate),
                models(samples@) == all.take(i as int),
            decreases video.len() - i,
        {
            let chunk = &video[i];
            let start: u128 = chunk.pts.saturating_sub(base).as_micros();
            let ghost before = samples@;
            samples.push(
                MovieSample {
                    start_time: (start % 0x1_0000_0000_0000_0000) as u64,
                    duration: frame_micros(video, i, framerate),
                    is_sync: chunk.is_keyframe,
                    bytes: annexb_to_avcc(chunk.bytes.as_slice()),
                },
            );
            proof {
                assert(models(samples@) =~= models(before).push(samples@.last()@));
                assert(samples@.last()@ == all[i as int]);
                assert(all.take(i + 1) =~= all.take(i as int).push(all[i as int]));
            }
            i = i + 1;
        }
        proof {
            assert(all.take(video@.len() as int) =~= all);
        }
        samples
    }
}

/// A clip starts at zero, wherever in the recording it was cut.
pub proof fn law_clip_starts_at_zero(video: Seq<EncodedChunk>, framerate: u32)
    requires
        video.len() > 0,
    ensures
        video_sample(video, 0, framerate).start_time == 0,
{
}

/// Each frame lasts until the next one, to within the microsecond that times are cut off to, and
/// exactly where they are whole microseconds: the timing of the capture is kept. This is of
/// frames in presentation order that follow each other within what a sample's duration can say.
pub proof fn law_frames_follow_on(video: Seq<EncodedChunk>, i: int, framerate: u32)
    requires
        0 <= i,
        i + 1 < video.len(),
        video[0].pts@ <= video[i].pts@ <= video[i + 1].pts@,
        span(video[i].pts, video[i + 1].pts) / 1_000 <= u32::MAX,
        span(video[0].pts, video[i + 1].pts) / 1_000 <= u64::MAX,
    ensures
        ({
            let this = video_sample(video, i, framerate);
            let next = video_sample(video, i + 1, framerate);
            &&& this.start_time + this.duration <= next.start_time <= this.start_time
                + this.duration + 1
            &&& span(video[0].pts, video[i].pts) % 1_000 == 0 && span(
                video[0].pts,
                video[i + 1].pts,
            ) % 1_000 == 0 ==> this.start_time + this.duration == next.start_time
        }),
{
}

/// No packet is lost, repeated or reordered: the laid-out track has one sample for each packet,
/// in order, which carries the packet's bytes and lasts as long as the packet.
pub proof fn law_audio_packets_are_kept(layout: AudioLayout, track: AudioTrack, base: Duration)
    requires
        lays_out(layout, track, base),
    ensures
        layout.samples@.len() == track.chunks@.len(),
        forall|i: int|
            0 <= i < track.chunks@.len() ==> (#[trigger] layout.samples@[i]).bytes@
                == track.chunks@[i].bytes@ && layout.samples@[i].duration
                == track.chunks@[i].frames && layout.samples@[i].is_sync,
{
    assert(models(layout.samples@).len() == layout.samples@.len());
    assert forall|i: int| 0 <= i < track.chunks@.len() implies (
    #[trigger] layout.samples@[i]).bytes@ == track.chunks@[i].bytes@
        && layout.samples@[i].duration == track.chunks@[i].frames
        && layout.samples@[i].is_sync by {
        assert(models(layout.samples@)[i] == layout.samples@[i]@);
    }
}

/// The packets of a track are laid out back to back from zero: each sample begins where the one
/// before it ends, so the sample clock never drifts and never gaps.
pub proof fn law_audio_packets_are_back_to_back(
    layout: AudioLayout,
    track: AudioTrack,
    base: Duration,
    i: int,
)
    requires
        lays_out(layout, track, base),
        0 <= i < track.chunks@.len(),
    ensures
        i == 0 ==> layout.samples@[i].start_time == 0,
        i > 0 ==> layout.samples@[i].start_time == layout.samples@[i - 1].start_time
            + layout.samples@[i - 1].duration,
{
    let chunks = track.chunks@;
    assert(models(layout.samples@).len() == layout.samples@.len());
    assert(models(layout.samples@)[i] == layout.samples@[i]@);
    if i > 0 {
        assert(models(layout.samples@)[i - 1] == layout.samples@[i - 1]@);
        assert(chunks.take(i).drop_last() =~= chunks.take(i - 1));
    }
}

/// Audio presents when it was captured: behind an empty edit that lasts as long as the audio
/// starts after the clip does, in whole microseconds, and with the encoder's priming cut off.
/// Where there is neither, there is no edit. What is presented is what the packets hold without
/// the priming.
pub proof fn law_audio_presents_on_time(layout: AudioLayout, track: AudioTrack, base: Duration)
    requires
        lays_out(layout, track, base),
        track.chunks@.len() > 0,
        countable(track),
        track.sample_rate > 0,
        span(base, track.chunks@[0].pts) / 1_000 <= u64::MAX,
    ensures
        ({
            let late = track.chunks@[0].pts@ - base@;
            let last = layout.samples@.last();
            let held = last.start_time + last.duration;
            let primed = if track.pre_skip <= held {
                track.pre_skip as int
            } else {
                held
            };
            &&& layout.edits@.len() == (if late >= 1_000 {
                2int
            } else if primed > 0 {
                1
            } else {
                0
            })
            &&& late >= 1_000 ==> layout.edits@[0].1 == -1 && layout.edits@[0].0 * 1_000 <= late
                < (layout.edits@[0].0 + 1) * 1_000
            &&& layout.edits@.len() > 0 ==> {
                let heard = layout.edits@.last();
                &&& heard.1 == primed
                &&& heard.0 * track.sample_rate <= (held - primed) * 1_000_000 < (heard.0 + 1)
                    * track.sample_rate
            }
        }),
{
    let chunks = track.chunks@;
    assert(models(layout.samples@).len() == layout.samples@.len());
    let n = chunks.len() as int;
    let rate = track.sample_rate as int;
    assert(models(layout.samples@)[n - 1] == layout.samples@[n - 1]@);
    assert(chunks.take(n - 1) =~= chunks.drop_last());
    let total = total_frames(chunks) as int;
    let skip = lesser(track.pre_skip as nat, total_frames(chunks)) as int;
    let whole = (total - skip) * 1_000_000;
    vstd::arithmetic::div_mod::lemma_fundamental_div_mod(whole, rate);
    assert(0 <= whole / rate <= whole) by (nonlinear_arith)
        requires
            whole >= 0,
            rate >= 1,
    ;
    assert(whole / rate * rate <= whole < (whole / rate + 1) * rate) by (nonlinear_arith)
        requires
            whole == rate * (whole / rate) + whole % rate,
            0 <= whole % rate < rate,
    ;
}

/// Which of the tracks have packets, in order.
spec fn heard_tracks(tracks: Seq<AudioTrack>) -> Seq<int>
    decreases tracks.len(),
{
    if tracks.len() == 0 {
        Seq::empty()
    } else if tracks.last().chunks@.len() > 0 {
        heard_tracks(tracks.drop_last()).push(tracks.len() - 1)
    } else {
        heard_tracks(tracks.drop_last())
    }
}

proof fn lemma_heard_tracks(tracks: Seq<AudioTrack>)
    ensures
        heard_tracks(tracks).len() == audible(tracks).len(),
        forall|k: int|
            0 <= k < heard_tracks(tracks).len() ==> 0 <= #[trigger] heard_tracks(tracks)[k]
                < tracks.len() && tracks[heard_tracks(tracks)[k]] == audible(tracks)[k]
                && audible(tracks)[k].chunks@.len() > 0,
        forall|j: int, k: int|
            0 <= j < k < heard_tracks(tracks).len() ==> #[trigger] heard_tracks(tracks)[j]
                < #[trigger] heard_tracks(tracks)[k],
        forall|t: int|
            0 <= t < tracks.len() && (#[trigger] tracks[t]).chunks@.len() > 0 ==> heard_tracks(
                tracks,
            ).contains(t),
    decreases tracks.len(),
{
    if tracks.len() > 0 {
        let init = tracks.drop_last();
        lemma_heard_tracks(init);
        let before = heard_tracks(init);
        let now = heard_tracks(tracks);
        assert forall|k: int| 0 <= k < now.len() implies 0 <= #[trigger] now[k] < tracks.len()
            && tracks[now[k]] == audible(tracks)[k] && audible(tracks)[k].chunks@.len() > 0 by {
            if k < before.len() {
                assert(now[k] == before[k]);
                assert(init[before[k]] == audible(init)[k]);
            }
        }
        assert forall|j: int, k: int| 0 <= j < k < now.len() implies #[trigger] now[j]
            < #[trigger] now[k] by {
            assert(now[j] == before[j]);
            if k < before.len() {
                assert(now[k] == before[k]);
            }
        }
        assert forall|t: int| 0 <= t < tracks.len() && (
        #[trigger] tracks[t]).chunks@.len() > 0 implies now.contains(t) by {
            if t < init.len() {
                assert(init[t] == tracks[t]);
                assert(before.contains(t));
                let k = choose|k: int| 0 <= k < before.len() && before[k] == t;
                assert(now[k] == t);
            } else {
                assert(now[now.len() - 1] == t);
            }
        }
    }
}

/// Every audio track that has packets is in the movie, and no other, in the order in which they
/// were given: `which[k]` is the track that the movie's `k`-th audio track was laid out from. It
/// keeps its channels, its rate and its priming, and its samples carry the packets' bytes.
pub proof fn law_movie_carries_every_track(
    movie: Movie,
    muxer: Mp4Muxer,
    video: Seq<EncodedChunk>,
    audio: Seq<AudioTrack>,
) -> (which: Seq<int>)
    requires
        laid_out(movie, muxer, video, audio),
    ensures
        which.len() == movie.audio@.len(),
        forall|j: int, k: int|
            0 <= j < k < which.len() ==> #[trigger] which[j] < #[trigger] which[k],
        forall|t: int|
            0 <= t < audio.len() ==> ((#[trigger] audio[t]).chunks@.len() > 0 <==> which.contains(
                t,
            )),
        forall|k: int|
            0 <= k < which.len() ==> {
                let track = audio[#[trigger] which[k]];
                let layout = movie.audio@[k];
                &&& 0 <= which[k] < audio.len()
                &&& layout.channels == track.channels
                &&& layout.sample_rate == track.sample_rate
                &&& layout.pre_skip == track.pre_skip
                &&& layout.samples@.len() == track.chunks@.len()
                &&& forall|i: int|
                    0 <= i < track.chunks@.len() ==> (#[trigger] layout.samples@[i]).bytes@
                        == track.chunks@[i].bytes@
            },
{
    lemma_heard_tracks(audio);
    let which = heard_tracks(audio);
    assert forall|k: int| 0 <= k < which.len() implies {
        let track = audio[#[trigger] which[k]];
        let layout = movie.audio@[k];
        &&& 0 <= which[k] < audio.len()
        &&& layout.channels == track.channels
        &&& layout.sample_rate == track.sample_rate
        &&& layout.pre_skip == track.pre_skip
        &&& layout.samples@.len() == track.chunks@.len()
        &&& forall|i: int|
            0 <= i < track.chunks@.len() ==> (#[trigger] layout.samples@[i]).bytes@
                == track.chunks@[i].bytes@
    } by {
        assert(lays_out(movie.audio@[k], audible(audio)[k], video[0].pts));
        law_audio_packets_are_kept(movie.audio@[k], audible(audio)[k], video[0].pts);
    }
    assert forall|t: int| 0 <= t < audio.len() implies ((#[trigger] audio[t]).chunks@.len() > 0
        <==> which.contains(t)) by {
        if which.contains(t) {
            let k = choose|k: int| 0 <= k < which.len() && which[k] == t;
            assert(audio[which[k]] == audible(audio)[k]);
        }
    }
    which
}

/// No frame is lost, repeated or reordered: the video track has one sample for each frame, in
/// order. Read back as MP4 stores it, the sample holds the NAL units of that very frame, and
/// decoding can begin at it exactly where the frame is a keyframe.
pub proof fn law_movie_carries_every_frame(
    movie: Movie,
    muxer: Mp4Muxer,
    video: Seq<EncodedChunk>,
    audio: Seq<AudioTrack>,
)
    requires
        laid_out(movie, muxer, video, audio),
        forall|i: int| 0 <= i < video.len() ==> (#[trigger] video[i]).bytes@.len() < 0x1_0000_0000,
    ensures
        movie.video.samples@.len() == video.len(),
        forall|i: int|
            0 <= i < video.len() ==> avcc_units(
                (#[trigger] movie.video.samples@[i]).bytes@,
                4,
                0,
            ) == (units(video[i].bytes@), None::<AvccFault>)
                && movie.video.samples@[i].is_sync == video[i].is_keyframe,
{
    let samples = movie.video.samples@;
    assert(models(samples).len() == samples.len());
    assert forall|i: int| 0 <= i < video.len() implies avcc_units(
        (#[trigger] samples[i]).bytes@,
        4,
        0,
    ) == (units(video[i].bytes@), None::<AvccFault>) && samples[i].is_sync
        == video[i].is_keyframe by {
        assert(models(samples)[i] == samples[i]@);
        assert(video[i].bytes@.len() < 0x1_0000_0000);
        law_stored_units_read_back(video[i].bytes@);
    }
}

/// A clip plays in real time: each frame starts as long after the first one as it was captured
/// after it, to within the microsecond that times are cut off to. The last frame stays as long
/// as the one before it, and a lone frame one period of the frame rate.
pub proof fn law_movie_plays_in_real_time(
    movie: Movie,
    muxer: Mp4Muxer,
    video: Seq<EncodedChunk>,
    audio: Seq<AudioTrack>,
    i: int,
)
    requires
        laid_out(movie, muxer, video, audio),
        0 <= i < video.len(),
        muxer.rate() >= 1,
        video[0].pts@ <= video[i].pts@,
        video[i].pts@ - video[0].pts@ <= u64::MAX * 1_000,
    ensures
        movie.video.samples@[i].start_time * 1_000 <= video[i].pts@ - video[0].pts@ < (
        movie.video.samples@[i].start_time + 1) * 1_000,
        i > 0 && i + 1 == video.len() && video[i - 1].pts@ <= video[i].pts@ && video[i].pts@
            - video[i - 1].pts@ <= u32::MAX * 1_000 ==> movie.video.samples@[i].duration
            == movie.video.samples@[i - 1].duration,
        video.len() == 1 ==> movie.video.samples@[0].duration * muxer.rate() <= 1_000_000 < (
        movie.video.samples@[0].duration + 1) * muxer.rate(),
{
    let samples = movie.video.samples@;
    assert(models(samples).len() == samples.len());
    assert(models(samples)[i] == samples[i]@);
    if i > 0 {
        assert(models(samples)[i - 1] == samples[i - 1]@);
    }
    if video.len() == 1 {
        let rate = muxer.rate() as int;
        let nanos = 1_000_000_000int / rate;
        vstd::arithmetic::div_mod::lemma_fundamental_div_mod(1_000_000_000, rate);
        assert(0 <= nanos <= 1_000_000_000) by (nonlinear_arith)
            requires
                nanos == 1_000_000_000int / rate,
                rate >= 1,
        ;
        let d = nanos / 1_000;
        assert(d * rate <= 1_000_000 < (d + 1) * rate) by (nonlinear_arith)
            requires
                1_000_000_000 == rate * nanos + 1_000_000_000int % rate,
                0 <= 1_000_000_000int % rate < rate,
                d * 1_000 <= nanos < (d + 1) * 1_000,
                rate >= 1,
        ;
    }
}

/// The parameter sets of the container's configuration are NAL units of the clip's first frame,
/// an SPS and a PPS, and the first of their type in it.
pub proof fn law_movie_is_set_up_from_first_frame(
    movie: Movie,
    muxer: Mp4Muxer,
    video: Seq<EncodedChunk>,
    audio: Seq<AudioTrack>,
) -> (at: (int, int))
    requires
        laid_out(movie, muxer, video, audio),
    ensures
        ({
            let nals = units(video[0].bytes@);
            &&& 0 <= at.0 < nals.len()
            &&& nals[at.0] == movie.video.sps@
            &&& movie.video.sps@.len() > 0 && movie.video.sps@[0] & 0x1f == NAL_SPS
            &&& forall|j: int|
                0 <= j < at.0 && (#[trigger] nals[j]).len() > 0 ==> nals[j][0] & 0x1f != NAL_SPS
            &&& 0 <= at.1 < nals.len()
            &&& nals[at.1] == movie.video.pps@
            &&& movie.video.pps@.len() > 0 && movie.video.pps@[0] & 0x1f == NAL_PPS
            &&& forall|j: int|
                0 <= j < at.1 && (#[trigger] nals[j]).len() > 0 ==> nals[j][0] & 0x1f != NAL_PPS
        }),
{
    let nals = units(video[0].bytes@);
    let a = lemma_first_unit(nals, NAL_SPS);
    let b = lemma_first_unit(nals, NAL_PPS);
    (a, b)
}

/// A clip is refused exactly where it could not be played: where it does not begin on a keyframe,
/// or where no NAL unit of its first frame is an SPS, or none is a PPS.
pub proof fn law_refused_clip_has_no_parameter_sets(video: Seq<EncodedChunk>)
    ensures
        parameter_sets(video) is Some <==> (exists|i: int|
            0 <= i < units(video[0].bytes@).len() && (#[trigger] units(video[0].bytes@)[i]).len()
                > 0 && units(video[0].bytes@)[i][0] & 0x1f == NAL_SPS) && (exists|i: int|
            0 <= i < units(video[0].bytes@).len() && (#[trigger] units(video[0].bytes@)[i]).len()
                > 0 && units(video[0].bytes@)[i][0] & 0x1f == NAL_PPS),
{
    let nals = units(video[0].bytes@);
    if first_unit(nals, NAL_SPS) is Some {
        let k = lemma_first_unit(nals, NAL_SPS);
        assert(nals[k].len() > 0);
    } else {
        lemma_no_unit(nals, NAL_SPS);
    }
    if first_unit(nals, NAL_PPS) is Some {
        let k = lemma_first_unit(nals, NAL_PPS);
        assert(nals[k].len() > 0);
    } else {
        lemma_no_unit(nals, NAL_PPS);
    }
}

/// A movie has the size of the stream it was made for, as far as the container can say it, and
/// carries the Opus brand exactly where it has audio.
pub proof fn law_movie_says_what_it_holds(
    movie: Movie,
    muxer: Mp4Muxer,
    video: Seq<EncodedChunk>,
    audio: Seq<AudioTrack>,
    width: u32,
    height: u32,
    framerate: u32,
)
    requires
        muxer.is_for(width, height, framerate),
        laid_out(movie, muxer, video, audio),
    ensures
        width <= 0xffff ==> movie.video.width == width,
        height <= 0xffff ==> movie.video.height == height,
        width > 0xffff ==> movie.video.width == 0xffff,
        height > 0xffff ==> movie.video.height == 0xffff,
        movie.brands@.contains(OPUS) <==> movie.audio@.len() > 0,
        movie.brands@[0] == ISOM,
        movie.brands@.contains(AVC1),
{
    assert(movie.brands@[2] == AVC1);
    if movie.audio@.len() > 0 {
        assert(movie.brands@[4] == OPUS);
    }
}

proof fn lemma_no_unit(nals: Seq<Seq<u8>>, t: u8)
    requires
        first_unit(nals, t) is None,
    ensures
        forall|i: int| 0 <= i < nals.len() && (#[trigger] nals[i]).len() > 0 ==> nals[i][0] & 0x1f
            != t,
    decreases nals.len(),
{
    if nals.len() > 0 {
        let rest = nals.skip(1);
        lemma_no_unit(rest, t);
        assert forall|i: int| 0 <= i < nals.len() && (
        #[trigger] nals[i]).len() > 0 implies nals[i][0] & 0x1f != t by {
            if i > 0 {
                assert(rest[i - 1] == nals[i]);
            }
        }
    }
}

/// The first NAL unit of a type stands among the units, and none before it has the type.
proof fn lemma_first_unit(nals: Seq<Seq<u8>>, t: u8) -> (k: int)
    requires
        first_unit(nals, t) is Some,
    ensures
        0 <= k < nals.len(),
        first_unit(nals, t) == Some(nals[k]),
        nals[k].len() > 0 && nals[k][0] & 0x1f == t,
        forall|j: int|
            0 <= j < k && (#[trigger] nals[j]).len() > 0 ==> nals[j][0] & 0x1f != t,
    decreases nals.len(),
{
    if nals[0].len() > 0 && nals[0][0] & 0x1f == t {
        0
    } else {
        let rest = nals.skip(1);
        let k = lemma_first_unit(rest, t);
        assert(rest[k] == nals[k + 1]);
        assert forall|j: int| 0 <= j < k + 1 && (
        #[trigger] nals[j]).len() > 0 implies nals[j][0] & 0x1f != t by {
            if j > 0 {
                assert(rest[j - 1] == nals[j]);
            }
        }
        k + 1
    }
}

/// What is found is the first unit of the type that was asked for; where nothing is, no unit is
/// of that type.
pub proof fn law_found_unit_is_the_first(data: &[u8], nal_type: u8, r: Option<&[u8]>) -> (at: int)
    requires
        call_ensures(find_nal, (data, nal_type), r),
    ensures
        match r {
            Some(nal) => 0 <= at < units(data@).len() && nal@ == units(data@)[at] && nal@.len() > 0
                && nal@[0] & 0x1f == nal_type,
            None => at == units(data@).len(),
        },
        forall|i: int|
            0 <= i < at ==> (#[trigger] units(data@)[i]).len() == 0 || units(data@)[i][0] & 0x1f
                != nal_type,
{
    lemma_first_of_type(units(data@), nal_type)
}

proof fn lemma_first_of_type(all: Seq<Seq<u8>>, t: u8) -> (at: int)
    ensures
        0 <= at <= all.len(),
        first_unit(all, t) is Some == (at < all.len()),
        at < all.len() ==> first_unit(all, t) == Some(all[at]) && all[at].len() > 0 && all[at][0]
            & 0x1f == t,
        forall|i: int| 0 <= i < at ==> (#[trigger] all[i]).len() == 0 || all[i][0] & 0x1f != t,
    decreases all.len(),
{
    if all.len() == 0 || (all[0].len() > 0 && all[0][0] & 0x1f == t) {
        0
    } else {
        let rest = all.skip(1);
        let n = lemma_first_of_type(rest, t);
        assert forall|i: int| 0 <= i < n + 1 implies (#[trigger] all[i]).len() == 0 || all[i][0]
            & 0x1f != t by {
            if i > 0 {
                assert(rest[i - 1] == all[i]);
            }
        }
        if n < rest.len() {
            assert(rest[n] == all[n + 1]);
        }
        n + 1
    }
}

} // verus!
