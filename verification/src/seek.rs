//! Finding the sync sample to decode from, and streaming frames from there.

use crate::clock::{Duration, MAX_NANOS};
use crate::encode::EncodedChunk;
use crate::mux::{video_sample, TIMESCALE};
use crate::nal::{annexb, avcc_units, law_stored_units_read_back, units};
use crate::read::{avcc_to_annexb, clip_summary, first_sync, ClipSample, ClipSummary, ReadError};
use crate::read::{VideoHead, PREVIEW_POSITION, WHOLE};
use vstd::prelude::*;

verus! {

/// One entry of a track's sync-sample table: the sample's id and, where the time table covers
/// it, its decode time in the track's timescale.
#[derive(Debug, Clone, Copy, PartialEq, Eq)]
pub struct SyncPoint {
    /// The sample's id, counted from 1.
    pub id: u32,
    /// Its decode time.
    pub time: Option<u64>,
}

/// The timescale to divide by: 0 counts as 1.
pub open spec fn scale_of(timescale: u32) -> nat {
    if timescale == 0 {
        1
    } else {
        timescale as nat
    }
}

/// Whether the decode time `time` is at or before `start`.
pub open spec fn at_or_before(time: u64, scale: nat, start: Duration) -> bool {
    time * 1_000_000_000 <= start@ * scale
}

/// The last sync sample from the `k`-th on that is at or before `start`, given that `best` is
/// the last one so far. The table is ordered, so the search ends with the first one past
/// `start`; a sample without a time is passed over.
pub open spec fn last_sync(
    points: Seq<SyncPoint>,
    scale: nat,
    start: Duration,
    k: int,
    best: u32,
) -> u32
    decreases points.len() - k,
{
    if k >= points.len() {
        best
    } else {
        match points[k].time {
            None => last_sync(points, scale, start, k + 1, best),
            Some(time) => if at_or_before(time, scale, start) {
                last_sync(points, scale, start, k + 1, points[k].id)
            } else {
                best
            },
        }
    }
}

/// The sample to start from: the last sync sample at or before `start`, else the first sync
/// sample, else sample 1.
pub open spec fn sync_for(syncs: Option<Seq<SyncPoint>>, scale: nat, start: Duration) -> u32 {
    match syncs {
        None => 1,
        Some(points) => if points.len() == 0 {
            1
        } else {
            last_sync(points, scale, start, 0, points[0].id)
        },
    }
}

/// The table behind a reference, if there is one.
pub open spec fn table(syncs: Option<&Vec<SyncPoint>>) -> Option<Seq<SyncPoint>> {
    match syncs {
        Some(points) => Some(points@),
        None => None,
    }
}

/// The last sync-sample id whose decode time is at or before `start` (else the first sync
/// sample, else sample 1). A timescale of 0 counts as 1.
pub fn sync_at_or_before(syncs: Option<&Vec<SyncPoint>>, timescale: u32, start: Duration) -> (id:
    u32)
    ensures
        id == sync_for(table(syncs), scale_of(timescale), start),
{
    let points = match syncs {
        Some(points) => points,
        None => {
            return 1;
        },
    };
    if points.len() == 0 {
        return 1;
    }
    let scale: u128 = if timescale == 0 {
        1
    } else {
        timescale as u128
    };
    let nanos: u128 = start.as_nanos();
    let mut best: u32 = points[0].id;
    let mut k: usize = 0;
    proof {
        assert(nanos * scale <= MAX_NANOS * 0xffff_ffff) by (nonlinear_arith)
            requires
                nanos <= MAX_NANOS,
                scale <= 0xffff_ffff,
        ;
    }
    while k < points.len()
        invariant
            k <= points.len(),
            points.len() > 0,
            nanos == start@,
            scale == scale_of(timescale),
            table(syncs) == Some(points@),
            nanos * scale <= MAX_NANOS * 0xffff_ffff,
            sync_for(Some(points@), scale as nat, start) == last_sync(
                points@,
                scale as nat,
                start,
                k as int,
                best,
            ),
        decreases points.len() - k,
    {
        match points[k].time {
            None => {},
            Some(time) => {
                if time as u128 * 1_000_000_000 <= nanos * scale {
                    best = points[k].id;
                } else {
                    return best;
                }
            },
        }
        k = k + 1;
    }
    best
}

/// How far a decode time lies from `position` millionths of the clip, in parts of a
/// millionth of a second times the timescale.
pub open spec fn distance(time: u64, scale: nat, duration_micros: u64, position: nat) -> nat {
    let here = time * 1_000_000 * 1_000_000;
    let target = duration_micros * position * scale;
    if here >= target {
        (here - target) as nat
    } else {
        (target - here) as nat
    }
}

/// The distance of the `k`-th sync sample, if it has a time.
pub open spec fn point_distance(
    points: Seq<SyncPoint>,
    k: int,
    scale: nat,
    duration_micros: u64,
    position: nat,
) -> Option<nat> {
    match points[k].time {
        Some(time) => Some(distance(time, scale, duration_micros, position)),
        None => None,
    }
}

/// Whether the `b`-th sync sample is the first of the nearest ones among the first `n`.
pub open spec fn nearest(
    points: Seq<SyncPoint>,
    n: int,
    b: int,
    scale: nat,
    duration_micros: u64,
    position: nat,
) -> bool {
    &&& 0 <= b < n
    &&& point_distance(points, b, scale, duration_micros, position) is Some
    &&& forall|k: int|
        #![trigger points[k]]
        0 <= k < n ==> match point_distance(points, k, scale, duration_micros, position) {
            Some(d) => point_distance(points, b, scale, duration_micros, position)->0 <= d && (k < b
                ==> point_distance(points, b, scale, duration_micros, position)->0 < d),
            None => true,
        }
}

/// Whether no sync sample has a time.
pub open spec fn untimed(points: Seq<SyncPoint>) -> bool {
    forall|k: int| 0 <= k < points.len() ==> (#[trigger] points[k]).time is None
}

/// A position, no further than the whole.
pub open spec fn capped(position: u32) -> nat {
    if position <= WHOLE {
        position as nat
    } else {
        WHOLE as nat
    }
}

/// Whether `id` is the sync sample nearest `position` of the clip's duration, of two as near the
/// earlier; the first sync sample where none has a time, and sample 1 where there is none.
pub open spec fn is_near(
    syncs: Option<Seq<SyncPoint>>,
    timescale: u32,
    duration_micros: u64,
    position: u32,
    id: u32,
) -> bool {
    match syncs {
        None => id == 1,
        Some(points) => if points.len() == 0 {
            id == 1
        } else if untimed(points) {
            id == points[0].id
        } else {
            exists|b: int| #[trigger]
                nearest(
                    points,
                    points.len() as int,
                    b,
                    scale_of(timescale),
                    duration_micros,
                    capped(position),
                ) && id == points[b].id
        },
    }
}

/// The sync-sample id whose decode time sits nearest `position` (in millionths, capped at the
/// whole) of the clip's duration; of two as near the earlier. Falls back to the first sync
/// sample where none has a time, and to sample 1 where the track has no sync table (then every
/// sample is nominally a keyframe, but only the first is self-contained).
pub fn keyframe_sample_near(
    syncs: Option<&Vec<SyncPoint>>,
    timescale: u32,
    duration_micros: u64,
    position: u32,
) -> (id: u32)
    ensures
        is_near(table(syncs), timescale, duration_micros, position, id),
{
    let points = match syncs {
        Some(points) => points,
        None => {
            return 1;
        },
    };
    if points.len() == 0 {
        return 1;
    }
    let scale: u128 = if timescale == 0 {
        1
    } else {
        timescale as u128
    };
    let at: u128 = if position <= WHOLE {
        position as u128
    } else {
        WHOLE as u128
    };
    proof {
        assert(duration_micros as u128 * at <= 0xffff_ffff_ffff_ffff * 1_000_000)
            by (nonlinear_arith)
            requires
                at <= 1_000_000,
        ;
        assert(duration_micros as u128 * at * scale <= 0xffff_ffff_ffff_ffff * 1_000_000
            * 0xffff_ffff) by (nonlinear_arith)
            requires
                duration_micros as u128 * at <= 0xffff_ffff_ffff_ffff * 1_000_000,
                scale <= 0xffff_ffff,
        ;
    }
    let target: u128 = duration_micros as u128 * at * scale;
    let mut best: usize = 0;
    let mut best_distance: Option<u128> = None;
    let mut k: usize = 0;
    while k < points.len()
        invariant
            k <= points.len(),
            points.len() > 0,
            best < points.len(),
            target == duration_micros * at * scale,
            match best_distance {
                Some(d) => nearest(
                    points@,
                    k as int,
                    best as int,
                    scale as nat,
                    duration_micros,
                    at as nat,
                ) && point_distance(
                    points@,
                    best as int,
                    scale as nat,
                    duration_micros,
                    at as nat,
                ) == Some(d as nat),
                None => best == 0 && forall|j: int|
                    0 <= j < k ==> (#[trigger] points@[j]).time is None,
            },
        decreases points.len() - k,
    {
        match points[k].time {
            None => {},
            Some(time) => {
                let here: u128 = time as u128 * 1_000_000 * 1_000_000;
                let d: u128 = if here >= target {
                    here - target
                } else {
                    target - here
                };
                proof {
                    assert(point_distance(
                        points@,
                        k as int,
                        scale as nat,
                        duration_micros,
                        at as nat,
                    ) == Some(d as nat));
                }
                let closer = match best_distance {
                    Some(b) => d < b,
                    None => true,
                };
                if closer {
                    best = k;
                    best_distance = Some(d);
                }
            },
        }
        k = k + 1;
    }
    proof {
        if best_distance is None {
            assert(untimed(points@));
        } else {
            assert(points@[best as int].time is Some);
            assert(!untimed(points@));
            assert(nearest(
                points@,
                points@.len() as int,
                best as int,
                scale_of(timescale),
                duration_micros,
                capped(position),
            ));
        }
    }
    points[best].id
}

/// Whether `preview` is the summary and the keyframe of `sample`, the way it was read.
pub open spec fn shows(
    head: VideoHead,
    sample: Result<Option<ClipSample>, ReadError>,
    preview: Result<(ClipSummary, Vec<u8>), ReadError>,
) -> bool {
    match (sample, preview) {
        (Err(e), _) => preview == Err::<(ClipSummary, Vec<u8>), ReadError>(e),
        (Ok(s), Ok((summary, keyframe))) => head.summed_up(summary) && head.keyframe_of(s) == Ok::<
            Seq<u8>,
            ReadError,
        >(keyframe@),
        (Ok(s), Err(e)) => head.keyframe_of(s) == Err::<Seq<u8>, ReadError>(e),
    }
}

/// Whether `preview` is the summary and the keyframe nearest `position`, which `read` reads.
/// Nothing is read of a track that cannot be decoded.
pub open spec fn previews<F: FnOnce(u32) -> Result<Option<ClipSample>, ReadError>>(
    head: VideoHead,
    syncs: Option<Seq<SyncPoint>>,
    position: u32,
    read: F,
    preview: Result<(ClipSummary, Vec<u8>), ReadError>,
) -> bool {
    match head.head_error() {
        Some(e) => preview == Err::<(ClipSummary, Vec<u8>), ReadError>(e),
        None => exists|id: u32, sample: Result<Option<ClipSample>, ReadError>|
            #![trigger call_ensures(read, (id,), sample)]
            is_near(syncs, head.timescale, head.duration_micros, position, id) && call_ensures(
                read,
                (id,),
                sample,
            ) && shows(head, sample, preview),
    }
}

/// A clip's summary and a representative keyframe, in one go. The keyframe is taken from around
/// [`PREVIEW_POSITION`] of the clip, so previews skip the intro. `read` reads the sample of an
/// id.
pub fn clip_preview<F: FnOnce(u32) -> Result<Option<ClipSample>, ReadError>>(
    head: &VideoHead,
    syncs: Option<&Vec<SyncPoint>>,
    read: F,
) -> (r: Result<(ClipSummary, Vec<u8>), ReadError>)
    requires
        forall|id: u32| call_requires(read, (id,)),
    ensures
        previews(*head, table(syncs), PREVIEW_POSITION, read, r),
{
    clip_preview_at(head, syncs, PREVIEW_POSITION, read)
}

/// Like [`clip_preview`] but with an explicit position (in millionths) into the clip. The
/// keyframe is the sync sample nearest to it, or the first sample where the track declares no
/// sync-sample table.
pub fn clip_preview_at<F: FnOnce(u32) -> Result<Option<ClipSample>, ReadError>>(
    head: &VideoHead,
    syncs: Option<&Vec<SyncPoint>>,
    position: u32,
    read: F,
) -> (r: Result<(ClipSummary, Vec<u8>), ReadError>)
    requires
        forall|id: u32| call_requires(read, (id,)),
    ensures
        previews(*head, table(syncs), position, read, r),
{
    match head.decoder_setup() {
        Ok(_) => {},
        Err(e) => {
            return Err(e);
        },
    }
    let id: u32 = keyframe_sample_near(syncs, head.timescale, head.duration_micros, position);
    let sample = match read(id) {
        Ok(sample) => sample,
        Err(e) => {
            proof {
                assert(call_ensures(read, (id,), Err::<Option<ClipSample>, ReadError>(e)));
            }
            return Err(e);
        },
    };
    proof {
        assert(call_ensures(read, (id,), Ok::<Option<ClipSample>, ReadError>(sample)));
    }
    match head.keyframe_at(sample.as_ref()) {
        Ok(keyframe) => Ok((clip_summary(head), keyframe)),
        Err(e) => Err(e),
    }
}

/// Whether `read` reads the samples of a track.
pub open spec fn reads<F: FnOnce(u32) -> Result<Option<ClipSample>, ReadError>>(
    read: F,
    samples: Seq<ClipSample>,
) -> bool {
    forall|id: u32, got: Result<Option<ClipSample>, ReadError>| #[trigger]
        call_ensures(read, (id,), got) ==> match got {
            Ok(Some(sample)) => 1 <= id <= samples.len() && sample.is_sync == samples[id
                - 1].is_sync && sample.bytes@ == samples[id - 1].bytes@,
            Ok(None) => id == 0 || id > samples.len(),
            Err(_) => false,
        }
}

/// A preview gives what the two single-purpose reads give: the summary, and in a clip with a
/// single keyframe, wherever the preview is to be taken from, its first keyframe.
pub proof fn law_preview_is_summary_plus_keyframe<
    F: FnOnce(u32) -> Result<Option<ClipSample>, ReadError>,
>(
    head: VideoHead,
    samples: Seq<ClipSample>,
    keyframe: int,
    point: SyncPoint,
    position: u32,
    read: F,
    preview: Result<(ClipSummary, Vec<u8>), ReadError>,
)
    requires
        reads(read, samples),
        first_sync(samples, 0) == Some(keyframe),
        point.id == keyframe + 1,
        previews(head, Some(seq![point]), position, read, preview),
    ensures
        match preview {
            Ok((summary, bytes)) => head.summed_up(summary) && head.first_keyframe_of(samples, None)
                == Ok::<Seq<u8>, ReadError>(bytes@),
            Err(e) => head.first_keyframe_of(samples, None) == Err::<Seq<u8>, ReadError>(e),
        },
{
    lemma_first_sync(samples, 0);
    if head.head_error() is None {
        let (id, sample) = choose|id: u32, sample: Result<Option<ClipSample>, ReadError>|
            #![trigger call_ensures(read, (id,), sample)]
            is_near(
                Some(seq![point]),
                head.timescale,
                head.duration_micros,
                position,
                id,
            ) && call_ensures(read, (id,), sample) && shows(head, sample, preview);
        assert(id == point.id);
        assert(sample is Ok);
        assert(head.keyframe_of(sample->Ok_0) == head.keyframe_of(Some(samples[keyframe])));
    }
}

/// The first sync sample is one of the samples.
proof fn lemma_first_sync(samples: Seq<ClipSample>, k: int)
    requires
        k >= 0,
    ensures
        first_sync(samples, k) matches Some(i) ==> k <= i < samples.len() && samples[i].is_sync,
    decreases samples.len() - k,
{
    if k < samples.len() && !samples[k].is_sync {
        lemma_first_sync(samples, k + 1);
    }
}

/// Presentation time of a sample in the track's timescale, never before zero. Decode times
/// are kept as signed 64-bit numbers.
pub open spec fn units_of(start_time: u64, rendering_offset: i32) -> nat {
    let signed = if start_time <= i64::MAX {
        start_time as int
    } else {
        start_time - 0x1_0000_0000_0000_0000
    };
    if signed + rendering_offset >= 0 {
        (signed + rendering_offset) as nat
    } else {
        0
    }
}

/// `units` of a timescale in nanoseconds, to the nearest.
pub open spec fn nanos_of(units: nat, scale: nat) -> nat {
    (2 * units * 1_000_000_000 + scale) / (2 * scale)
}

/// A time in a track's timescale as a span, to the nearest nanosecond.
pub fn time_of(units: u64, scale: u32) -> (r: Duration)
    requires
        scale > 0,
    ensures
        r@ == nanos_of(units as nat, scale as nat),
        -(scale as int) <= 2 * (r@ * scale - units * 1_000_000_000) <= scale,
{
    let doubled: u128 = 2 * (units as u128) * 1_000_000_000 + scale as u128;
    let twice: u128 = 2 * scale as u128;
    let nanos: u128 = doubled / twice;
    proof {
        law_time_is_nearest(units as nat, scale as nat);
        vstd::arithmetic::div_mod::lemma_fundamental_div_mod(doubled as int, twice as int);
        let whole = units as int * 1_000_000_000;
        assert(nanos <= whole + 1) by (nonlinear_arith)
            requires
                twice * nanos <= doubled,
                doubled == 2 * whole + scale,
                twice == 2 * scale,
                scale > 0,
                whole >= 0,
        ;
    }
    Duration::saturating_from_nanos(nanos)
}

/// A time in nanoseconds is the nearest one to the time in the track's timescale, however long
/// the clip is: they are at most half a nanosecond apart.
pub proof fn law_time_is_nearest(units: nat, scale: nat)
    requires
        scale > 0,
    ensures
        -(scale as int) <= 2 * (nanos_of(units, scale) * scale - units * 1_000_000_000) <= scale,
{
    let doubled = (2 * units * 1_000_000_000 + scale) as int;
    let twice = (2 * scale) as int;
    let nanos = nanos_of(units, scale) as int;
    vstd::arithmetic::div_mod::lemma_fundamental_div_mod(doubled, twice);
    assert(-(scale as int) <= 2 * (nanos * scale - units * 1_000_000_000) <= scale)
        by (nonlinear_arith)
        requires
            doubled == twice * nanos + doubled % twice,
            0 <= doubled % twice < twice,
            twice == 2 * scale,
            doubled == 2 * units * 1_000_000_000 + scale,
    ;
}

/// Times never run back: a later time in the track's timescale is no earlier in nanoseconds, and
/// is later by as much, to the nearest nanosecond.
pub proof fn law_time_never_runs_back(earlier: nat, later: nat, scale: nat)
    requires
        scale > 0,
        earlier <= later,
    ensures
        nanos_of(earlier, scale) <= nanos_of(later, scale),
        -(scale as int) <= (nanos_of(later, scale) - nanos_of(earlier, scale)) * scale - (later
            - earlier) * 1_000_000_000 <= scale,
{
    law_time_is_nearest(earlier, scale);
    law_time_is_nearest(later, scale);
    let a = nanos_of(earlier, scale) as int;
    let b = nanos_of(later, scale) as int;
    vstd::arithmetic::div_mod::lemma_div_is_ordered(
        (2 * earlier * 1_000_000_000 + scale) as int,
        (2 * later * 1_000_000_000 + scale) as int,
        (2 * scale) as int,
    );
    assert((b - a) * scale == b * scale - a * scale) by (nonlinear_arith);
}

/// A frame's time reads back as it was written: a muxed frame is presented as long after the
/// clip's first frame as it was captured after it, to within the microsecond that the container
/// stores, and exactly where that is a whole number of microseconds.
pub proof fn law_muxed_time_reads_back(video: Seq<EncodedChunk>, i: int, framerate: u32)
    requires
        0 <= i < video.len(),
        video[0].pts@ <= video[i].pts@,
        video[i].pts@ - video[0].pts@ <= i64::MAX * 1_000,
    ensures
        ({
            let stored = video_sample(video, i, framerate).start_time;
            let shown = nanos_of(units_of(stored as u64, 0), TIMESCALE as nat);
            &&& shown <= video[i].pts@ - video[0].pts@ < shown + 1_000
            &&& (video[i].pts@ - video[0].pts@) % 1_000 == 0 ==> shown == video[i].pts@
                - video[0].pts@
        }),
{
    let stored = video_sample(video, i, framerate).start_time;
    law_time_is_nearest(stored, TIMESCALE as nat);
}

/// A sample is presented at its decode time, moved by its rendering offset, and never before
/// the clip begins.
pub proof fn law_rendering_offset_moves_presentation(start_time: u64, rendering_offset: i32)
    requires
        start_time <= i64::MAX,
    ensures
        units_of(start_time, 0) == start_time,
        start_time + rendering_offset >= 0 ==> units_of(start_time, rendering_offset) - units_of(
            start_time,
            0,
        ) == rendering_offset,
        start_time + rendering_offset < 0 ==> units_of(start_time, rendering_offset) == 0,
{
}

/// When a sample is presented.
pub fn presented_at(start_time: u64, rendering_offset: i32, scale: u32) -> (r: Duration)
    requires
        scale > 0,
    ensures
        r@ == nanos_of(units_of(start_time, rendering_offset), scale as nat),
{
    let signed: i128 = if start_time <= i64::MAX as u64 {
        start_time as i128
    } else {
        start_time as i128 - 0x1_0000_0000_0000_0000
    };
    let sum: i128 = signed + rendering_offset as i128;
    let units: u64 = if sum >= 0 {
        sum as u64
    } else {
        0
    };
    time_of(units, scale)
}

/// One video sample ready for a raw H.264 decoder: its presentation time and Annex-B bytes.
/// The first sample of a stream carries the track's SPS/PPS inline, so decoding can
/// start there without any other setup.
#[derive(Debug, Clone, PartialEq, Eq)]
pub struct VideoFrame {
    /// Presentation time.
    pub pts: Duration,
    /// The access unit.
    pub annexb: Vec<u8>,
}

/// The progress of a stream over a clip's video samples, from the sync sample at or before a
/// requested time to the end of the track. Corrupt data ends the stream.
#[derive(Debug)]
pub struct VideoFrames {
    /// The track's timescale.
    pub timescale: u32,
    /// The NAL length-prefix size.
    pub prefix: usize,
    /// SPS/PPS, put before the first sample and then gone.
    pub header: Option<Vec<u8>>,
    /// The id of the next sample.
    pub next: u32,
    /// The id of the last sample.
    pub count: u32,
}

/// What stands before the next frame.
pub open spec fn pending_header(header: Option<Vec<u8>>) -> Seq<u8> {
    match header {
        Some(bytes) => bytes@,
        None => Seq::empty(),
    }
}

impl VideoFrames {
    /// Whether the stream is set up to convert samples.
    pub open spec fn ready(self) -> bool {
        self.timescale > 0 && 1 <= self.prefix <= 4
    }

    /// Whether this is a stream over the track with this head, from the sync sample at or before
    /// `start` on.
    pub open spec fn streams(
        self,
        head: VideoHead,
        syncs: Option<Seq<SyncPoint>>,
        start: Duration,
    ) -> bool {
        &&& self.timescale == head.scale()
        &&& self.prefix == head.length_size_minus_one % 4 + 1
        &&& self.next == sync_for(syncs, head.scale(), start)
        &&& self.count == head.sample_count
        &&& self.header matches Some(header) && header@ == crate::nal::start_code()
            + head.sps->Ok_0@ + crate::nal::start_code() + head.pps->Ok_0@
    }

    /// Whether `after` is this stream once `sample` was taken and `frame` given for it.
    pub open spec fn took(
        self,
        after: Self,
        sample: Option<ClipSample>,
        frame: Option<VideoFrame>,
    ) -> bool {
        let good = sample matches Some(s) && avcc_units(s.bytes@, self.prefix as int, 0).1 is None;
        &&& after.timescale == self.timescale
        &&& after.prefix == self.prefix
        &&& after.count == self.count
        &&& if good {
            &&& after.next == self.next + 1
            &&& after.header is None
            &&& frame matches Some(f) && f.pts@ == nanos_of(
                units_of(sample->0.start_time, sample->0.rendering_offset),
                self.timescale as nat,
            ) && f.annexb@ == pending_header(self.header) + annexb(
                avcc_units(sample->0.bytes@, self.prefix as int, 0).0,
            )
        } else {
            frame is None && after.next == self.count + 1
        }
    }

    /// A stream over the track with this head, starting at the sync sample at or before
    /// `start`.
    pub fn from(head: &VideoHead, syncs: Option<&Vec<SyncPoint>>, start: Duration) -> (r: Result<
        Self,
        ReadError,
    >)
        ensures
            match r {
                Ok(frames) => head.head_error() is None && frames.ready() && frames.streams(
                    *head,
                    table(syncs),
                    start,
                ),
                Err(e) => head.head_error() == Some(e),
            },
    {
        match head.decoder_setup() {
            Ok((header, prefix)) => Ok(
                VideoFrames {
                    timescale: if head.timescale == 0 {
                        1
                    } else {
                        head.timescale
                    },
                    prefix,
                    header: Some(header),
                    next: sync_at_or_before(syncs, head.timescale, start),
                    count: head.sample_count,
                },
            ),
            Err(e) => Err(e),
        }
    }

    /// The id of the sample to read next, or `None` at the end of the stream.
    pub fn wanted(&self) -> (r: Option<u32>)
        ensures
            r == if self.next > self.count {
                None
            } else {
                Some(self.next)
            },
    {
        if self.next > self.count {
            None
        } else {
            Some(self.next)
        }
    }

    /// Take the sample that was [`wanted`](Self::wanted) — or none, where it could not be read
    /// — and give the frame. A sample that is missing or malformed ends the stream.
    pub fn take(&mut self, sample: Option<ClipSample>) -> (r: Option<VideoFrame>)
        requires
            old(self).ready(),
            old(self).next <= old(self).count,
            old(self).count < u32::MAX,
        ensures
            final(self).ready(),
            old(self).took(*final(self), sample, r),
    {
        let s = match sample {
            Some(s) => s,
            None => {
                self.next = self.count + 1;
                return None;
            },
        };
        let mut out = match self.header.take() {
            Some(header) => header,
            None => Vec::new(),
        };
        match avcc_to_annexb(s.bytes.as_slice(), self.prefix, &mut out) {
            Ok(()) => {
                self.next = self.next + 1;
                Some(
                    VideoFrame {
                        pts: presented_at(s.start_time, s.rendering_offset, self.timescale),
                        annexb: out,
                    },
                )
            },
            Err(_) => {
                self.next = self.count + 1;
                None
            },
        }
    }
}

proof fn lemma_last_sync(points: Seq<SyncPoint>, scale: nat, start: Duration, k: int) -> (m: int)
    requires
        1 <= k <= points.len(),
        forall|i: int| 0 <= i < points.len() ==> (#[trigger] points[i]).time is Some,
        forall|i: int, j: int|
            0 <= i <= j < points.len() ==> (#[trigger] points[i]).time->0 <= (
            #[trigger] points[j]).time->0,
        at_or_before(points[k - 1].time->0, scale, start),
    ensures
        0 <= m < points.len(),
        points[m].id == last_sync(points, scale, start, k, points[k - 1].id),
        at_or_before(points[m].time->0, scale, start),
        forall|j: int|
            m < j < points.len() ==> !at_or_before((#[trigger] points[j]).time->0, scale, start),
    decreases points.len() - k,
{
    if k < points.len() && at_or_before(points[k].time->0, scale, start) {
        lemma_last_sync(points, scale, start, k + 1)
    } else {
        k - 1
    }
}

/// In a table in time order that begins at or before `start`, the sample to start from is the
/// last sync sample at or before `start`: playback begins no later than asked for, and no later
/// sync sample would do.
pub proof fn law_seek_starts_at_or_before(points: Seq<SyncPoint>, scale: nat, start: Duration)
    requires
        points.len() > 0,
        forall|i: int| 0 <= i < points.len() ==> (#[trigger] points[i]).time is Some,
        forall|i: int, j: int|
            0 <= i <= j < points.len() ==> (#[trigger] points[i]).time->0 <= (
            #[trigger] points[j]).time->0,
        at_or_before(points[0].time->0, scale, start),
    ensures
        exists|m: int|
            0 <= m < points.len() && (#[trigger] points[m]).id == sync_for(
                Some(points),
                scale,
                start,
            ) && at_or_before(points[m].time->0, scale, start) && forall|j: int|
                m < j < points.len() ==> !at_or_before(
                    (#[trigger] points[j]).time->0,
                    scale,
                    start,
                ),
{
    let m = lemma_last_sync(points, scale, start, 1);
    assert(points[m].id == sync_for(Some(points), scale, start));
}

/// Where every sync sample is later than `start`, playback begins at the first one, and where
/// the track has no table of them, at its first sample.
pub proof fn law_seek_falls_back_to_the_first(points: Seq<SyncPoint>, scale: nat, start: Duration)
    requires
        forall|i: int|
            0 <= i < points.len() ==> ((#[trigger] points[i]).time matches Some(time) ==> time
                * 1_000_000_000 > start@ * scale),
    ensures
        points.len() > 0 ==> sync_for(Some(points), scale, start) == points[0].id,
        points.len() == 0 ==> sync_for(Some(points), scale, start) == 1,
        sync_for(None, scale, start) == 1,
{
    if points.len() > 0 {
        lemma_nothing_at_or_before(points, scale, start, 0, points[0].id);
    }
}

proof fn lemma_nothing_at_or_before(
    points: Seq<SyncPoint>,
    scale: nat,
    start: Duration,
    k: int,
    best: u32,
)
    requires
        0 <= k,
        forall|i: int|
            0 <= i < points.len() ==> ((#[trigger] points[i]).time matches Some(time) ==> time
                * 1_000_000_000 > start@ * scale),
    ensures
        last_sync(points, scale, start, k, best) == best,
    decreases points.len() - k,
{
    if k < points.len() && points[k].time is None {
        lemma_nothing_at_or_before(points, scale, start, k + 1, best);
    }
}

/// A preview comes from as near the asked for position as the sync samples allow: no sync sample
/// with a time is nearer, on either side, and of two as near the earlier one is taken. A position
/// beyond the end counts as the end.
pub proof fn law_preview_is_from_the_nearest(
    points: Seq<SyncPoint>,
    timescale: u32,
    duration_micros: u64,
    position: u32,
    id: u32,
) -> (b: int)
    requires
        timescale > 0,
        exists|k: int| 0 <= k < points.len() && (#[trigger] points[k]).time is Some,
        is_near(Some(points), timescale, duration_micros, position, id),
    ensures
        0 <= b < points.len(),
        points[b].id == id,
        points[b].time is Some,
        ({
            let part = if position <= 1_000_000 {
                position as int
            } else {
                1_000_000
            };
            let target = duration_micros * part * timescale;
            let off = |k: int| points[k].time->0 * 1_000_000_000_000 - target;
            forall|k: int|
                0 <= k < points.len() && (#[trigger] points[k]).time is Some ==> {
                    &&& off(b) <= off(k) || off(b) <= -off(k)
                    &&& -off(b) <= off(k) || -off(b) <= -off(k)
                    &&& k < b ==> off(b) < off(k) || off(b) < -off(k)
                    &&& k < b ==> -off(b) < off(k) || -off(b) < -off(k)
                }
        }),
{
    let b = choose|b: int| #[trigger]
        nearest(
            points,
            points.len() as int,
            b,
            scale_of(timescale),
            duration_micros,
            capped(position),
        ) && id == points[b].id;
    let k0 = choose|k: int| 0 <= k < points.len() && (#[trigger] points[k]).time is Some;
    assert(!untimed(points)) by {
        assert(points[k0].time is Some);
    }
    assert forall|k: int|
        0 <= k < points.len() && (
        #[trigger] points[k]).time is Some implies point_distance(
        points,
        b,
        scale_of(timescale),
        duration_micros,
        capped(position),
    )->0 <= point_distance(points, k, scale_of(timescale), duration_micros, capped(position))->0 by {
    }
    b
}

/// Playback shows what was stored: the frame for a sample carries the sample's NAL units behind
/// what was still to come before it, is presented at the sample's time to the nearest
/// nanosecond, and the stream moves on by one sample. Only the first frame carries the header.
pub proof fn law_playback_shows_what_was_stored(
    before: VideoFrames,
    after: VideoFrames,
    sample: ClipSample,
    frame: Option<VideoFrame>,
)
    requires
        before.ready(),
        before.took(after, Some(sample), frame),
        avcc_units(sample.bytes@, before.prefix as int, 0).1 is None,
        sample.start_time <= i64::MAX,
        sample.start_time + sample.rendering_offset >= 0,
    ensures
        frame is Some,
        after.next == before.next + 1,
        after.count == before.count,
        after.header is None,
        before.header matches Some(header) ==> frame->0.annexb@ == header@ + annexb(
            avcc_units(sample.bytes@, before.prefix as int, 0).0,
        ),
        before.header is None ==> frame->0.annexb@ == annexb(
            avcc_units(sample.bytes@, before.prefix as int, 0).0,
        ),
        -(before.timescale as int) <= 2 * (frame->0.pts@ * before.timescale - (sample.start_time
            + sample.rendering_offset) * 1_000_000_000) <= before.timescale,
{
    let units = units_of(sample.start_time, sample.rendering_offset);
    law_time_is_nearest(units, before.timescale as nat);
    assert(Seq::<u8>::empty() + annexb(avcc_units(sample.bytes@, before.prefix as int, 0).0)
        =~= annexb(avcc_units(sample.bytes@, before.prefix as int, 0).0));
}

/// A stream from the start of a track can be decoded and runs to its end: its first frame is the
/// SPS and the PPS of the head and then the first sample's NAL units, and after as many frames as
/// the track has samples there is none left.
pub proof fn law_stream_runs_to_the_end(
    head: VideoHead,
    start: Duration,
    first: VideoFrames,
    second: VideoFrames,
    sample: ClipSample,
    frame: Option<VideoFrame>,
)
    requires
        head.head_error() is None,
        head.timescale > 0,
        first.streams(head, None, start),
        first.took(second, Some(sample), frame),
        avcc_units(sample.bytes@, head.length_size_minus_one as int % 4 + 1, 0).1 is None,
    ensures
        first.next == 1,
        first.timescale == head.timescale,
        second.timescale == head.timescale,
        first.count == head.sample_count,
        second.count - second.next + 1 == head.sample_count - 1,
        frame is Some,
        frame->0.annexb@ == crate::nal::start_code() + head.sps->Ok_0@ + crate::nal::start_code()
            + head.pps->Ok_0@ + annexb(
            avcc_units(sample.bytes@, head.length_size_minus_one as int % 4 + 1, 0).0,
        ),
{
}

/// A clip plays back as it was recorded: the frame that is streamed for a muxed frame holds the
/// NAL units that were encoded, in order, and is presented as long after the clip's first frame
/// as it was captured after it, to within a microsecond.
pub proof fn law_recorded_frame_plays_back(
    video: Seq<EncodedChunk>,
    i: int,
    framerate: u32,
    before: VideoFrames,
    after: VideoFrames,
    sample: ClipSample,
    frame: Option<VideoFrame>,
)
    requires
        0 <= i < video.len(),
        video[i].bytes@.len() < 0x1_0000_0000,
        video[0].pts@ <= video[i].pts@,
        video[i].pts@ - video[0].pts@ <= i64::MAX * 1_000,
        before.timescale == TIMESCALE,
        before.prefix == 4,
        before.header is None,
        before.took(after, Some(sample), frame),
        sample.bytes@ == video_sample(video, i, framerate).bytes,
        sample.start_time == video_sample(video, i, framerate).start_time,
        sample.rendering_offset == 0,
    ensures
        frame is Some,
        frame->0.annexb@ == annexb(units(video[i].bytes@)),
        frame->0.pts@ <= video[i].pts@ - video[0].pts@ < frame->0.pts@ + 1_000,
{
    law_stored_units_read_back(video[i].bytes@);
    law_muxed_time_reads_back(video, i, framerate);
    assert(Seq::<u8>::empty() + annexb(units(video[i].bytes@)) =~= annexb(units(video[i].bytes@)));
}

} // verus!
