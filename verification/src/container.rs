//! Writing a laid-out clip with the `mp4` crate.
//!
//! The crate's writer runs over a buffer in memory. What it holds is described by the calls
//! that were made on it, and the file is a function of those calls.

use crate::encode::EncodedChunk;
use crate::mux::{models, parameter_sets, video_samples, AudioTrack, Movie, MovieSample};
use crate::mux::{brand_list, Mp4Muxer, MuxError, SampleModel, MINOR_VERSION, TIMESCALE};
use crate::nal::{avcc_units, law_stored_units_read_back, units, AvccFault};
use vstd::prelude::*;

verus! {

/// The language of a track: undetermined.
pub const LANGUAGE: &'static str = "und";

/// How much later than it is decoded a sample is shown: the streams hold no reordered frames.
pub const RENDERING_OFFSET: i32 = 0;

/// A writer of the `mp4` crate.
#[verifier::external_type_specification]
#[verifier::external_body]
#[verifier::reject_recursive_types(W)]
pub struct ExMp4Writer<W>(mp4::Mp4Writer<W>);

/// An error of the `mp4` crate.
#[verifier::external_type_specification]
#[verifier::external_body]
pub struct ExMp4Error(mp4::Error);

/// A cursor over a buffer.
#[verifier::external_type_specification]
#[verifier::external_body]
#[verifier::reject_recursive_types(T)]
pub struct ExCursor<T>(std::io::Cursor<T>);

/// One call on a writer.
pub enum Step {
    /// The file was begun with these brands and this timescale.
    Start { brands: Seq<u32>, minor_version: nat, timescale: nat },
    /// An H.264 track was added, in this language.
    Track {
        timescale: nat,
        language: Seq<char>,
        width: nat,
        height: nat,
        sps: Seq<u8>,
        pps: Seq<u8>,
    },
    /// A sample was written to the first track, to be shown this much after its decoding time.
    Sample { sample: SampleModel, rendering_offset: int },
    /// The file was ended.
    End,
}

/// The calls that were made on a writer.
pub uninterp spec fn steps(writer: mp4::Mp4Writer<std::io::Cursor<Vec<u8>>>) -> Seq<Step>;

/// The file that a sequence of calls writes.
pub uninterp spec fn file_of(calls: Seq<Step>) -> Seq<u8>;

/// How much of the first track is not yet flushed to the file: its duration and its bytes. A
/// writer flushes once a second of media is there, unless no bytes are.
pub open spec fn unflushed(samples: Seq<SampleModel>, timescale: nat) -> (nat, nat)
    decreases samples.len(),
{
    if samples.len() == 0 {
        (0, 0)
    } else {
        let before = unflushed(samples.drop_last(), timescale);
        let duration = before.0 + samples.last().duration;
        let bytes = before.1 + samples.last().bytes.len();
        if duration >= timescale && bytes > 0 {
            (0, 0)
        } else {
            (duration, bytes)
        }
    }
}

/// The calls that write `samples` to the one H.264 track of a file.
pub open spec fn calls_for(start: Step, track: Step, samples: Seq<SampleModel>) -> Seq<Step> {
    seq![start, track] + samples.map_values(
        |s: SampleModel| Step::Sample { sample: s, rendering_offset: RENDERING_OFFSET as int },
    )
}

/// Whether these calls begin a file and add its H.264 track, in time units no longer than the
/// movie's.
pub open spec fn begins(start: Step, track: Step) -> bool {
    match (start, track) {
        (
            Step::Start { timescale: movie, .. },
            Step::Track { timescale, .. },
        ) => movie <= timescale,
        _ => false,
    }
}

/// Whether the writer's 32-bit counters of unflushed duration and of samples can take one more
/// sample of `duration`.
pub open spec fn takes(samples: Seq<SampleModel>, timescale: nat, duration: nat) -> bool {
    &&& samples.len() < u32::MAX - 1
    &&& unflushed(samples, timescale).0 + duration <= u32::MAX
}

/// `mp4::Mp4Writer::write_start` over an empty buffer: begins a file whose major brand is the
/// first of `brands`. It fails only where writing to the buffer fails, and a buffer in memory
/// takes every write. Claims that it succeeds and that the writer holds this call and no other.
#[verifier::external_body]
fn start(brands: &Vec<u32>, minor_version: u32, timescale: u32) -> (r: Result<
    mp4::Mp4Writer<std::io::Cursor<Vec<u8>>>,
    mp4::Error,
>)
    requires
        brands.len() > 0,
    ensures
        r is Ok,
        r matches Ok(writer) ==> steps(writer) == seq![
            Step::Start {
                brands: brands@,
                minor_version: minor_version as nat,
                timescale: timescale as nat,
            },
        ],
{
    let config = mp4::Mp4Config {
        major_brand: mp4::FourCC::from(brands[0]),
        minor_version,
        compatible_brands: brands.iter().map(|brand| mp4::FourCC::from(*brand)).collect(),
        timescale,
    };
    mp4::Mp4Writer::write_start(std::io::Cursor::new(Vec::new()), &config)
}

/// `mp4::Mp4Writer::add_track` for an H.264 track. It reads bytes 1 to 3 of the SPS and panics
/// where they are missing, and a timescale of zero makes it divide by zero later. Claims that it
/// always succeeds and that the writer then holds this call too.
#[verifier::external_body]
fn add_track(
    writer: &mut mp4::Mp4Writer<std::io::Cursor<Vec<u8>>>,
    timescale: u32,
    language: &str,
    size: (u16, u16),
    sps: &Vec<u8>,
    pps: &Vec<u8>,
) -> (r: Result<(), mp4::Error>)
    requires
        sps.len() >= 4,
        timescale > 0,
    ensures
        r is Ok,
        steps(*final(writer)) == steps(*old(writer)).push(
            Step::Track {
                timescale: timescale as nat,
                language: language@,
                width: size.0 as nat,
                height: size.1 as nat,
                sps: sps@,
                pps: pps@,
            },
        ),
{
    let (seq_param_set, pic_param_set) = (sps.clone(), pps.clone());
    let avc = mp4::AvcConfig { width: size.0, height: size.1, seq_param_set, pic_param_set };
    writer.add_track(&mp4::TrackConfig {
        track_type: mp4::TrackType::Video,
        timescale,
        language: String::from(language),
        media_conf: mp4::MediaConfig::AvcConfig(avc),
    })
}

/// `mp4::Mp4Writer::write_sample` on track 1. The writer counts samples and unflushed duration
/// in 32 bits, and sums the durations, scaled from the track's time units to the movie's, in 64
/// bits; an overflow of any is an arithmetic error. It fails only where the track is missing or
/// where writing to the buffer fails, and a buffer in memory takes every write. Claims that it
/// succeeds and that the writer then holds this call too.
#[verifier::external_body]
fn write_sample(
    writer: &mut mp4::Mp4Writer<std::io::Cursor<Vec<u8>>>,
    sample: &MovieSample,
    rendering_offset: i32,
) -> (r: Result<(), mp4::Error>)
    requires
        exists|first: Step, track: Step, samples: Seq<SampleModel>|
            #![trigger calls_for(first, track, samples)]
            steps(*old(writer)) == calls_for(first, track, samples) && begins(first, track)
                && takes(samples, track->Track_timescale, sample@.duration),
    ensures
        r is Ok,
        steps(*final(writer)) == steps(*old(writer)).push(
            Step::Sample { sample: sample@, rendering_offset: rendering_offset as int },
        ),
{
    writer.write_sample(1, &mp4::Mp4Sample {
        start_time: sample.start_time,
        duration: sample.duration,
        rendering_offset,
        is_sync: sample.is_sync,
        bytes: sample.bytes.clone().into(),
    })
}

/// `mp4::Mp4Writer::write_end`: writes the tables and ends the file. A file can be ended once:
/// a second end panics. It fails only where writing to the buffer fails, and a buffer in memory
/// takes every write. Claims that it succeeds and that the writer then holds this call too.
#[verifier::external_body]
fn write_end(writer: &mut mp4::Mp4Writer<std::io::Cursor<Vec<u8>>>) -> (r: Result<(), mp4::Error>)
    requires
        exists|first: Step, track: Step, samples: Seq<SampleModel>|
            #![trigger calls_for(first, track, samples)]
            steps(*old(writer)) == calls_for(first, track, samples) && begins(first, track),
    ensures
        r is Ok,
        steps(*final(writer)) == steps(*old(writer)).push(Step::End),
{
    writer.write_end()
}

/// `mp4::Mp4Writer::into_writer`: the buffer. Its contents follow from the calls alone: the
/// writer reads no clock and nothing else outside its arguments.
#[verifier::external_body]
fn into_bytes(writer: mp4::Mp4Writer<std::io::Cursor<Vec<u8>>>) -> (r: Vec<u8>)
    ensures
        r@ == file_of(steps(writer)),
{
    writer.into_writer().into_inner()
}

/// The text of an `mp4::Error`, as its `Display` writes it; of its wording nothing is claimed.
#[verifier::external_body]
fn error_text(error: &mp4::Error) -> (r: String) {
    error.to_string()
}

/// The calls that write a movie's video track.
pub open spec fn movie_calls(movie: Movie) -> Seq<Step> {
    calls_for(
        Step::Start {
            brands: movie.brands@,
            minor_version: MINOR_VERSION as nat,
            timescale: TIMESCALE as nat,
        },
        Step::Track {
            timescale: TIMESCALE as nat,
            language: LANGUAGE@,
            width: movie.video.width as nat,
            height: movie.video.height as nat,
            sps: movie.video.sps@,
            pps: movie.video.pps@,
        },
        models(movie.video.samples@),
    ).push(Step::End)
}

/// Whether the writer's counters can take the samples one after another.
pub open spec fn takes_all(samples: Seq<SampleModel>) -> bool {
    forall|n: int|
        0 <= n < samples.len() ==> takes(
            #[trigger] samples.take(n),
            TIMESCALE as nat,
            samples[n].duration,
        )
}

impl Movie {
    /// Whether the `mp4` crate can write this movie: it has no audio track, an SPS of the
    /// length that the `avcC` configuration reads, and durations that the writer can count.
    pub open spec fn writable(self) -> bool {
        &&& self.brands@.len() > 0
        &&& self.audio@.len() == 0
        &&& self.video.sps@.len() >= 4
        &&& takes_all(models(self.video.samples@))
    }

    /// Whether the `mp4` crate can write this movie.
    pub fn is_writable(&self) -> (r: bool)
        ensures
            r == self.writable(),
    {
        if self.brands.len() == 0 || self.audio.len() > 0 || self.video.sps.len() < 4 {
            return false;
        }
        let samples = &self.video.samples;
        let ghost all = models(samples@);
        let mut duration: u64 = 0;
        let mut any_bytes: bool = false;
        let mut n: usize = 0;
        proof {
            assert(all.take(0) =~= Seq::<SampleModel>::empty());
        }
        while n < samples.len()
            invariant
                n <= samples.len(),
                all == models(samples@),
                *samples == self.video.samples,
                duration == unflushed(all.take(n as int), TIMESCALE as nat).0,
                any_bytes == (unflushed(all.take(n as int), TIMESCALE as nat).1 > 0),
                duration <= u32::MAX,
                forall|m: int|
                    0 <= m < n ==> takes(#[trigger] all.take(m), TIMESCALE as nat, all[m].duration),
            decreases samples.len() - n,
        {
            let sample = &samples[n];
            proof {
                assert(all[n as int] == sample@);
                assert(all.take(n + 1).drop_last() =~= all.take(n as int));
                assert(all.take(n as int).len() == n);
            }
            duration = duration + sample.duration as u64;
            if n as u64 >= (u32::MAX - 1) as u64 || duration > u32::MAX as u64 {
                proof {
                    assert(!takes(all.take(n as int), TIMESCALE as nat, all[n as int].duration));
                }
                return false;
            }
            any_bytes = any_bytes || sample.bytes.len() > 0;
            if duration >= TIMESCALE as u64 && any_bytes {
                duration = 0;
                any_bytes = false;
            }
            n = n + 1;
        }
        true
    }

    /// Write the movie into a buffer.
    pub fn write(&self) -> (r: Result<Vec<u8>, MuxError>)
        requires
            self.writable(),
        ensures
            r matches Ok(bytes) && bytes@ == file_of(movie_calls(*self)),
    {
        let mut writer = match start(&self.brands, MINOR_VERSION, TIMESCALE) {
            Ok(writer) => writer,
            Err(e) => {
                return Err(MuxError::Mp4(error_text(&e)));
            },
        };
        let size = (self.video.width, self.video.height);
        let sets = (&self.video.sps, &self.video.pps);
        match add_track(&mut writer, TIMESCALE, LANGUAGE, size, sets.0, sets.1) {
            Ok(()) => {},
            Err(e) => {
                return Err(MuxError::Mp4(error_text(&e)));
            },
        }
        let ghost first = movie_calls(*self)[0];
        let ghost track = movie_calls(*self)[1];
        let samples = &self.video.samples;
        let ghost all = models(samples@);
        let mut n: usize = 0;
        proof {
            assert(steps(writer) =~= calls_for(first, track, all.take(0)));
        }
        while n < samples.len()
            invariant
                n <= samples.len(),
                *samples == self.video.samples,
                all == models(samples@),
                takes_all(all),
                track == movie_calls(*self)[1],
                begins(first, track),
                track == (Step::Track {
                    timescale: TIMESCALE as nat,
                    language: LANGUAGE@,
                    width: self.video.width as nat,
                    height: self.video.height as nat,
                    sps: self.video.sps@,
                    pps: self.video.pps@,
                }),
                steps(writer) == calls_for(first, track, all.take(n as int)),
            decreases samples.len() - n,
        {
            let sample = &samples[n];
            proof {
                assert(all[n as int] == sample@);
                assert(takes(all.take(n as int), TIMESCALE as nat, all[n as int].duration));
            }
            match write_sample(&mut writer, sample, RENDERING_OFFSET) {
                Ok(()) => {},
                Err(e) => {
                    return Err(MuxError::Mp4(error_text(&e)));
                },
            }
            proof {
                assert(calls_for(first, track, all.take(n as int)).push(
                    Step::Sample {
                        sample: sample@,
                        rendering_offset: RENDERING_OFFSET as int,
                    },
                ) =~= calls_for(first, track, all.take(n + 1)));
            }
            n = n + 1;
        }
        match write_end(&mut writer) {
            Ok(()) => {},
            Err(e) => {
                return Err(MuxError::Mp4(error_text(&e)));
            },
        }
        proof {
            assert(all.take(all.len() as int) =~= all);
            assert(steps(writer) =~= movie_calls(*self));
        }
        Ok(into_bytes(writer))
    }
}

/// The calls that write a video-only clip.
pub open spec fn clip_calls(muxer: Mp4Muxer, chunks: Seq<EncodedChunk>) -> Seq<Step> {
    let sets = parameter_sets(chunks)->0;
    calls_for(
        Step::Start {
            brands: brand_list(false),
            minor_version: MINOR_VERSION as nat,
            timescale: TIMESCALE as nat,
        },
        Step::Track {
            timescale: TIMESCALE as nat,
            language: LANGUAGE@,
            width: muxer.size().0 as nat,
            height: muxer.size().1 as nat,
            sps: sets.0,
            pps: sets.1,
        },
        video_samples(chunks, muxer.rate()),
    ).push(Step::End)
}

impl Mp4Muxer {
    /// Mux `chunks` — which must begin on an IDR — into an MP4 file.
    ///
    /// [`EncodedChunk::pts`] is capture-relative and a flushed clip is a mid-stream
    /// slice, so timestamps are rebased against the first chunk's: the written clip starts at
    /// zero.
    pub fn write_mp4(&self, chunks: &[EncodedChunk]) -> (r: Result<Vec<u8>, MuxError>)
        requires
            chunks@.len() > 0 ==> (parameter_sets(chunks@) matches Some((sps, _)) ==> sps.len()
                >= 4),
            takes_all(video_samples(chunks@, self.rate())),
        ensures
            (r matches Err(MuxError::NotKeyframeStart)) == (chunks@.len() == 0
                || !chunks@[0].is_keyframe),
            (r matches Err(MuxError::MissingParameterSets)) == (chunks@.len() > 0
                && chunks@[0].is_keyframe && parameter_sets(chunks@) is None),
            chunks@.len() > 0 && chunks@[0].is_keyframe && parameter_sets(chunks@) is Some ==> (
            r matches Ok(bytes) && bytes@ == file_of(clip_calls(*self, chunks@))),
    {
        let no_audio: Vec<AudioTrack> = Vec::new();
        match self.movie(chunks, no_audio.as_slice()) {
            Ok(movie) => {
                proof {
                    assert(crate::mux::audible(no_audio@).len() == 0);
                    assert(movie.brands@.len() > 0);
                    assert(movie_calls(movie) =~= clip_calls(*self, chunks@));
                }
                movie.write()
            },
            Err(e) => Err(e),
        }
    }
}

/// A file holds the whole clip: it is begun once, with the movie's brands and time units, has one
/// H.264 track of the movie's size and parameter sets, gets every sample of the movie, in order
/// and as it is, to be shown when it is decoded, and is ended once.
pub proof fn law_file_holds_the_movie(movie: Movie)
    ensures
        ({
            let calls = movie_calls(movie);
            let n = movie.video.samples@.len();
            &&& calls.len() == n + 3
            &&& calls[0] matches Step::Start { brands, timescale, .. } && brands == movie.brands@
                && timescale == 1_000_000
            &&& calls[1] matches Step::Track { timescale, width, height, sps, pps, .. }
                && timescale == 1_000_000 && width == movie.video.width && height
                == movie.video.height && sps == movie.video.sps@ && pps == movie.video.pps@
            &&& forall|k: int|
                0 <= k < n ==> (#[trigger] calls[k + 2] matches Step::Sample {
                    sample,
                    rendering_offset,
                } && rendering_offset == 0 && sample.bytes == movie.video.samples@[k].bytes@
                    && sample.start_time == movie.video.samples@[k].start_time && sample.duration
                    == movie.video.samples@[k].duration && sample.is_sync
                    == movie.video.samples@[k].is_sync)
            &&& calls[n as int + 2] is End
        }),
{
    let samples = movie.video.samples@;
    assert(models(samples).len() == samples.len());
    assert forall|k: int| 0 <= k < samples.len() implies (#[trigger] movie_calls(movie)[k
        + 2] matches Step::Sample { sample, rendering_offset } && rendering_offset == 0
        && sample.bytes == samples[k].bytes@ && sample.start_time == samples[k].start_time
        && sample.duration == samples[k].duration && sample.is_sync == samples[k].is_sync) by {
        assert(models(samples)[k] == samples[k]@);
    }
}

/// A clip that is written holds every frame: its file gets one sample for each, in order, which
/// stores the frame's NAL units, and its parameter sets are those of the first frame.
pub proof fn law_file_holds_the_clip(muxer: Mp4Muxer, chunks: Seq<EncodedChunk>)
    requires
        chunks.len() > 0,
        parameter_sets(chunks) is Some,
        forall|i: int| 0 <= i < chunks.len() ==> (#[trigger] chunks[i]).bytes@.len() < 0x1_0000_0000,
    ensures
        ({
            let calls = clip_calls(muxer, chunks);
            &&& calls.len() == chunks.len() + 3
            &&& calls[0] matches Step::Start { timescale, .. } && timescale == 1_000_000
            &&& calls[1] matches Step::Track { timescale, sps, pps, .. } && timescale == 1_000_000
                && parameter_sets(chunks) == Some((sps, pps))
            &&& forall|k: int|
                0 <= k < chunks.len() ==> (#[trigger] calls[k + 2] matches Step::Sample {
                    sample,
                    rendering_offset,
                } && rendering_offset == 0 && sample.is_sync == chunks[k].is_keyframe
                    && avcc_units(sample.bytes, 4, 0) == (
                    units(chunks[k].bytes@),
                    None::<AvccFault>,
                ))
            &&& calls[chunks.len() as int + 2] is End
        }),
{
    assert forall|k: int| 0 <= k < chunks.len() implies (#[trigger] clip_calls(muxer, chunks)[k
        + 2] matches Step::Sample { sample, rendering_offset } && rendering_offset == 0
        && sample.is_sync == chunks[k].is_keyframe && avcc_units(sample.bytes, 4, 0) == (
        units(chunks[k].bytes@),
        None::<AvccFault>,
    )) by {
        assert(chunks[k].bytes@.len() < 0x1_0000_0000);
        law_stored_units_read_back(chunks[k].bytes@);
    }
}

proof fn lemma_flushed_each_second(samples: Seq<SampleModel>, timescale: nat)
    requires
        timescale > 0,
        forall|i: int| 0 <= i < samples.len() ==> (#[trigger] samples[i]).bytes.len() > 0,
    ensures
        unflushed(samples, timescale).0 < timescale,
    decreases samples.len(),
{
    if samples.len() > 0 {
        let before = samples.drop_last();
        assert forall|i: int| 0 <= i < before.len() implies (#[trigger] before[i]).bytes.len()
            > 0 by {
            assert(samples[i].bytes.len() > 0);
        }
        lemma_flushed_each_second(before, timescale);
        assert(samples[samples.len() - 1].bytes.len() > 0);
    }
}

/// Every clip of frames that hold something and last no longer than an hour can be written, up
/// to the number of samples that a file can count.
pub proof fn law_ordinary_clip_is_writable(movie: Movie, r: bool)
    requires
        call_ensures(Movie::is_writable, (&movie,), r),
        movie.brands@.len() > 0,
        movie.audio@.len() == 0,
        movie.video.sps@.len() >= 4,
        movie.video.samples@.len() < u32::MAX - 1,
        forall|i: int|
            0 <= i < movie.video.samples@.len() ==> (#[trigger] movie.video.samples@[i]).bytes@.len()
                > 0 && movie.video.samples@[i].duration <= 3_600_000_000,
    ensures
        r,
{
    let all = models(movie.video.samples@);
    assert(all.len() == movie.video.samples@.len());
    assert forall|n: int| 0 <= n < all.len() implies takes(
        #[trigger] all.take(n),
        TIMESCALE as nat,
        all[n].duration,
    ) by {
        let before = all.take(n);
        assert forall|i: int| 0 <= i < before.len() implies (#[trigger] before[i]).bytes.len()
            > 0 by {
            assert(all[i] == movie.video.samples@[i]@);
        }
        lemma_flushed_each_second(before, TIMESCALE as nat);
        assert(all[n] == movie.video.samples@[n]@);
    }
}

} // verus!
