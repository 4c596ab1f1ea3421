//! Writing clips and reading them back.

use mp4::{Mp4Reader, TrackType};
use openh264::decoder::Decoder;
use openh264::formats::YUVSource;
use rewynd::clock::Duration;
use rewynd::encode::{EncodeParams, EncodedAudioChunk, EncodedChunk};
use rewynd::mux::{annexb_to_avcc, find_nal, nal_units, AudioTrack, Mp4Muxer, MuxError};
use rewynd::nal::{NAL_PPS, NAL_SPS};
use rewynd::read::{
    avcc_to_annexb, clip_summary, nal_length_size, video_track, ClipSample, ClipSummary, ReadError,
    TrackKind, VideoHead, PREVIEW_POSITION,
};
use rewynd::seek::{clip_preview, clip_preview_at, keyframe_sample_near, sync_at_or_before, SyncPoint};
use rewynd::seek::{VideoFrame, VideoFrames};
use rewynd::software::{I420Frame, SoftwareEncoder};
use rewynd::trim::{trim_clip, OpusSource, TrimError, TrimPlan, VideoSource};
use std::io::Cursor;

const SPS: [u8; 4] = [0x67, 0x42, 0x00, 0x1f];
const PPS: [u8; 4] = [0x68, 0xCE, 0x3c, 0x80];
const IDR: [u8; 3] = [0x65, 0x88, 0x84];
const INTER: [u8; 3] = [0x41, 0x9a, 0x00];

/// Build an Annex-B buffer from NAL payloads, prefixing each with a four-byte start code.
fn annexb(nals: &[&[u8]]) -> Vec<u8> {
    let mut out = Vec::new();
    for nal in nals {
        out.extend_from_slice(&[0, 0, 0, 1]);
        out.extend_from_slice(nal);
    }
    out
}

fn chunk(bytes: Vec<u8>, is_keyframe: bool, pts_us: u64) -> EncodedChunk {
    EncodedChunk {
        bytes,
        is_keyframe,
        pts: Duration::from_micros(pts_us),
    }
}

fn open(file: &[u8]) -> Mp4Reader<Cursor<Vec<u8>>> {
    Mp4Reader::read_header(Cursor::new(file.to_vec()), file.len() as u64).expect("readable")
}

/// What the headers of the video track declare.
fn head(file: &[u8]) -> VideoHead {
    let reader = open(file);
    let track = &reader.tracks()[&1];
    let avc1 = track.trak.mdia.minf.stbl.stsd.avc1.as_ref().expect("avc1");
    VideoHead {
        timescale: track.timescale(),
        width: track.width(),
        height: track.height(),
        duration_micros: track.duration().as_micros() as u64,
        sample_count: track.sample_count(),
        length_size_minus_one: avc1.avcc.length_size_minus_one,
        sps: track
            .sequence_parameter_set()
            .map(<[u8]>::to_vec)
            .map_err(|e| e.to_string()),
        pps: track
            .picture_parameter_set()
            .map(<[u8]>::to_vec)
            .map_err(|e| e.to_string()),
    }
}

fn sample(file: &[u8], id: u32) -> Option<ClipSample> {
    let sample = open(file).read_sample(1, id).expect("readable")?;
    Some(ClipSample {
        start_time: sample.start_time,
        duration: sample.duration,
        rendering_offset: sample.rendering_offset,
        is_sync: sample.is_sync,
        bytes: sample.bytes.to_vec(),
    })
}

fn samples(file: &[u8]) -> Vec<ClipSample> {
    (1..=head(file).sample_count)
        .map(|id| sample(file, id).expect("a sample"))
        .collect()
}

fn syncs(file: &[u8]) -> Option<Vec<SyncPoint>> {
    let reader = open(file);
    let stss = reader.tracks()[&1].trak.mdia.minf.stbl.stss.as_ref()?;
    Some(
        stss.entries
            .iter()
            .map(|&id| SyncPoint {
                id,
                time: sample(file, id).map(|s| s.start_time),
            })
            .collect(),
    )
}

fn near(file: &[u8], position: u32) -> u32 {
    let head = head(file);
    keyframe_sample_near(
        syncs(file).as_ref(),
        head.timescale,
        head.duration_micros,
        position,
    )
}

fn first_keyframe(file: &[u8]) -> Result<Vec<u8>, ReadError> {
    head(file).first_keyframe_annexb(&samples(file), &None)
}

fn preview_at(file: &[u8], position: u32) -> (ClipSummary, Vec<u8>) {
    clip_preview_at(&head(file), syncs(file).as_ref(), position, |id| Ok(sample(file, id)))
        .expect("a preview")
}

fn preview(file: &[u8]) -> (ClipSummary, Vec<u8>) {
    clip_preview(&head(file), syncs(file).as_ref(), |id| Ok(sample(file, id))).expect("a preview")
}

/// Whether `haystack` contains the byte sequence `needle`.
fn contains(haystack: &[u8], needle: &[u8]) -> bool {
    haystack.windows(needle.len()).any(|w| w == needle)
}

fn write(chunks: &[EncodedChunk]) -> Vec<u8> {
    Mp4Muxer::new(1920, 1080, 60)
        .write_mp4(chunks)
        .expect("write_mp4")
}

#[test]
fn splits_three_and_four_byte_start_codes() {
    // 4-byte start code, a NAL, then a 3-byte start code and another NAL.
    let mut data = vec![0, 0, 0, 1, 0xAA, 0xBB];
    data.extend_from_slice(&[0, 0, 1, 0xCC]);
    let nals = nal_units(&data);
    assert_eq!(nals, vec![&[0xAA, 0xBB][..], &[0xCC][..]]);
}

#[test]
fn trims_extra_leading_zeros_and_trailing_padding() {
    // NAL [67 88], then a start code with two extra leading zeros, then NAL [68].
    let mut data = vec![0, 0, 0, 1, 0x67, 0x88];
    data.extend_from_slice(&[0, 0, 0, 0, 1, 0x68]);
    assert_eq!(nal_units(&data), vec![&[0x67, 0x88][..], &[0x68][..]]);

    // Trailing zero padding at end of stream is not part of the NAL.
    let mut padded = annexb(&[&[0x67, 0x88]]);
    padded.extend_from_slice(&[0, 0]);
    assert_eq!(nal_units(&padded), vec![&[0x67, 0x88][..]]);
}

#[test]
fn annexb_to_avcc_length_prefixes_each_nal() {
    let data = annexb(&[&[0x65, 0x11], &[0x41]]);
    assert_eq!(
        annexb_to_avcc(&data),
        vec![0, 0, 0, 2, 0x65, 0x11, 0, 0, 0, 1, 0x41]
    );
}

#[test]
fn find_nal_locates_sps_and_pps() {
    // NALs end on a non-zero rbsp stop bit, so no trailing-zero trimming applies here.
    let sps = [0x67, 0x42, 0x1f];
    let pps = [0x68, 0xCE];
    let idr = [0x65, 0x88];
    let data = annexb(&[&sps, &pps, &idr]);
    assert_eq!(find_nal(&data, NAL_SPS), Some(&sps[..]));
    assert_eq!(find_nal(&data, NAL_PPS), Some(&pps[..]));
    assert_eq!(find_nal(&data, 1), None);
}

#[test]
fn rejects_non_keyframe_start_and_empty() {
    let muxer = Mp4Muxer::new(1920, 1080, 60);
    let chunks = [chunk(annexb(&[&[0x41]]), false, 0)];
    assert!(matches!(
        muxer.write_mp4(&chunks).unwrap_err(),
        MuxError::NotKeyframeStart
    ));
    assert!(matches!(
        muxer.write_mp4(&[]).unwrap_err(),
        MuxError::NotKeyframeStart
    ));
}

#[test]
fn keyframe_without_parameter_sets_errors() {
    let muxer = Mp4Muxer::new(1920, 1080, 60);
    let chunks = [chunk(annexb(&[&[0x65, 0x88]]), true, 0)];
    assert!(matches!(
        muxer.write_mp4(&chunks).unwrap_err(),
        MuxError::MissingParameterSets
    ));
}

#[test]
fn writes_a_readable_mp4_with_sps_pps_and_sync_sample() {
    let key = annexb(&[&SPS, &PPS, &[0x65, 0x88, 0x84]]);
    let inter = annexb(&[&[0x41, 0x9a, 0x00]]);
    let file = write(&[
        chunk(key, true, 1000),
        chunk(inter.clone(), false, 17_667),
        chunk(inter, false, 34_334),
    ]);
    let reader = open(&file);
    assert_eq!(reader.tracks().len(), 1);
    let track = reader.tracks().get(&1).expect("track 1");
    assert_eq!(track.track_type().unwrap(), TrackType::Video);
    assert_eq!(track.width(), 1920);
    assert_eq!(track.height(), 1080);
    assert_eq!(track.sequence_parameter_set().unwrap(), &SPS[..]);
    assert_eq!(track.picture_parameter_set().unwrap(), &PPS[..]);
    assert_eq!(track.sample_count(), 3);
    assert!(sample(&file, 1).unwrap().is_sync && !sample(&file, 2).unwrap().is_sync);
}

#[test]
fn single_frame_clip_uses_one_frame_duration() {
    let key = annexb(&[&SPS, &PPS, &[0x65, 0x88, 0x84]]);
    let file = write(&[chunk(key, true, 0)]);
    // One frame at 60fps on a microsecond timescale ≈ 16_666 ticks, not ~0.
    assert_eq!(sample(&file, 1).expect("one sample").duration, 1_000_000 / 60);
}

/// Each video sample's (start_time, duration).
fn timing(file: &[u8]) -> Vec<(u64, u32)> {
    samples(file)
        .iter()
        .map(|s| (s.start_time, s.duration))
        .collect()
}

#[test]
fn irregular_pts_write_next_gap_then_previous_gap_durations() {
    let key = annexb(&[&SPS, &PPS, &[0x65, 0x88, 0x84]]);
    let inter = annexb(&[&[0x41, 0x9a, 0x00]]);
    // Uneven gaps: 10 ms, 15 ms, 35 ms. Each sample's duration is the gap to the
    // next pts; the last (no successor) reuses the previous gap.
    let file = write(&[
        chunk(key, true, 0),
        chunk(inter.clone(), false, 10_000),
        chunk(inter.clone(), false, 25_000),
        chunk(inter, false, 60_000),
    ]);
    assert_eq!(
        timing(&file),
        vec![
            (0, 10_000),
            (10_000, 15_000),
            (25_000, 35_000),
            (60_000, 35_000)
        ]
    );
}

#[test]
fn backwards_pts_saturate_to_zero_duration() {
    let key = annexb(&[&SPS, &PPS, &[0x65, 0x88, 0x84]]);
    let inter = annexb(&[&[0x41, 0x9a, 0x00]]);
    // pts go 0 → 20 ms → 15 ms. A backwards gap saturates to a 0-tick duration, for both the
    // next-gap sample and the last sample's previous-gap fallback. Frames 2 and 3 collapse
    // rather than reordering or erroring.
    let file = write(&[
        chunk(key, true, 0),
        chunk(inter.clone(), false, 20_000),
        chunk(inter, false, 15_000),
    ]);
    assert_eq!(timing(&file), vec![(0, 20_000), (20_000, 0), (20_000, 0)]);
}

fn audio_chunk(pts_us: u64) -> EncodedAudioChunk {
    EncodedAudioChunk {
        // The container does not decode Opus, so arbitrary bytes round-trip fine.
        bytes: vec![0xFC, 0xFF, 0xFE],
        frames: 960,
        pts: Duration::from_micros(pts_us),
    }
}

#[test]
fn writes_a_two_track_av_mp4_with_opus() {
    let key = annexb(&[&SPS, &PPS, &[0x65, 0x88, 0x84]]);
    let inter = annexb(&[&[0x41, 0x9a, 0x00]]);
    let video = [
        chunk(key, true, 1_000),
        chunk(inter.clone(), false, 17_667),
        chunk(inter, false, 34_334),
    ];
    // Audio starts ~9 ms after the clip base (1000 µs) — a real, preserved offset.
    let audio_chunks = [
        audio_chunk(10_000),
        audio_chunk(30_000),
        audio_chunk(50_000),
    ];
    let audio = AudioTrack {
        chunks: &audio_chunks,
        channels: 2,
        sample_rate: 48_000,
        pre_skip: 312,
    };
    let movie = Mp4Muxer::new(1920, 1080, 60)
        .movie(&video, &[audio])
        .expect("laid out");
    assert_eq!(movie.video.samples.len(), 3);
    assert_eq!(movie.audio.len(), 1);
    let track = &movie.audio[0];
    assert_eq!(track.samples.len(), 3);
    assert_eq!((track.channels, track.sample_rate), (2, 48_000));
    assert_eq!(track.pre_skip, 312);
    // Empty edit: the audio starts 9 ms after the clip base (10_000 µs - 1_000 µs, in
    // movie-timescale ticks), media_time -1. Trim edit: 3 packets × 960 frames = 2880 samples,
    // minus pre_skip 312 → 2568 samples at 48 kHz = 53_500 movie ticks, media_time = pre_skip.
    assert_eq!(track.edits, [(9_000, -1), (53_500, 312)]);
    assert_eq!(track.samples[1].start_time, 960);
    assert_eq!(track.samples[1].duration, 960);
}

#[test]
fn av_writer_with_empty_audio_is_video_only() {
    let key = annexb(&[&SPS, &PPS, &[0x65, 0x88, 0x84]]);
    let video = [chunk(key, true, 0)];
    let audio = AudioTrack {
        chunks: &[],
        channels: 2,
        sample_rate: 48_000,
        pre_skip: 312,
    };
    let movie = Mp4Muxer::new(1920, 1080, 60)
        .movie(&video, &[audio])
        .expect("laid out");
    assert!(
        movie.audio.is_empty(),
        "no audio track when chunks are empty"
    );
    assert!(movie.is_writable());
    let file = movie.write().expect("write");
    assert_eq!(open(&file).tracks().len(), 1);
}

#[test]
fn lib_error_variants_display() {
    assert_eq!(
        MuxError::NotKeyframeStart.message(),
        "clip does not start on a keyframe"
    );
    assert_eq!(
        MuxError::MissingParameterSets.message(),
        "clip has no SPS/PPS parameter sets"
    );
    assert_eq!(MuxError::Io("x".to_owned()).message(), "x");
    assert_eq!(
        MuxError::Mp4("x".to_owned()).message(),
        "mp4 muxing failed: x"
    );
}

/// A clip with keyframes at samples 1, 5, 9 (0%, 40%, 80% of a ten-frame span), each IDR
/// tagged with its frame index so the selected keyframe is identifiable.
fn multi_keyframe_clip() -> Vec<u8> {
    let chunks: Vec<_> = (0..10u64)
        .map(|i| {
            let tag = i as u8;
            if i % 4 == 0 {
                chunk(annexb(&[&SPS, &PPS, &[0x65, 0x88, tag]]), true, i * 16_667)
            } else {
                chunk(annexb(&[&[0x41, 0x9a, tag]]), false, i * 16_667)
            }
        })
        .collect();
    write(&chunks)
}

#[test]
fn keyframe_sample_near_picks_the_nearest_sync_sample() {
    let clip = multi_keyframe_clip();
    assert_eq!(near(&clip, 0), 1);
    assert_eq!(near(&clip, 400_000), 5);
    assert_eq!(near(&clip, 1_000_000), 9);
    // Out-of-range positions clamp rather than misbehave.
    assert_eq!(near(&clip, 5_000_000), 9);
}

#[test]
fn preview_at_returns_a_mid_clip_keyframe() {
    let clip = multi_keyframe_clip();
    let (summary, frame) = preview_at(&clip, 400_000);
    assert_eq!(summary, clip_summary(&head(&clip)));
    assert!(contains(&frame, &[0x65, 0x88, 4]), "the 40% keyframe");
    assert!(
        !contains(&frame, &[0x65, 0x88, 0]),
        "not the first keyframe"
    );
    // The default preview position lands on the mid keyframe, not the very first frame.
    assert!(contains(&preview(&clip).1, &[0x65, 0x88, 4]));
    assert_eq!(preview(&clip), preview_at(&clip, PREVIEW_POSITION));
}

#[test]
fn keyframe_at_rejects_a_non_sync_sample() {
    let clip = multi_keyframe_clip();
    // Sample 2 is a delta frame; it cannot stand alone as a keyframe.
    let delta = sample(&clip, 2);
    assert_eq!(
        head(&clip).keyframe_at(delta.as_ref()),
        Err(ReadError::NoKeyframe)
    );
}

#[test]
fn preview_falls_back_to_first_frame_without_a_sync_table() {
    assert_eq!(keyframe_sample_near(None, 1_000_000, 0, 400_000), 1);
}

/// A tiny keyframe + delta clip.
fn tiny_clip() -> Vec<u8> {
    let key = annexb(&[&SPS, &PPS, &IDR]);
    let inter = annexb(&[&INTER]);
    write(&[
        chunk(key, true, 0),
        chunk(inter.clone(), false, 16_667),
        chunk(inter, false, 33_334),
    ])
}

#[test]
fn summary_round_trips_dimensions_and_duration() {
    let summary = clip_summary(&head(&tiny_clip()));
    assert_eq!(summary.width, 1920);
    assert_eq!(summary.height, 1080);
    // Three frames of 16_667 µs each (the last reuses the previous gap).
    assert_eq!(summary.duration, Duration::from_micros(50_001));
}

#[test]
fn first_keyframe_round_trips_to_annexb() {
    let frame = first_keyframe(&tiny_clip()).expect("keyframe");
    // avcC SPS/PPS first, then the sample's own NALs (which carry them inline too:
    // the write side stores in-band parameter sets verbatim).
    let mut expected = annexb(&[&SPS, &PPS]);
    expected.extend_from_slice(&annexb(&[&SPS, &PPS, &IDR]));
    assert_eq!(frame, expected);
}

/// A video track's headers over the given samples as `(is_sync, avcc bytes)`.
fn raw_video(samples: &[(bool, Vec<u8>)]) -> (VideoHead, Vec<ClipSample>) {
    let head = VideoHead {
        timescale: 1_000_000,
        width: 640,
        height: 360,
        duration_micros: 16_667 * samples.len() as u64,
        sample_count: samples.len() as u32,
        length_size_minus_one: 3,
        sps: Ok(SPS.to_vec()),
        pps: Ok(PPS.to_vec()),
    };
    let samples = samples
        .iter()
        .enumerate()
        .map(|(i, (is_sync, bytes))| ClipSample {
            start_time: i as u64 * 16_667,
            duration: 16_667,
            rendering_offset: 0,
            is_sync: *is_sync,
            bytes: bytes.clone(),
        })
        .collect();
    (head, samples)
}

/// A file with only an Opus track has no video to preview.
#[test]
fn audio_only_file_has_no_video_track() {
    let audio = TrackKind {
        id: 1,
        is_video: false,
        is_h264: false,
    };
    assert_eq!(video_track(&[audio]), Err(ReadError::NoVideoTrack));
    let video = TrackKind {
        id: 7,
        is_video: true,
        is_h264: true,
    };
    let later = TrackKind { id: 9, ..video };
    assert_eq!(video_track(&[audio, later, video]), Ok(7));
}

/// A clip that starts on a delta: the scan must skip to the first sync sample.
#[test]
fn keyframe_scan_skips_leading_delta_samples() {
    let delta = vec![0, 0, 0, 1, 0x41];
    let key = vec![0, 0, 0, 3, 0x65, 0x88, 0x84];
    let (head, samples) = raw_video(&[(false, delta), (true, key)]);
    let frame = head.first_keyframe_annexb(&samples, &None).expect("keyframe");
    let mut expected = annexb(&[&SPS, &PPS]);
    expected.extend_from_slice(&annexb(&[&[0x65, 0x88, 0x84]]));
    assert_eq!(frame, expected);
}

/// A video track with no samples at all has no keyframe to hand out; the summary side
/// still works (headers don't need one).
#[test]
fn empty_video_track_has_no_keyframe() {
    let (head, samples) = raw_video(&[]);
    assert_eq!(
        head.first_keyframe_annexb(&samples, &None),
        Err(ReadError::NoKeyframe)
    );
    let summary = clip_summary(&head);
    assert_eq!((summary.width, summary.height), (640, 360));
}

#[test]
fn malformed_avcc_lengths_are_rejected() {
    let mut out = Vec::new();
    // Length prefix runs past the sample.
    assert!(matches!(
        avcc_to_annexb(&[0, 0, 0, 9, 0x65], 4, &mut out),
        Err(ReadError::MalformedSample)
    ));
    // Truncated length prefix.
    assert!(matches!(
        avcc_to_annexb(&[0, 0, 1], 4, &mut out),
        Err(ReadError::MalformedSample)
    ));
    // A zero-length NAL unit.
    assert!(matches!(
        avcc_to_annexb(&[0, 0, 0, 0], 4, &mut out),
        Err(ReadError::MalformedSample)
    ));
    // Well-formed input converts and appends.
    let mut ok = Vec::new();
    avcc_to_annexb(&[0, 0, 0, 2, 0x65, 0x11, 0, 0, 0, 1, 0x41], 4, &mut ok).expect("converts");
    assert_eq!(ok, vec![0, 0, 0, 1, 0x65, 0x11, 0, 0, 0, 1, 0x41]);
}

/// The avcC's declared prefix size drives the parse: the same NALs under 1- and 2-byte
/// prefixes convert identically (our muxer only ever writes 4, so this is unit-level).
#[test]
fn short_length_prefixes_convert_too() {
    let expected = vec![0, 0, 0, 1, 0x65, 0x11, 0, 0, 0, 1, 0x41];
    let mut one = Vec::new();
    avcc_to_annexb(&[2, 0x65, 0x11, 1, 0x41], 1, &mut one).expect("1-byte prefixes");
    assert_eq!(one, expected);
    let mut two = Vec::new();
    avcc_to_annexb(&[0, 2, 0x65, 0x11, 0, 1, 0x41], 2, &mut two).expect("2-byte prefixes");
    assert_eq!(two, expected);
    // A 4-byte parse of 2-byte-prefixed data must fail, not misread.
    let mut wrong = Vec::new();
    assert!(matches!(
        avcc_to_annexb(&[0, 2, 0x65, 0x11], 4, &mut wrong),
        Err(ReadError::MalformedSample)
    ));
}

/// The files our own muxer writes declare 4-byte prefixes; an invalid size of 3 is refused.
#[test]
fn nal_length_size_reads_the_avcc() {
    let declared = head(&tiny_clip()).length_size_minus_one;
    assert_eq!(nal_length_size(declared).expect("size"), 4);
    // length size 3: invalid per 14496-15
    assert!(matches!(
        nal_length_size(2),
        Err(ReadError::MalformedSample)
    ));
}

/// One read returns both halves, matching the two single-purpose reads.
#[test]
fn preview_matches_summary_plus_keyframe() {
    let clip = tiny_clip();
    let (summary, keyframe) = preview(&clip);
    assert_eq!(summary, clip_summary(&head(&clip)));
    assert_eq!(keyframe, first_keyframe(&clip).expect("keyframe"));
    let gone = ReadError::Io { path: "/nonexistent/clip.mp4".to_owned(), source: "gone".to_owned() };
    assert!(matches!(
        clip_preview(&head(&clip), syncs(&clip).as_ref(), |_| Err(gone)).unwrap_err(),
        ReadError::Io { .. }
    ));
}

/// With a single keyframe the position makes no difference.
#[test]
fn a_lone_keyframe_is_the_preview_wherever_it_is_taken_from() {
    let clip = tiny_clip();
    for position in [0, 400_000, 1_000_000, u32::MAX] {
        assert_eq!(preview_at(&clip, position).1, first_keyframe(&clip).expect("keyframe"));
    }
}

/// Nothing is read of a track that cannot be decoded, and a sample that is missing or no
/// keyframe makes no preview.
#[test]
fn a_preview_reports_why_there_is_none() {
    let clip = tiny_clip();
    let mut broken = head(&clip);
    broken.length_size_minus_one = 2;
    let read = |_: u32| -> Result<Option<ClipSample>, ReadError> { panic!("nothing is read") };
    assert_eq!(clip_preview(&broken, None, read), Err(ReadError::MalformedSample));
    assert_eq!(clip_preview(&head(&clip), None, |_| Ok(None)), Err(ReadError::NoKeyframe));
    let delta = sample(&clip, 2);
    assert_eq!(clip_preview(&head(&clip), None, |_| Ok(delta)), Err(ReadError::NoKeyframe));
    let mut cut = sample(&clip, 1);
    cut.as_mut().expect("a sample").bytes.pop();
    assert_eq!(clip_preview(&head(&clip), None, |_| Ok(cut)), Err(ReadError::MalformedSample));
}

#[test]
fn read_error_variants_display() {
    assert_eq!(
        ReadError::NoVideoTrack.message(),
        "the file has no H.264 video track"
    );
    assert_eq!(
        ReadError::NoKeyframe.message(),
        "the video track has no keyframe"
    );
    assert_eq!(
        ReadError::MalformedSample.message(),
        "the keyframe sample is malformed"
    );
    assert_eq!(ReadError::Corrupt.message(), "the MP4 metadata is corrupt");
    let io = ReadError::Io {
        path: "/x".to_owned(),
        source: "boom".to_owned(),
    };
    assert!(io.message().contains("/x"));
    assert_eq!(
        TrimError::Mux(MuxError::NotKeyframeStart).message(),
        "writing the trimmed clip failed: clip does not start on a keyframe"
    );
    assert_eq!(TrimError::EmptyRange.message(), "the trim range is empty");
    assert_eq!(
        TrimError::Read(ReadError::Mp4("cut".to_owned())).message(),
        "not a readable MP4: cut"
    );
}

fn frames_from(head: &VideoHead, all: &[ClipSample], table: Option<&Vec<SyncPoint>>, start: Duration) -> Vec<VideoFrame> {
    let mut stream = VideoFrames::from(head, table, start).expect("open");
    let mut frames = Vec::new();
    while let Some(id) = stream.wanted() {
        match stream.take(all.get(id as usize - 1).cloned()) {
            Some(frame) => frames.push(frame),
            None => break,
        }
    }
    frames
}

#[test]
fn video_frames_start_on_the_enclosing_keyframe() {
    let clip = multi_keyframe_clip();
    // 70 ms is past the 66.7 ms keyframe at frame 4: the stream starts there.
    let frames = frames_from(
        &head(&clip),
        &samples(&clip),
        syncs(&clip).as_ref(),
        Duration::from_millis(70),
    );
    assert_eq!(frames.len(), 6, "samples 5..=10");
    assert!(
        contains(&frames[0].annexb, &SPS),
        "SPS/PPS on the first frame"
    );
    assert!(
        contains(&frames[0].annexb, &[0x65, 0x88, 4]),
        "frame 4's IDR"
    );
    assert!(!contains(&frames[1].annexb, &SPS), "header only once");
    assert!(
        frames.windows(2).all(|w| w[0].pts < w[1].pts),
        "presentation times increase"
    );
}

#[test]
fn video_frames_from_zero_cover_the_whole_clip() {
    let clip = multi_keyframe_clip();
    let frames = frames_from(
        &head(&clip),
        &samples(&clip),
        syncs(&clip).as_ref(),
        Duration::zero(),
    );
    assert_eq!(frames.len(), 10);
    assert!(contains(&frames[0].annexb, &SPS));
}

#[test]
fn video_frames_errors_and_empties_are_contained() {
    let (head, samples) = raw_video(&[]);
    let frames = frames_from(&head, &samples, None, Duration::zero());
    assert!(frames.is_empty(), "no samples yields nothing, no panic");
}

fn source(file: &[u8]) -> VideoSource {
    VideoSource {
        head: head(file),
        samples: samples(file),
        failure: None,
    }
}

fn trim(file: &[u8], start: u64, end: u64) -> Result<TrimPlan, TrimError> {
    trim_clip(
        &source(file),
        &[],
        Duration::from_millis(start),
        Duration::from_millis(end),
    )
}

fn millis(d: Duration) -> u128 {
    d.as_millis()
}

#[test]
fn trim_snaps_start_back_to_the_enclosing_keyframe() {
    let clip = multi_keyframe_clip();
    // Start at 70 ms (past the 66.7 ms keyframe at frame 4) through 120 ms: the start snaps back
    // to that keyframe, and the last kept frame is the one at or before 120 ms.
    let plan = trim(&clip, 70, 120).expect("trim");
    let out = plan.movie().expect("laid out").write().expect("written");
    let frame = first_keyframe(&out).expect("keyframe");
    assert!(
        contains(&frame, &[0x65, 0x88, 4]),
        "snapped to frame 4's keyframe"
    );
    assert!(
        !contains(&frame, &[0x65, 0x88, 0]),
        "not the original first keyframe"
    );
    // Frames 4..=7 kept ⇒ about four 16.67 ms frames.
    let duration = millis(plan.summary.duration);
    assert!((60..=72).contains(&duration), "duration {duration}");
    assert_eq!(plan.video.len(), 4);
}

#[test]
fn trim_from_the_start_keeps_the_first_keyframe() {
    let clip = multi_keyframe_clip();
    let plan = trim(&clip, 0, 40).expect("trim");
    let out = plan.movie().expect("laid out").write().expect("written");
    let frame = first_keyframe(&out).expect("keyframe");
    // Starts on an IDR from the first GOP (tag byte omitted: frame 0's is 0x00, which the write
    // side strips as NAL trailing padding), and not the 66.7 ms keyframe at frame 4.
    assert!(contains(&frame, &[0x65, 0x88]), "starts on a keyframe");
    assert!(
        !contains(&frame, &[0x65, 0x88, 4]),
        "not frame 4's keyframe"
    );
    // Frames 0..=2 kept ⇒ about three 16.67 ms frames.
    let duration = millis(plan.summary.duration);
    assert!(duration <= 56, "duration {duration}");
}

#[test]
fn trim_rejects_an_empty_or_reversed_range() {
    let clip = multi_keyframe_clip();
    assert!(matches!(trim(&clip, 80, 20), Err(TrimError::EmptyRange)));
    assert!(matches!(trim(&clip, 50, 50), Err(TrimError::EmptyRange)));
}

#[test]
fn trim_window_past_the_clip_end_is_empty() {
    // The ten-frame clip is ~0.17 s; a window well past that selects no frame.
    let clip = multi_keyframe_clip();
    assert!(matches!(trim(&clip, 500, 600), Err(TrimError::EmptyRange)));
}

#[test]
fn trim_of_an_unreadable_sample_is_a_read_error() {
    let mut broken = source(&multi_keyframe_clip());
    broken.failure = Some(ReadError::Corrupt);
    assert!(matches!(
        trim_clip(
            &broken,
            &[],
            Duration::zero(),
            Duration::from_millis(50)
        ),
        Err(TrimError::Read(ReadError::Corrupt))
    ));
}

#[test]
fn trim_carries_the_audio_track_along() {
    let clip = multi_keyframe_clip();
    let packets: Vec<ClipSample> = (0..8u64)
        .map(|i| ClipSample {
            start_time: i * 960,
            duration: 960,
            rendering_offset: 0,
            is_sync: true,
            bytes: vec![0xFC, 0xFF, 0xFE],
        })
        .collect();
    let opus = OpusSource {
        id: 2,
        channels: Some(2),
        timescale: 48_000,
        samples: packets,
        failure: None,
    };
    let plan = trim_clip(
        &source(&clip),
        &[opus],
        Duration::from_millis(70),
        Duration::from_millis(140),
    )
    .expect("trim");
    assert_eq!(plan.audio.len(), 1, "the trimmed clip keeps its Opus track");
    // 66.7 ms to the end of the frame at 133.3 ms: the packets at 80, 100, 120 and 140 ms.
    assert_eq!(plan.audio[0].chunks.len(), 4);
    assert_eq!(plan.audio[0].chunks[0].pts, Duration::from_millis(80));
    // And the video still starts on the enclosing keyframe.
    assert!(contains(&plan.video[0].bytes, &[0x65, 0x88, 4]));
    assert_eq!(plan.movie().expect("laid out").audio.len(), 1);
}

/// The software encoder's output satisfies the muxer's invariants (keyframe-first, inline
/// SPS/PPS) and makes a real, decodable MP4 — all without a GPU.
#[test]
fn software_output_muxes_and_decodes() {
    let params = EncodeParams {
        width: 64,
        height: 64,
        framerate: 30,
        bitrate_bps: 2_000_000,
        idr_period: 4,
    };
    let mut enc = SoftwareEncoder::new(params).expect("constructs");
    let mut chunks = Vec::new();
    for i in 0..12u32 {
        let y = vec![16u8.wrapping_add(i as u8); 64 * 64];
        let chroma = vec![128u8; 32 * 32];
        let chunk = enc
            .encode_i420(
                I420Frame {
                    y: &y,
                    u: &chroma,
                    v: &chroma,
                    width: 64,
                    height: 64,
                },
                i == 0,
                Duration::from_millis(u64::from(i) * 33),
            )
            .expect("encodes");
        chunks.push(chunk);
    }
    assert!(chunks.first().expect("non-empty").is_keyframe);
    let file = Mp4Muxer::new(64, 64, 30).write_mp4(&chunks).expect("mux");
    // The first keyframe decodes back to the source dimensions.
    let frame = first_keyframe(&file).expect("keyframe");
    let mut dec = Decoder::new().expect("decoder");
    let yuv = dec
        .decode(&frame)
        .expect("decode")
        .expect("keyframe yields a frame");
    assert_eq!(yuv.dimensions(), (64, 64));
}

#[test]
fn a_clip_from_mid_recording_starts_at_zero_and_keeps_its_timing() {
    let key = annexb(&[&SPS, &PPS, &IDR]);
    let video = vec![
        chunk(key, true, 7_000_000),
        chunk(annexb(&[&INTER]), false, 7_016_667),
        chunk(annexb(&[&INTER]), false, 7_040_001),
    ];
    let movie = Mp4Muxer::new(64, 64, 60).movie(&video, &[]).expect("laid out");
    let samples = &movie.video.samples;
    assert_eq!(samples[0].start_time, 0);
    assert_eq!(samples[0].duration, 16_667);
    assert_eq!(samples[1].start_time, 16_667);
    assert_eq!(samples[1].duration, 23_334);
    assert_eq!(samples[2].start_time, 40_001);
}

#[test]
fn a_muxed_frame_reads_back_as_it_was_encoded() {
    let key = annexb(&[&SPS, &PPS, &IDR]);
    let movie = Mp4Muxer::new(64, 64, 60)
        .movie(&[chunk(key.clone(), true, 0)], &[])
        .expect("laid out");
    let mut out = Vec::new();
    avcc_to_annexb(&movie.video.samples[0].bytes, 4, &mut out).expect("well-formed");
    assert_eq!(out, key);
}

#[test]
fn seeking_starts_at_the_last_sync_sample_at_or_before() {
    let point = |id, time| SyncPoint { id, time: Some(time) };
    let syncs = vec![point(1, 0), point(31, 500_000), point(61, 1_000_000)];
    let at = |micros| sync_at_or_before(Some(&syncs), 1_000_000, Duration::from_micros(micros));
    assert_eq!(at(0), 1);
    assert_eq!(at(499_999), 1);
    assert_eq!(at(500_000), 31);
    assert_eq!(at(5_000_000), 61);
    assert_eq!(sync_at_or_before(None, 1_000_000, Duration::zero()), 1);
}
