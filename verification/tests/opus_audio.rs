//! Framing for the Opus encoder.

use rewynd::clock::Duration;
use rewynd::encode::EncodedAudioChunk;
use rewynd::opus_audio::{
    encoder_bitrate, pre_skip_of, samples_per_frame, AudioEncodeError, AudioEncodeParams,
    OpusFramer,
};

/// Stands in for libopus: a packet that names its frame's length and first sample.
fn encode(frame: &Vec<f32>) -> Result<Vec<u8>, String> {
    Ok(vec![(frame.len() / 256) as u8, (frame[0] * 100.0) as u8])
}

fn framer() -> OpusFramer<f32> {
    OpusFramer::new(AudioEncodeParams::default()).expect("default params frame")
}

#[test]
fn default_params_are_48k_stereo_128k_20ms() {
    let p = AudioEncodeParams::default();
    assert_eq!(p.sample_rate, 48_000);
    assert_eq!(p.channels, 2);
    assert_eq!(p.bitrate_bps, 128_000);
    assert_eq!(p.frame_ms, 20);
}

#[test]
fn rejects_bad_channel_count() {
    let result = OpusFramer::<f32>::new(AudioEncodeParams {
        channels: 3,
        ..Default::default()
    });
    assert!(matches!(result, Err(AudioEncodeError::Params(_))));
    assert_eq!(
        result.err().unwrap().message(),
        "unsupported audio parameters: channels must be 1 or 2, got 3"
    );
}

#[test]
fn rejects_a_frame_of_no_whole_samples() {
    let result = samples_per_frame(AudioEncodeParams {
        sample_rate: 11_025,
        ..Default::default()
    });
    assert_eq!(
        result.err().unwrap().message(),
        "unsupported audio parameters: frame_ms 20 does not yield a whole frame at 11025 Hz"
    );
    assert!(matches!(
        encoder_bitrate(u32::MAX),
        Err(AudioEncodeError::Params(_))
    ));
    assert_eq!(encoder_bitrate(128_000).unwrap(), 128_000);
    assert_eq!(pre_skip_of(312).unwrap(), 312);
    assert_eq!(pre_skip_of(-1).unwrap(), 0);
    assert!(matches!(
        pre_skip_of(70_000),
        Err(AudioEncodeError::Init(_))
    ));
}

#[test]
fn rejects_what_opus_does_not_take() {
    let of = |sample_rate: u32, frame_ms: u32| {
        OpusFramer::<f32>::new(AudioEncodeParams { sample_rate, frame_ms, ..Default::default() })
    };
    let refused = |sample_rate: u32, frame_ms: u32| match of(sample_rate, frame_ms) {
        Err(AudioEncodeError::Params(why)) => why,
        _ => panic!("{sample_rate} Hz with frames of {frame_ms} ms was taken"),
    };
    assert_eq!(refused(44_100, 20), "Opus takes no sample rate of 44100 Hz");
    assert_eq!(refused(0, 20), "Opus takes no sample rate of 0 Hz");
    assert_eq!(refused(96_000, 20), "Opus takes no sample rate of 96000 Hz");
    assert_eq!(refused(48_000, 30), "Opus has no frame of 30 ms");
    assert_eq!(refused(48_000, 0), "frame_ms 0 does not yield a whole frame at 48000 Hz");
    assert_eq!(refused(u32::MAX, u32::MAX), "frame_ms 4294967295 does not yield a whole frame at 4294967295 Hz");
    for rate in [8_000, 12_000, 16_000, 24_000, 48_000] {
        for ms in [5, 10, 20, 40, 60] {
            assert_eq!(of(rate, ms).unwrap().samples_per_channel, rate * ms / 1000);
        }
    }
}

#[test]
fn sanitized_settings_are_framed() {
    for rate in [0, 11_025, 44_100, 96_000, u32::MAX] {
        let mut stored = rewynd::schema::Config::default();
        stored.audio.sample_rate = rate;
        stored.audio.channels = 9;
        stored.audio.bitrate_bps = u32::MAX;
        let audio = stored.audio();
        let params = AudioEncodeParams {
            sample_rate: audio.sample_rate,
            channels: audio.channels,
            bitrate_bps: audio.bitrate_bps,
            ..Default::default()
        };
        assert!(samples_per_frame(params).is_ok());
        assert!(encoder_bitrate(params.bitrate_bps).is_ok());
    }
}

#[test]
fn encodes_whole_frames_with_advancing_pts() {
    let mut enc = framer();
    // 20 ms frames at 48 kHz = 960 samples/channel. One second → 50 frames.
    assert_eq!(enc.samples_per_channel, 960);

    let pcm = vec![0.5_f32; 48_000 * 2];
    let mut packets = Vec::new();
    enc.push(&pcm, Duration::zero(), encode, &mut packets).unwrap();

    assert_eq!(packets.len(), 50, "1 s / 20 ms = 50 packets");
    for p in &packets {
        assert_eq!(p.frames, 960);
        assert_eq!(p.bytes, [7, 50], "1920 interleaved samples");
    }
    // PTS advances by exactly 20 ms per packet, anchored at the first sample.
    assert_eq!(packets[0].pts, Duration::zero());
    assert_eq!(packets[1].pts, Duration::from_millis(20));
    assert_eq!(packets[49].pts, Duration::from_millis(980));
}

#[test]
fn buffers_partial_frames_across_pushes() {
    let mut enc = framer();
    // Half a frame (480 stereo samples → 960 interleaved) → no packet yet.
    let half: Vec<f32> = vec![0.0; 960];
    let mut packets = Vec::new();
    enc.push(&half, Duration::zero(), encode, &mut packets).unwrap();
    assert_eq!(packets.len(), 0);
    // The second half completes one frame → exactly one packet, PTS at the first sample.
    enc.push(&half, Duration::from_millis(10), encode, &mut packets)
        .unwrap();
    assert_eq!(packets.len(), 1, "one packet after the frame completes");
    assert_eq!(packets[0].pts, Duration::zero());
    assert_eq!(packets[0].frames, 960);
}

#[test]
fn flush_emits_padded_final_frame() {
    let mut enc = framer();
    let partial: Vec<f32> = vec![0.1; 200]; // less than one frame
    let mut packets = Vec::new();
    enc.push(&partial, Duration::zero(), encode, &mut packets).unwrap();
    enc.flush(0.0, encode, &mut packets).unwrap();
    assert_eq!(packets.len(), 1);
    assert_eq!(packets[0].frames, 960);
    assert_eq!(packets[0].bytes, [7, 10], "padded to a whole frame");
    // A second flush with nothing pending is a no-op.
    enc.flush(0.0, encode, &mut packets).unwrap();
    assert_eq!(packets.len(), 1);
}

#[test]
fn a_failed_frame_is_reported() {
    let mut enc = framer();
    let mut packets: Vec<EncodedAudioChunk> = Vec::new();
    let refuse = |_: &Vec<f32>| -> Result<Vec<u8>, String> { Err("no".to_owned()) };
    let result = enc.push(&vec![0.0; 1920], Duration::zero(), refuse, &mut packets);
    assert_eq!(result.unwrap_err().message(), "failed to encode audio: no");
    assert!(packets.is_empty());
    assert_eq!(
        AudioEncodeError::Init("x".to_owned()).message(),
        "failed to initialise the Opus encoder: x"
    );
}

#[test]
fn less_than_a_frame_is_held_at_any_time() {
    let mut enc = framer();
    let mut packets = Vec::new();
    // The very last nanosecond there is: no packet is due, so no later time is needed.
    let last = Duration::saturating_from_nanos(u128::MAX);
    enc.push(&[], last, encode, &mut packets).unwrap();
    enc.flush(0.0, encode, &mut packets).unwrap();
    enc.push(&[0.1; 200], last, encode, &mut packets).unwrap();
    assert!(packets.is_empty());
    assert_eq!(enc.pending.len(), 200);
    assert_eq!(enc.pending_pts, last);
}
