//! The CPU encoder.

use openh264::decoder::Decoder;
use openh264::formats::YUVSource;
use rewynd::clock::Duration;
use rewynd::encode::EncodeParams;
use rewynd::nal::{NAL_PPS, NAL_SPS};
use rewynd::software::{
    contains_nal, deinterleave_uv, ensure_parameter_sets, extract_nal, validate, I420Frame,
    ParameterSets, SoftwareEncoder,
};

fn params(width: u32, height: u32, idr_period: u32) -> EncodeParams {
    EncodeParams {
        width,
        height,
        framerate: 30,
        bitrate_bps: 2_000_000,
        idr_period,
    }
}

/// A solid-colour I420 frame whose luma tracks `tick`, so successive frames differ and
/// the encoder does real work rather than collapsing everything to skips.
fn solid_frame(width: u32, height: u32, tick: u8) -> (Vec<u8>, Vec<u8>, Vec<u8>) {
    let (w, h) = (width as usize, height as usize);
    let y = vec![16u8.wrapping_add(tick); w * h];
    let u = vec![128u8; (w / 2) * (h / 2)];
    let v = vec![128u8; (w / 2) * (h / 2)];
    (y, u, v)
}

fn frame<'a>(
    planes: &'a (Vec<u8>, Vec<u8>, Vec<u8>),
    width: u32,
    height: u32,
) -> I420Frame<'a> {
    I420Frame {
        y: &planes.0,
        u: &planes.1,
        v: &planes.2,
        width,
        height,
    }
}

#[test]
fn software_new_rejects_bad_params() {
    assert!(SoftwareEncoder::new(params(0, 64, 4)).is_err());
    assert!(SoftwareEncoder::new(params(65, 64, 4)).is_err());
    assert!(SoftwareEncoder::new(params(64, 64, 0)).is_err());
}

#[test]
fn new_succeeds_and_reports_params() {
    let enc = SoftwareEncoder::new(params(64, 64, 4)).expect("constructs");
    assert_eq!(enc.params().width, 64);
    assert_eq!(enc.params().idr_period, 4);
}

#[test]
fn first_chunk_is_keyframe_with_parameter_sets() {
    let mut enc = SoftwareEncoder::new(params(64, 64, 4)).expect("constructs");
    let planes = solid_frame(64, 64, 0);
    let chunk = enc
        .encode_i420(frame(&planes, 64, 64), false, Duration::zero())
        .expect("encodes");
    assert!(chunk.is_keyframe);
    assert!(contains_nal(&chunk.bytes, NAL_SPS), "IDR must carry SPS");
    assert!(contains_nal(&chunk.bytes, NAL_PPS), "IDR must carry PPS");
}

#[test]
fn every_idr_carries_parameter_sets_across_gops() {
    let idr_period = 4;
    let mut enc = SoftwareEncoder::new(params(64, 64, idr_period)).expect("constructs");
    for i in 0..(idr_period * 3) {
        let planes = solid_frame(64, 64, i as u8);
        let pts = Duration::from_millis(u64::from(i) * 33);
        let chunk = enc
            .encode_i420(frame(&planes, 64, 64), false, pts)
            .expect("encodes");
        if i % idr_period == 0 {
            assert!(chunk.is_keyframe, "frame {i} should be an IDR");
            assert!(contains_nal(&chunk.bytes, NAL_SPS), "IDR {i} needs SPS");
            assert!(contains_nal(&chunk.bytes, NAL_PPS), "IDR {i} needs PPS");
        } else {
            assert!(!chunk.is_keyframe, "frame {i} should be a delta");
        }
    }
}

#[test]
fn force_keyframe_mid_gop_emits_idr() {
    let mut enc = SoftwareEncoder::new(params(64, 64, 100)).expect("constructs");
    // Prime the stream (frame 0 is always an IDR).
    let p0 = solid_frame(64, 64, 0);
    enc.encode_i420(frame(&p0, 64, 64), false, Duration::zero())
        .expect("encodes");
    let p1 = solid_frame(64, 64, 1);
    let delta = enc
        .encode_i420(frame(&p1, 64, 64), false, Duration::from_millis(33))
        .expect("encodes");
    assert!(!delta.is_keyframe);
    let p2 = solid_frame(64, 64, 2);
    let forced = enc
        .encode_i420(frame(&p2, 64, 64), true, Duration::from_millis(66))
        .expect("encodes");
    assert!(forced.is_keyframe);
    assert!(contains_nal(&forced.bytes, NAL_SPS));
    assert!(contains_nal(&forced.bytes, NAL_PPS));
}

#[test]
fn pts_is_passed_through_verbatim() {
    let mut enc = SoftwareEncoder::new(params(64, 64, 4)).expect("constructs");
    let planes = solid_frame(64, 64, 0);
    let odd = Duration::from_nanos(16_666_667);
    let chunk = enc
        .encode_i420(frame(&planes, 64, 64), false, odd)
        .expect("encodes");
    assert_eq!(chunk.pts, odd);
}

#[test]
fn deinterleave_uv_splits_planes() {
    let uv = [10u8, 20, 11, 21, 12, 22];
    let mut u = Vec::new();
    let mut v = Vec::new();
    deinterleave_uv(&uv, &mut u, &mut v);
    assert_eq!(u, [10, 11, 12]);
    assert_eq!(v, [20, 21, 22]);
}

#[test]
fn nal_scanner_handles_both_start_code_lengths() {
    // 3-byte start code + SPS (type 7), then 4-byte start code + PPS (type 8).
    let data = [0, 0, 1, 0x67, 0xAA, 0, 0, 0, 1, 0x68, 0xBB];
    assert!(contains_nal(&data, NAL_SPS));
    assert!(contains_nal(&data, NAL_PPS));
    assert!(!contains_nal(&data, 5));
    let sps = extract_nal(&data, NAL_SPS).expect("has sps");
    assert_eq!(sps, [0, 0, 0, 1, 0x67, 0xAA]);
}

#[test]
fn ensure_parameter_sets_prepends_only_when_missing() {
    let sps = [0u8, 0, 0, 1, 0x67, 0xAA];
    let pps = [0u8, 0, 0, 1, 0x68, 0xBB];
    // A bare IDR (type 5) gets both prepended.
    let bare = vec![0, 0, 0, 1, 0x65, 0xCC];
    let fixed = ensure_parameter_sets(bare, &sps, &pps);
    assert!(contains_nal(&fixed, NAL_SPS));
    assert!(contains_nal(&fixed, NAL_PPS));
    assert_eq!(&fixed[..6], &sps);
    // An already-complete access unit is returned untouched.
    let complete = {
        let mut b = Vec::new();
        b.extend_from_slice(&sps);
        b.extend_from_slice(&pps);
        b.extend_from_slice(&[0, 0, 0, 1, 0x65, 0xCC]);
        b
    };
    let same = ensure_parameter_sets(complete.clone(), &sps, &pps);
    assert_eq!(same, complete);
}

#[test]
fn output_decodes_back_to_the_source_dimensions() {
    let mut enc = SoftwareEncoder::new(params(64, 64, 4)).expect("constructs");
    let mut dec = Decoder::new().expect("decoder");
    let mut decoded_any = false;
    for i in 0..8u8 {
        let planes = solid_frame(64, 64, i);
        let pts = Duration::from_millis(u64::from(i) * 33);
        let chunk = enc
            .encode_i420(frame(&planes, 64, 64), false, pts)
            .expect("encodes");
        if let Some(yuv) = dec.decode(&chunk.bytes).expect("decodes") {
            let (w, h) = yuv.dimensions();
            assert_eq!((w, h), (64, 64));
            decoded_any = true;
        }
    }
    assert!(decoded_any, "decoder should yield at least one frame");
}

#[test]
fn refusals_name_the_cause() {
    let why = |p: EncodeParams| validate(p).unwrap_err().message();
    assert_eq!(
        why(params(0, 64, 4)),
        "failed to initialise the encoder: width and height must be > 0"
    );
    assert_eq!(
        why(params(65, 64, 4)),
        "failed to initialise the encoder: width and height must be even for I420"
    );
    assert_eq!(
        why(params(64, 64, 0)),
        "failed to initialise the encoder: idr_period must be > 0"
    );
}

#[test]
fn later_keyframes_get_the_remembered_sets() {
    let mut sets = ParameterSets::new();
    let full = vec![0, 0, 0, 1, 0x67, 0xAA, 0, 0, 0, 1, 0x68, 0xBB, 0, 0, 0, 1, 0x65, 1];
    sets.complete(full, true, Duration::zero()).expect("first");
    let bare = vec![0, 0, 0, 1, 0x65, 2];
    let chunk = sets
        .complete(bare, true, Duration::from_millis(33))
        .expect("second");
    assert_eq!(
        chunk.bytes,
        [0, 0, 0, 1, 0x67, 0xAA, 0, 0, 0, 1, 0x68, 0xBB, 0, 0, 0, 1, 0x65, 2]
    );
    let empty = sets.complete(vec![], false, Duration::zero());
    assert_eq!(
        empty.unwrap_err().message(),
        "failed to encode a frame: encoder produced no output"
    );
}

#[test]
fn a_frame_above_the_largest_size_is_refused() {
    let mut enc = SoftwareEncoder::new(params(64, 64, 4)).expect("constructs");
    let wide = solid_frame(3842, 16, 0);
    assert!(enc
        .encode_i420(frame(&wide, 3842, 16), false, Duration::zero())
        .is_err());
    let fits = solid_frame(64, 64, 0);
    assert!(enc
        .encode_i420(frame(&fits, 64, 64), false, Duration::from_millis(33))
        .is_ok());
}

#[test]
fn a_keyframe_carries_sets_that_went_by_apart() {
    let mut sets = ParameterSets::new();
    let lone_sps = vec![0, 0, 1, 0x67, 0xAA];
    sets.complete(lone_sps, false, Duration::zero()).expect("sps");
    let bare = vec![0, 0, 0, 1, 0x65, 1];
    let early = sets.complete(bare.clone(), true, Duration::zero()).expect("early");
    assert!(!contains_nal(&early.bytes, NAL_PPS), "no PPS has gone by yet");
    let lone_pps = vec![0, 0, 1, 0x68, 0xBB];
    sets.complete(lone_pps, false, Duration::zero()).expect("pps");
    let late = sets.complete(bare, true, Duration::zero()).expect("late");
    assert!(contains_nal(&late.bytes, NAL_SPS));
    assert!(contains_nal(&late.bytes, NAL_PPS));
    assert_eq!(late.bytes[late.bytes.len() - 6..], [0, 0, 0, 1, 0x65, 1]);
}
