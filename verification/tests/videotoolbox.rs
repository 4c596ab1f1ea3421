//! VideoToolbox output.

use rewynd::annexb::{annexb_from_avcc, prepend_parameter_sets};
use rewynd::clock::Duration;
use rewynd::encode::EncodeParams;
use rewynd::videotoolbox::{
    parse_output, reply_chunk, session_time, validate_session, CallbackOutput, FormatDescription,
    OutputSample, ParsedFrame,
};

fn params(width: u32, height: u32) -> EncodeParams {
    EncodeParams {
        width,
        height,
        framerate: 30,
        bitrate_bps: 2_000_000,
        idr_period: 10,
    }
}

#[test]
fn videotoolbox_new_rejects_bad_params() {
    assert!(validate_session(params(0, 720)).is_err());
    assert!(validate_session(params(1280, 0)).is_err());
    let zero_fps = EncodeParams {
        framerate: 0,
        ..params(1280, 720)
    };
    assert!(validate_session(zero_fps).is_err());
    let zero_gop = EncodeParams {
        idr_period: 0,
        ..params(1280, 720)
    };
    assert!(validate_session(zero_gop).is_err());
    assert!(validate_session(params(1280, 720)).is_ok());
}

/// Byte offsets and NAL types of every 4-byte start code in `data`.
fn nal_types(data: &[u8]) -> Vec<u8> {
    data.windows(4)
        .enumerate()
        .filter(|(_, w)| *w == [0, 0, 0, 1])
        .map(|(i, _)| data[i + 4] & 0x1F)
        .collect()
}

#[test]
fn composed_keyframe_layout_matches_contract() {
    // Mirrors parse_output's keyframe path with synthetic bytes (no VT needed).
    let sps = vec![0x67u8, 0x42];
    let pps = vec![0x68u8, 0xCE];
    let idr = [0u8, 0, 0, 2, 0x65, 0xFF];
    let mut out = Vec::new();
    prepend_parameter_sets(&[sps, pps], &mut out);
    annexb_from_avcc(&idr, 4, &mut out).expect("converts");
    assert_eq!(nal_types(&out), [7, 8, 5]);
}

fn output(is_keyframe: bool, data: Vec<u8>) -> CallbackOutput {
    CallbackOutput {
        status_error: None,
        dropped: false,
        sample: Some(OutputSample {
            is_keyframe,
            format: Some(FormatDescription {
                declared: Some((2, 4)),
                parameter_sets: vec![Ok(vec![0x67, 0x42]), Ok(vec![0x68, 0xCE])],
            }),
            data: Some(Ok(data)),
        }),
    }
}

#[test]
fn a_keyframe_carries_its_parameter_sets() {
    let key = output(true, vec![0, 0, 0, 2, 0x65, 0xFF]);
    let frame = parse_output(&key).expect("parses").expect("a frame");
    assert!(frame.is_keyframe);
    assert_eq!(nal_types(&frame.annexb), [7, 8, 5]);
    let delta = output(false, vec![0, 0, 0, 2, 0x41, 0xFF]);
    let frame = parse_output(&delta).expect("parses").expect("a frame");
    assert_eq!(frame.annexb, [0, 0, 0, 1, 0x41, 0xFF]);
}

#[test]
fn faults_are_named() {
    let failed = CallbackOutput {
        status_error: Some("-12903".to_owned()),
        dropped: false,
        sample: None,
    };
    assert_eq!(
        parse_output(&failed),
        Err("encode callback reported -12903".to_owned())
    );
    let dropped = CallbackOutput {
        status_error: None,
        dropped: true,
        sample: None,
    };
    assert_eq!(parse_output(&dropped), Ok(None));
    assert_eq!(
        parse_output(&output(false, vec![0, 0, 0, 0])),
        Err("zero-length NALU at offset 0".to_owned())
    );
    assert_eq!(
        parse_output(&output(false, vec![])),
        Err("output sample converted to an empty access unit".to_owned())
    );
    let mut bare = output(true, vec![0, 0, 0, 1, 0x65]);
    bare.sample.as_mut().unwrap().format.as_mut().unwrap().declared = Some((0, 4));
    assert_eq!(
        parse_output(&bare),
        Err("keyframe sample carries no parameter sets".to_owned())
    );
    let mut blank = output(true, vec![]);
    blank.sample.as_mut().unwrap().data = None;
    assert_eq!(
        parse_output(&blank),
        Err("output sample has no data buffer".to_owned())
    );
}

#[test]
fn replies_become_chunks() {
    let pts = Duration::from_micros(33_333);
    let frame = ParsedFrame {
        annexb: vec![0, 0, 0, 1, 0x65],
        is_keyframe: true,
    };
    let chunk = reply_chunk(Some(Ok(Some(frame))), pts).unwrap().unwrap();
    assert_eq!(chunk.pts, pts, "pts must ride through verbatim");
    assert!(chunk.is_keyframe);
    assert!(reply_chunk(Some(Ok(None)), pts).unwrap().is_none());
    assert_eq!(
        reply_chunk(None, pts).unwrap_err().message(),
        "failed to encode a frame: timed out waiting for VideoToolbox output"
    );
    assert_eq!(session_time(pts), 33_333);
    assert_eq!(session_time(Duration::from_secs(u64::MAX)), i64::MAX);
}
