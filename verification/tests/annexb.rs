//! Conversion of AVCC samples to Annex-B.

use rewynd::annexb::{annexb_from_avcc, prepend_parameter_sets, AvccError};

const START_CODE: [u8; 4] = [0, 0, 0, 1];


/// Build an AVCC buffer from payloads with the given prefix size.
fn avcc(payloads: &[&[u8]], nal_length_size: usize) -> Vec<u8> {
    let mut out = Vec::new();
    for p in payloads {
        let len = u32::try_from(p.len()).expect("test payload fits u32");
        out.extend_from_slice(&len.to_be_bytes()[4 - nal_length_size..]);
        out.extend_from_slice(p);
    }
    out
}

#[test]
fn converts_multiple_nalus_with_4_byte_lengths() {
    let idr: &[u8] = &[0x65, 0xAA, 0xBB];
    let sei: &[u8] = &[0x06, 0x01];
    let input = avcc(&[sei, idr], 4);
    let mut out = Vec::new();
    annexb_from_avcc(&input, 4, &mut out).expect("converts");
    assert_eq!(out, [&START_CODE[..], sei, &START_CODE[..], idr].concat());
}

#[test]
fn converts_1_and_2_byte_lengths() {
    for nal_length_size in [1usize, 2] {
        let a: &[u8] = &[0x41, 0x01, 0x02];
        let b: &[u8] = &[0x41, 0x03];
        let input = avcc(&[a, b], nal_length_size);
        let mut out = Vec::new();
        annexb_from_avcc(&input, nal_length_size, &mut out)
            .unwrap_or_else(|e| panic!("size {nal_length_size}: {}", e.message()));
        assert_eq!(
            out,
            [&START_CODE[..], a, &START_CODE[..], b].concat(),
            "nal_length_size {nal_length_size}"
        );
    }
}

#[test]
fn empty_input_appends_nothing() {
    let mut out = vec![0xFFu8];
    annexb_from_avcc(&[], 4, &mut out).expect("empty ok");
    assert_eq!(out, [0xFF]);
}

#[test]
fn appends_after_existing_content() {
    let mut out = vec![1u8, 2, 3];
    let input = avcc(&[&[0x65, 0x00]], 4);
    annexb_from_avcc(&input, 4, &mut out).expect("converts");
    assert_eq!(out[..3], [1, 2, 3]);
    assert_eq!(out[3..], [0, 0, 0, 1, 0x65, 0x00]);
}

#[test]
fn rejects_invalid_nal_length_size() {
    let mut out = Vec::new();
    assert_eq!(
        annexb_from_avcc(&[0], 0, &mut out),
        Err(AvccError::InvalidNalLengthSize(0))
    );
    assert_eq!(
        annexb_from_avcc(&[0], 5, &mut out),
        Err(AvccError::InvalidNalLengthSize(5))
    );
}

#[test]
fn rejects_truncated_length_prefix() {
    // One complete NALU, then 2 stray bytes that can't hold a 4-byte prefix.
    let mut input = avcc(&[&[0x65, 0x01]], 4);
    input.extend_from_slice(&[0, 0]);
    let mut out = Vec::new();
    assert_eq!(
        annexb_from_avcc(&input, 4, &mut out),
        Err(AvccError::TruncatedLengthPrefix(6))
    );
}

#[test]
fn rejects_truncated_nalu() {
    // Prefix says 5 bytes, only 2 present.
    let input = [0u8, 0, 0, 5, 0x65, 0x01];
    let mut out = Vec::new();
    assert_eq!(
        annexb_from_avcc(&input, 4, &mut out),
        Err(AvccError::TruncatedNalu {
            offset: 0,
            len: 5,
            remaining: 2,
        })
    );
}

#[test]
fn rejects_zero_length_nalu() {
    let input = [0u8, 0, 0, 0, 0x65];
    let mut out = Vec::new();
    assert_eq!(
        annexb_from_avcc(&input, 4, &mut out),
        Err(AvccError::ZeroLengthNalu(0))
    );
}

#[test]
fn error_messages_name_the_cause() {
    assert_eq!(
        AvccError::InvalidNalLengthSize(7).message(),
        "invalid nal_length_size 7: must be 1..=4"
    );
    assert_eq!(
        AvccError::ZeroLengthNalu(3).message(),
        "zero-length NALU at offset 3"
    );
}

#[test]
fn emits_parameter_sets_with_start_codes() {
    let sps = vec![0x67u8, 0x64, 0x00];
    let pps = vec![0x68u8, 0xEE];
    let mut out = Vec::new();
    prepend_parameter_sets(&[sps.clone(), pps.clone()], &mut out);
    assert_eq!(out, [&START_CODE[..], &sps, &START_CODE[..], &pps].concat());
}

#[test]
fn no_parameter_sets_emits_nothing() {
    let mut out = Vec::new();
    prepend_parameter_sets(&[], &mut out);
    assert!(out.is_empty());
}

#[test]
fn idr_chunk_layout_is_sps_pps_then_slices() {
    // Compose exactly what the VideoToolbox backend does for a keyframe:
    // parameter sets first, then the converted AVCC sample.
    let sps = vec![0x67u8, 0x64, 0x00, 0x2A];
    let pps = vec![0x68u8, 0xEE, 0x3C];
    let idr: &[u8] = &[0x65, 0x88, 0x84, 0x00];
    let sample = avcc(&[idr], 4);

    let mut chunk = Vec::new();
    prepend_parameter_sets(&[sps.clone(), pps.clone()], &mut chunk);
    annexb_from_avcc(&sample, 4, &mut chunk).expect("converts");

    let expected = [
        &START_CODE[..],
        &sps,
        &START_CODE[..],
        &pps,
        &START_CODE[..],
        idr,
    ]
    .concat();
    assert_eq!(chunk, expected);

    // NAL types in order: SPS (7), PPS (8), IDR (5) — a self-decodable clip start.
    let types: Vec<u8> = chunk
        .windows(4)
        .enumerate()
        .filter(|(_, w)| **w == START_CODE)
        .map(|(i, _)| chunk[i + 4] & 0x1F)
        .collect();
    assert_eq!(types, [7, 8, 5]);
}

#[test]
fn every_error_names_the_cause() {
    assert_eq!(
        AvccError::TruncatedLengthPrefix(6).message(),
        "truncated NALU length prefix at offset 6"
    );
    assert_eq!(
        AvccError::TruncatedNalu {
            offset: 0,
            len: 5,
            remaining: 2
        }
        .message(),
        "truncated NALU at offset 0: length 5 exceeds remaining 2 bytes"
    );
}
