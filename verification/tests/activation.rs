//! Pending activation links.

use rewynd::activation::{take_settings_activation, worth_reading, MAX_AGE_NANOS, MAX_LEN};

const NOW: i128 = 1_700_000_000_000_000_000;

fn take(content: &[u8], modified: i128) -> Option<String> {
    take_settings_activation(Some(content.to_vec()), modified, NOW)
}

#[test]
fn send_then_take_round_trips_and_consumes() {
    assert_eq!(
        take(b"rewynd://clip/rewynd-2026-01-01.mp4", NOW).as_deref(),
        Some("rewynd://clip/rewynd-2026-01-01.mp4")
    );
    assert_eq!(
        take("rewynd://clip/\u{e9}.mp4\n".as_bytes(), NOW).as_deref(),
        Some("rewynd://clip/\u{e9}.mp4"),
        "the line break is no part of the link"
    );
}

#[test]
fn a_stale_activation_is_dropped_and_removed() {
    let max = MAX_AGE_NANOS;
    assert_eq!(take(b"rewynd://clip/old.mp4", NOW - max - 1), None);
    assert!(take(b"rewynd://clip/old.mp4", NOW - max).is_some());
    assert_eq!(take(b"rewynd://clip/old.mp4", i128::MIN), None);
}

#[test]
fn a_future_mtime_counts_as_fresh() {
    assert_eq!(
        take(b"rewynd://clip/skewed.mp4", NOW + 600_000_000_000).as_deref(),
        Some("rewynd://clip/skewed.mp4")
    );
    assert!(take(b"rewynd://clip/skewed.mp4", i128::MAX).is_some());
    let link = Some(b"rewynd://clip/skewed.mp4".to_vec());
    assert!(take_settings_activation(link, i128::MAX, i128::MIN).is_some());
}

#[test]
fn oversized_or_binary_or_blank_content_is_dropped() {
    assert!(!worth_reading(MAX_LEN + 1), "an oversized file is not read");
    assert!(worth_reading(MAX_LEN));
    let oversized = vec![b'x'; MAX_LEN as usize + 1];
    assert_eq!(take(&oversized, NOW), None, "nor is it taken where it was read");
    assert!(take(&oversized[1..], NOW).is_some());
    assert_eq!(take_settings_activation(None, NOW, NOW), None);
    assert_eq!(take(&[0xff, 0xfe, 0x00], NOW), None);
    assert_eq!(take(b"  \n", NOW), None);
}
