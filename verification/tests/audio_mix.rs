//! Mixing two sources on one timeline.

use rewynd::audio_mix::{AudioMixer, MAX_BUFFERED_SECS};
use rewynd::clock::Duration;

const SR: u32 = 48_000;
const CH: u32 = 2;

fn ms(n: u64) -> Duration {
    Duration::from_millis(n)
}

fn mixer(settle: Duration) -> AudioMixer<f32> {
    AudioMixer::new(SR, CH, settle, 0.0)
}

fn sum(a: f32, b: f32) -> f32 {
    a + b
}

/// A drained sample: finite and in range.
fn clean(s: f32) -> f32 {
    if s.is_finite() {
        s.clamp(-1.0, 1.0)
    } else {
        0.0
    }
}

#[test]
fn frame_pts_round_trip() {
    let m = mixer(ms(100));
    assert_eq!(m.frame_at(Duration::zero()), 0);
    assert_eq!(m.frame_at(ms(1000)), 48_000);
    assert_eq!(m.frame_at(ms(10)), 480);
    assert_eq!(m.pts_of(48_000), ms(1000));
}

#[test]
fn single_source_drains_after_settle() {
    let mut m = mixer(ms(100));
    // 480 frames (10 ms) of stereo starting at t=0.
    let pcm: Vec<f32> = (0..480 * 2).map(|_| 0.25).collect();
    m.add(&pcm, Duration::zero(), sum);
    // Not yet settled (now=50ms, settle=100ms → settle_frame for -50ms = 0).
    assert!(m.drain_settled(ms(50), clean).is_none());
    // now=200ms → settle point 100ms → all 10ms of audio is ready.
    let (pts, out) = m.drain_settled(ms(200), clean).expect("settled");
    assert_eq!(pts, Duration::zero());
    assert_eq!(out.len(), 480 * 2);
    assert!(out.iter().all(|&s| (s - 0.25).abs() < 1e-6));
}

#[test]
fn two_sources_at_same_pts_sum_and_clamp() {
    let mut m = mixer(ms(100));
    let a: Vec<f32> = vec![0.6; 480 * 2];
    let b: Vec<f32> = vec![0.6; 480 * 2];
    m.add(&a, Duration::zero(), sum);
    m.add(&b, Duration::zero(), sum); // overlapping → sums to 1.2, clamps to 1.0
    let (_, out) = m.drain_settled(ms(200), clean).expect("settled");
    assert_eq!(out.len(), 480 * 2);
    assert!(
        out.iter().all(|&s| (s - 1.0).abs() < 1e-6),
        "1.2 clamps to 1.0"
    );
}

#[test]
fn two_sources_offset_align_by_pts() {
    let mut m = mixer(ms(1000));
    // Source A: frames [0,480) at 0.5. Source B: frames [240,720) at 0.5, starting at 5ms.
    let a = vec![0.5_f32; 480 * 2];
    let b = vec![0.5_f32; 480 * 2];
    m.add(&a, Duration::zero(), sum);
    m.add(&b, ms(5), sum); // 5ms = 240 frames
    let (pts, out) = m.drain_settled(ms(2000), clean).expect("settled");
    assert_eq!(pts, Duration::zero());
    // Timeline spans frames [0,720) = 720*2 samples.
    assert_eq!(out.len(), 720 * 2);
    // [0,240): only A = 0.5. [240,480): A+B = 1.0. [480,720): only B = 0.5.
    assert!((out[0] - 0.5).abs() < 1e-6);
    assert!((out[240 * 2] - 1.0).abs() < 1e-6);
    assert!((out[479 * 2] - 1.0).abs() < 1e-6);
    assert!((out[480 * 2] - 0.5).abs() < 1e-6);
}

#[test]
fn settle_releases_incrementally() {
    let mut m = mixer(ms(100));
    // 100ms of audio at t=0..100ms.
    let pcm = vec![0.1_f32; 4800 * 2];
    m.add(&pcm, Duration::zero(), sum);
    // now=150ms → settle point 50ms → first 50ms (2400 frames) ready.
    let (pts0, first) = m.drain_settled(ms(150), clean).expect("first half");
    assert_eq!(pts0, Duration::zero());
    assert_eq!(first.len(), 2400 * 2);
    // now=250ms → settle point 150ms → the remaining 50ms ready, PTS continues at 50ms.
    let (pts1, second) = m.drain_settled(ms(250), clean).expect("second half");
    assert_eq!(pts1, ms(50));
    assert_eq!(second.len(), 2400 * 2);
}

#[test]
fn late_samples_before_base_are_dropped() {
    let mut m = mixer(ms(100));
    // First buffer anchors base at 100ms.
    m.add(&vec![0.5_f32; 480 * 2], ms(100), sum);
    // Drain it so base advances.
    let _ = m.drain_settled(ms(1000), clean);
    // A late buffer for t=0 (well before the drained base) is dropped, not panicking.
    m.add(&vec![0.9_f32; 480 * 2], Duration::zero(), sum);
    assert!(m.drain_settled(ms(2000), clean).is_none());
}

#[test]
fn far_future_pts_is_dropped_by_the_buffer_cap() {
    let mut m = mixer(ms(100));
    m.add(&vec![0.2_f32; 480 * 2], Duration::zero(), sum);
    // Stamped 6 s ahead of the drained base — past the 5 s cap, so it's dropped
    // instead of ballooning the ring.
    m.add(&vec![0.9_f32; 480 * 2], ms(6_000), sum);
    let (pts, out) = m.drain_all(clean).expect("anchored audio");
    assert_eq!(pts, Duration::zero());
    assert_eq!(out.len(), 480 * 2, "only the anchored 10 ms is buffered");
    assert!(out.iter().all(|&s| (s - 0.2).abs() < 1e-6));
    assert!(m.drain_all(clean).is_none(), "the future buffer never lands");
}

#[test]
fn straddling_buffer_sums_only_trailing_frames_keeping_interleaving() {
    let mut m = mixer(ms(100));
    m.add(&vec![0.0_f32; 480 * 2], Duration::zero(), sum);
    let _ = m.drain_all(clean); // base advances to frame 480 (10 ms)
    // 480 frames starting at 5 ms straddle the drained base: the first 240 frames
    // are already drained and dropped; the trailing 240 land at the base with their
    // L/R interleaving intact.
    let pcm: Vec<f32> = (0..480).flat_map(|_| [0.5, -0.5]).collect();
    m.add(&pcm, ms(5), sum);
    let (pts, out) = m.drain_all(clean).expect("trailing half");
    assert_eq!(pts, ms(10));
    assert_eq!(out.len(), 240 * 2);
    assert!(
        out.chunks_exact(2)
            .all(|f| (f[0] - 0.5).abs() < 1e-6 && (f[1] + 0.5).abs() < 1e-6),
        "left stays left, right stays right"
    );
}

#[test]
fn drain_all_flushes_tail_ignoring_settle() {
    let mut m = mixer(ms(100));
    m.add(&vec![0.2_f32; 480 * 2], Duration::zero(), sum);
    // Nothing settled yet at now=10ms, but drain_all flushes it.
    assert!(m.drain_settled(ms(10), clean).is_none());
    let (pts, out) = m.drain_all(clean).expect("tail");
    assert_eq!(pts, Duration::zero());
    assert_eq!(out.len(), 480 * 2);
    assert!(m.drain_all(clean).is_none());
}

#[test]
fn empty_add_is_noop() {
    let mut m = mixer(ms(100));
    m.add(&[], ms(10), sum);
    assert!(m.drain_settled(ms(1000), clean).is_none());
}

#[test]
fn non_finite_samples_are_sanitized_to_zero() {
    let mut m = mixer(ms(100));
    let mut pcm = vec![0.3_f32; 480 * 2];
    pcm[0] = f32::NAN;
    pcm[1] = f32::INFINITY;
    pcm[2] = f32::NEG_INFINITY;
    m.add(&pcm, Duration::zero(), sum);
    let (_, out) = m.drain_all(clean).expect("tail");
    assert_eq!(out[0], 0.0, "NaN → 0");
    assert_eq!(out[1], 0.0, "inf → 0");
    assert_eq!(out[2], 0.0, "-inf → 0");
    assert!((out[3] - 0.3).abs() < 1e-6);
    assert!(out.iter().all(|s| s.is_finite()));
}

#[test]
fn partial_trailing_frame_is_not_summed() {
    let mut m = mixer(ms(100));
    // 2.5 stereo frames (5 samples) — the trailing half-frame must be dropped so it
    // can't shift the L/R interleaving of later buffers.
    m.add(&[0.5, 0.5, 0.5, 0.5, 0.9], Duration::zero(), sum);
    let (_, out) = m.drain_all(clean).expect("tail");
    assert_eq!(out.len(), 4, "only the 2 whole frames are kept");
}


#[test]
fn drains_stay_contiguous_across_a_gap() {
    let mut m = mixer(ms(0));
    m.add(&[0.5; 960], ms(0), sum);
    let (pts, out) = m.drain_all(clean).expect("first");
    assert_eq!(pts, ms(0));
    assert_eq!(out.len(), 960);
    // The source comes back 20 ms later: the gap is silence, not skipped.
    m.add(&[0.25; 960], ms(30), sum);
    let (pts, out) = m.drain_all(clean).expect("second");
    assert_eq!(pts, ms(10));
    assert_eq!(out.len(), 960 * 3);
    assert!(out[..1920].iter().all(|s| *s == 0.0));
    assert!(out[1920..].iter().all(|s| *s == 0.25));
}

#[test]
fn a_clock_far_ahead_does_not_fill_the_memory() {
    let mut m = mixer(ms(0));
    m.add(&[0.5; 4], ms(0), sum);
    m.add(&[0.5; 4], ms(MAX_BUFFERED_SECS * 1000 - 1), sum);
    let held = m.buf.len();
    assert!(held > 4 && held < (MAX_BUFFERED_SECS as usize) * 48_000 * 2);
    m.add(&[0.5; 4], ms(MAX_BUFFERED_SECS * 1000), sum);
    assert_eq!(m.buf.len(), held, "a buffer that starts beyond the limit is dropped whole");
}

#[test]
fn a_buffer_across_the_limit_is_cut_there() {
    let limit = (MAX_BUFFERED_SECS as usize) * 48_000 * 2;
    let mut m = mixer(ms(0));
    m.add(&[0.5; 4], ms(0), sum);
    // 48 frames, that is 96 samples, lie between a millisecond before the limit and the limit.
    m.add(&[0.25; 1000], ms(MAX_BUFFERED_SECS * 1000 - 1), sum);
    assert_eq!(m.buf.len(), limit);
    assert_eq!(m.buf[limit - 97], 0.0);
    assert_eq!(m.buf[limit - 96], 0.25);
    assert_eq!(m.buf[limit - 1], 0.25);
    // One long buffer is cut as well.
    let mut m = mixer(ms(0));
    m.add(&vec![0.5; limit + 2], ms(0), sum);
    assert_eq!(m.buf.len(), limit);
}

#[test]
fn frame_times_read_back_where_they_are_whole() {
    let m = mixer(ms(0));
    for frame in [0, 6, 480, 48_000, 4_147_200_000] {
        assert_eq!(m.frame_at(m.pts_of(frame)), frame);
    }
    // A third of a nanosecond is cut off here, and the frame before is found.
    assert_eq!(m.frame_at(m.pts_of(1)), 0);
}
