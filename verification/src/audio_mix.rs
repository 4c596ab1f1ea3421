//! Mixing two capture sources (system output + microphone) into one PCM stream.
//!
//! The system-monitor and mic streams arrive with independent buffering, but both stamp each
//! buffer with a timestamp on the *same* capture epoch. [`AudioMixer`] places each buffer onto a
//! shared sample timeline at `frame = pts × sample_rate` and sums overlapping samples, so the
//! two sources line up by arrival time. A drain releases only samples old enough that both
//! sources have had time to contribute (a *settle* delay).
//!
//! Drains are contiguous: gaps are filled with silence, never skipped.
//!
//! The mixer is generic in the sample type: how two samples are summed and how a sample is
//! sanitised is handed in, where the samples lie is decided here.

use crate::clock::{Duration, MAX_NANOS};
use vstd::prelude::*;

verus! {

/// Guards against a source reporting a wildly-future timestamp (a clock glitch): never buffer
/// more than this many seconds of mixed audio ahead of the drained position.
pub const MAX_BUFFERED_SECS: u64 = 5;

/// The absolute (epoch-relative) per-channel frame index a timestamp maps to.
pub open spec fn frame_index(nanos: nat, sample_rate: u32) -> nat {
    nanos * sample_rate as nat / 1_000_000_000 % 0x1_0000_0000_0000_0000
}

/// The timestamp of an absolute frame index, in nanoseconds.
pub open spec fn frame_time(frame: u64, sample_rate: u32) -> nat {
    frame as nat * 1_000_000_000 / sample_rate as nat % 0x1_0000_0000_0000_0000
}

/// Sums multiple capture sources onto one time-aligned interleaved timeline.
#[derive(Debug)]
pub struct AudioMixer<T> {
    /// Samples per frame.
    pub channels: usize,
    /// Frames per second.
    pub sample_rate: u32,
    /// How far behind "now" a frame must be before it's drained, so both sources have
    /// contributed. Larger = more jitter tolerance, more latency (irrelevant for a buffer).
    pub settle: Duration,
    /// Absolute (epoch-relative) frame index of the front of `buf`.
    pub base_frame: u64,
    /// Mixed interleaved samples from `base_frame` onward (summed across sources).
    pub buf: Vec<T>,
    /// Whether `base_frame` has been anchored to the first sample seen.
    pub started: bool,
    /// The sample that silence is made of.
    pub silence: T,
}

/// The sample at `i` of a buffer that is silent behind its end.
pub open spec fn sample_at<T>(buf: Seq<T>, silence: T, i: int) -> T {
    if i < buf.len() {
        buf[i]
    } else {
        silence
    }
}

/// Where a buffer lands on the timeline.
pub enum Placement {
    /// Nowhere: it is empty, wholly before the drained position, or too far ahead.
    Dropped,
    /// `count` samples from `skip` on land at `dst`.
    At { skip: nat, dst: nat, count: nat },
}

/// The most samples that are buffered ahead of the drained position.
pub open spec fn lead(channels: nat, sample_rate: nat) -> nat {
    MAX_BUFFERED_SECS as nat * sample_rate * channels
}

/// Where `len` samples that start at frame `start` land on a timeline whose front is frame
/// `base`: samples before the front are skipped, a trailing partial frame is dropped, and so is
/// what lies beyond the buffered seconds.
pub open spec fn placement(
    len: nat,
    start: nat,
    base: nat,
    channels: nat,
    sample_rate: nat,
) -> Placement {
    let skip = if start < base {
        (base - start) as nat * channels
    } else {
        0
    };
    let dst = if start < base {
        0
    } else {
        (start - base) as nat * channels
    };
    let left = (len - skip) as nat;
    let whole = (left - left % channels) as nat;
    let limit = lead(channels, sample_rate);
    if len == 0 || skip >= len || whole == 0 || dst >= limit {
        Placement::Dropped
    } else {
        let count = if dst + whole <= limit {
            whole
        } else {
            (limit - dst) as nat
        };
        Placement::At { skip, dst, count }
    }
}

/// Whether `after` is `before` with the placed samples of `pcm` summed in, extended with
/// silence as far as they reach.
pub open spec fn mixed<T, F: Fn(T, T) -> T>(
    before: Seq<T>,
    after: Seq<T>,
    pcm: Seq<T>,
    place: Placement,
    silence: T,
    sum: F,
) -> bool {
    match place {
        Placement::Dropped => after == before,
        Placement::At { skip, dst, count } => {
            &&& after.len() == if dst + count > before.len() {
                dst + count
            } else {
                before.len()
            }
            &&& forall|i: int|
                #![trigger after[i]]
                0 <= i < after.len() ==> if dst <= i < dst + count {
                    call_ensures(
                        sum,
                        (sample_at(before, silence, i), pcm[skip + (i - dst)]),
                        after[i],
                    )
                } else {
                    after[i] == sample_at(before, silence, i)
                }
        },
    }
}

impl<T: Copy> AudioMixer<T> {
    /// Whether the mixer is in order: it has a channel and a rate, and holds whole frames only,
    /// so that channels never swap, and no more of them than the buffered seconds.
    pub open spec fn wf(self) -> bool {
        &&& self.channels >= 1
        &&& self.sample_rate >= 1
        &&& self.buf@.len() % self.channels as nat == 0
        &&& self.buf@.len() <= lead(self.channels as nat, self.sample_rate as nat)
    }

    /// Whether `after` is this mixer with the buffer `pcm` of time `pts` summed in: the first
    /// buffer anchors the timeline, and an empty one changes nothing.
    pub open spec fn added<F: Fn(T, T) -> T>(
        self,
        after: Self,
        pcm: Seq<T>,
        pts: nat,
        sum: F,
    ) -> bool {
        let start = frame_index(pts, self.sample_rate);
        &&& after.same_setup(self)
        &&& pcm.len() == 0 ==> after == self
        &&& pcm.len() > 0 ==> {
            &&& after.started
            &&& after.base_frame == if self.started {
                self.base_frame as nat
            } else {
                start
            }
            &&& mixed(
                self.buf@,
                after.buf@,
                pcm,
                placement(
                    pcm.len(),
                    start,
                    after.base_frame as nat,
                    self.channels as nat,
                    self.sample_rate as nat,
                ),
                self.silence,
                sum,
            )
        }
    }

    /// Whether the configuration stays as it is.
    pub open spec fn same_setup(self, other: Self) -> bool {
        &&& self.channels == other.channels
        &&& self.sample_rate == other.sample_rate
        &&& self.settle == other.settle
        &&& self.silence == other.silence
    }

    /// Create a mixer for interleaved audio of `channels` at `sample_rate`, releasing frames
    /// `settle` behind the drain clock.
    pub fn new(sample_rate: u32, channels: u32, settle: Duration, silence: T) -> (r: Self)
        ensures
            r.wf(),
            r.channels == if channels == 0 {
                1
            } else {
                channels as int
            },
            r.sample_rate == if sample_rate == 0 {
                1
            } else {
                sample_rate
            },
            r.settle == settle,
            r.silence == silence,
            r.base_frame == 0,
            r.buf@ == Seq::<T>::empty(),
            !r.started,
    {
        let channels: usize = if channels == 0 {
            1
        } else {
            channels as usize
        };
        proof {
            vstd::arithmetic::div_mod::lemma_small_mod(0, channels as nat);
        }
        AudioMixer {
            channels,
            sample_rate: if sample_rate == 0 {
                1
            } else {
                sample_rate
            },
            settle,
            base_frame: 0,
            buf: Vec::new(),
            started: false,
            silence,
        }
    }

    /// The absolute (epoch-relative) per-channel frame index a timestamp maps to.
    pub fn frame_at(&self, pts: Duration) -> (frame: u64)
        ensures
            frame == frame_index(pts@, self.sample_rate),
    {
        let nanos: u128 = pts.as_nanos();
        let rate: u128 = self.sample_rate as u128;
        proof {
            assert(nanos * rate <= MAX_NANOS * 0xffff_ffff) by (nonlinear_arith)
                requires
                    nanos <= MAX_NANOS,
                    rate <= 0xffff_ffff,
            ;
        }
        (nanos * rate / 1_000_000_000 % 0x1_0000_0000_0000_0000) as u64
    }

    /// The timestamp of an absolute frame index (inverse of [`frame_at`](Self::frame_at)).
    pub fn pts_of(&self, frame: u64) -> (pts: Duration)
        requires
            self.sample_rate >= 1,
        ensures
            pts@ == frame_time(frame, self.sample_rate),
    {
        let nanos: u128 = frame as u128 * 1_000_000_000 / self.sample_rate as u128;
        Duration::from_nanos((nanos % 0x1_0000_0000_0000_0000) as u64)
    }

    /// Sum one source's interleaved buffer onto the timeline at its capture `pts`. The first
    /// buffer anchors the timeline. Samples older than the already-drained position are
    /// dropped, and so are those further ahead of it than the buffered seconds; the rest
    /// extend/overlap what is buffered.
    pub fn add<F: Fn(T, T) -> T>(&mut self, pcm: &[T], pts: Duration, sum: F)
        requires
            old(self).wf(),
            forall|a: T, b: T| call_requires(sum, (a, b)),
            MAX_BUFFERED_SECS * old(self).sample_rate * old(self).channels <= usize::MAX,
        ensures
            final(self).wf(),
            final(self).buf@.len() <= MAX_BUFFERED_SECS * old(self).sample_rate
                * old(self).channels,
            old(self).added(*final(self), pcm@, pts@, sum),
    {
        if pcm.len() == 0 {
            return ;
        }
        let start: u64 = self.frame_at(pts);
        if !self.started {
            self.base_frame = start;
            self.started = true;
        }
        let ghost place = placement(
            pcm@.len(),
            start as nat,
            self.base_frame as nat,
            self.channels as nat,
            self.sample_rate as nat,
        );
        let channels: u128 = self.channels as u128;
        let behind: u128 = if start < self.base_frame {
            (self.base_frame - start) as u128
        } else {
            0
        };
        let ahead: u128 = if start < self.base_frame {
            0
        } else {
            (start - self.base_frame) as u128
        };
        proof {
            assert(behind * channels <= 0xffff_ffff_ffff_ffff * 0xffff_ffff_ffff_ffff)
                by (nonlinear_arith)
                requires
                    behind <= 0xffff_ffff_ffff_ffff,
                    channels <= 0xffff_ffff_ffff_ffff,
            ;
            assert(ahead * channels <= 0xffff_ffff_ffff_ffff * 0xffff_ffff_ffff_ffff)
                by (nonlinear_arith)
                requires
                    ahead <= 0xffff_ffff_ffff_ffff,
                    channels <= 0xffff_ffff_ffff_ffff,
            ;
        }
        let skip_samples: u128 = behind * channels;
        if skip_samples >= pcm.len() as u128 {
            assert(place is Dropped);
            return ;
        }
        let skip: usize = skip_samples as usize;
        let left: usize = pcm.len() - skip;
        proof {
            vstd::arithmetic::div_mod::lemma_mod_decreases(left as nat, self.channels as nat);
        }
        let whole: usize = left - left % self.channels;
        if whole == 0 {
            assert(place is Dropped);
            return ;
        }
        let dst_samples: u128 = ahead * channels;
        let limit: u128 = MAX_BUFFERED_SECS as u128 * self.sample_rate as u128 * channels;
        if dst_samples >= limit {
            assert(place is Dropped);
            return ;
        }
        let dst: usize = dst_samples as usize;
        let room: usize = (limit - dst_samples) as usize;
        let count: usize = if whole <= room {
            whole
        } else {
            room
        };
        assert(place == (Placement::At {
            skip: skip as nat,
            dst: dst as nat,
            count: count as nat,
        }));
        self.mix_in(pcm, skip, dst, count, sum);
        proof {
            let c = self.channels as int;
            let seconds = MAX_BUFFERED_SECS * self.sample_rate;
            vstd::arithmetic::div_mod::lemma_mod_multiples_basic(seconds as int, c);
            assert((dst + whole) % c == 0) by {
                assert(dst as int == ahead * c);
                vstd::arithmetic::div_mod::lemma_mod_multiples_basic(ahead as int, c);
                vstd::arithmetic::div_mod::lemma_fundamental_div_mod(left as int, c);
                assert(whole as int == (left as int / c) * c) by (nonlinear_arith)
                    requires
                        left as int == c * (left as int / c) + left as int % c,
                        whole == left - left as int % c,
                ;
                assert(dst + whole == (ahead + left as int / c) * c) by (nonlinear_arith)
                    requires
                        dst as int == ahead * c,
                        whole as int == (left as int / c) * c,
                ;
                vstd::arithmetic::div_mod::lemma_mod_multiples_basic(ahead + left as int / c, c);
            }
        }
    }

    /// Sum `count` samples of `pcm` from `skip` on into the buffer at `dst`.
    fn mix_in<F: Fn(T, T) -> T>(
        &mut self,
        pcm: &[T],
        skip: usize,
        dst: usize,
        count: usize,
        sum: F,
    )
        requires
            forall|a: T, b: T| call_requires(sum, (a, b)),
            skip + count <= pcm@.len(),
            dst + count <= usize::MAX,
        ensures
            final(self).same_setup(*old(self)),
            final(self).base_frame == old(self).base_frame,
            final(self).started == old(self).started,
            mixed(
                old(self).buf@,
                final(self).buf@,
                pcm@,
                (Placement::At { skip: skip as nat, dst: dst as nat, count: count as nat }),
                old(self).silence,
                sum,
            ),
    {
        let end: usize = dst + count;
        let ghost before = self.buf@;
        let silence = self.silence;
        while self.buf.len() < end
            invariant
                before.len() <= self.buf@.len(),
                self.buf@.len() <= before.len() || self.buf@.len() <= end,
                forall|i: int|
                    0 <= i < self.buf@.len() ==> #[trigger] self.buf@[i] == sample_at(
                        before,
                        silence,
                        i,
                    ),
                self.same_setup(*old(self)),
                silence == self.silence,
                self.base_frame == old(self).base_frame,
                self.started == old(self).started,
            decreases end - self.buf.len(),
        {
            self.buf.push(silence);
        }
        let mut i: usize = 0;
        while i < count
            invariant
                i <= count,
                end == dst + count,
                end <= self.buf@.len(),
                skip + count <= pcm@.len(),
                self.buf@.len() == if end > before.len() {
                    end as nat
                } else {
                    before.len()
                },
                forall|a: T, b: T| call_requires(sum, (a, b)),
                forall|k: int|
                    0 <= k < self.buf@.len() && !(dst <= k < dst + i) ==> #[trigger] self.buf@[k]
                        == sample_at(before, silence, k),
                forall|k: int|
                    #![trigger self.buf@[k]]
                    dst <= k < dst + i ==> call_ensures(
                        sum,
                        (sample_at(before, silence, k), pcm@[skip + (k - dst)]),
                        self.buf@[k],
                    ),
                self.same_setup(*old(self)),
                silence == self.silence,
                self.base_frame == old(self).base_frame,
                self.started == old(self).started,
            decreases count - i,
        {
            let here: T = self.buf[dst + i];
            let total: T = sum(here, pcm[skip + i]);
            self.buf.set(dst + i, total);
            i = i + 1;
        }
    }

    /// Drain `n_frames` from the front, returning the timestamp of the first and the interleaved
    /// samples, each sanitised by `clean`. Advances the front so drains stay contiguous.
    fn take_frames<F: Fn(T) -> T>(&mut self, n_frames: usize, clean: F) -> (r: Option<
        (Duration, Vec<T>),
    >)
        requires
            old(self).wf(),
            forall|a: T| call_requires(clean, (a,)),
            n_frames * old(self).channels <= old(self).buf@.len(),
            old(self).base_frame + n_frames <= u64::MAX,
        ensures
            drained(*old(self), *final(self), n_frames as nat, clean, r),
    {
        if n_frames == 0 {
            proof {
                assert(self.buf@.skip(0) =~= self.buf@);
            }
            return None;
        }
        let size: usize = self.buf.len();
        let n: usize = n_frames * self.channels;
        let start = self.pts_of(self.base_frame);
        let mut out: Vec<T> = Vec::new();
        let mut i: usize = 0;
        while i < n
            invariant
                i <= n <= size,
                size == self.buf@.len(),
                out@.len() == i,
                forall|a: T| call_requires(clean, (a,)),
                forall|k: int|
                    0 <= k < i ==> call_ensures(clean, (self.buf@[k],), #[trigger] out@[k]),
            decreases n - i,
        {
            out.push(clean(self.buf[i]));
            i = i + 1;
        }
        let ghost before = self.buf@;
        let mut rest: Vec<T> = Vec::new();
        while i < self.buf.len()
            invariant
                n <= i <= self.buf@.len(),
                rest@ == self.buf@.subrange(n as int, i as int),
            decreases self.buf@.len() - i,
        {
            rest.push(self.buf[i]);
            proof {
                assert(rest@ =~= self.buf@.subrange(n as int, i + 1));
            }
            i = i + 1;
        }
        self.buf = rest;
        self.base_frame = self.base_frame + n_frames as u64;
        proof {
            assert(self.buf@ =~= before.skip(n as int));
            let c = self.channels as int;
            vstd::arithmetic::div_mod::lemma_mod_multiples_vanish(
                -(n_frames as int),
                before.len() as int,
                c,
            );
            assert(c * -(n_frames as int) + before.len() == before.len() - n) by (nonlinear_arith)
                requires
                    n == n_frames * c,
            ;
        }
        Some((start, out))
    }

    /// Drain every frame settled before `now` (i.e. older than `now - settle`). Returns the
    /// timestamp of the first drained frame and the mixed interleaved samples, or `None` when
    /// nothing is ready yet.
    pub fn drain_settled<F: Fn(T) -> T>(&mut self, now: Duration, clean: F) -> (r: Option<
        (Duration, Vec<T>),
    >)
        requires
            old(self).wf(),
            forall|a: T| call_requires(clean, (a,)),
        ensures
            drained(*old(self), *final(self), old(self).settled_frames(now), clean, r),
    {
        if !self.started {
            proof {
                assert(self.buf@.skip(0) =~= self.buf@);
            }
            return None;
        }
        let settled: u64 = self.frame_at(now.saturating_sub(self.settle));
        let ready: u64 = if settled > self.base_frame {
            settled - self.base_frame
        } else {
            0
        };
        let available: usize = self.buf.len() / self.channels;
        let n: usize = if ready <= available as u64 {
            ready as usize
        } else {
            available
        };
        proof {
            lemma_whole_frames(self.buf@.len() as int, self.channels as int, n as int);
        }
        self.take_frames(n, clean)
    }

    /// Drain everything buffered regardless of the settle delay — used at shutdown to flush
    /// the tail.
    pub fn drain_all<F: Fn(T) -> T>(&mut self, clean: F) -> (r: Option<(Duration, Vec<T>)>)
        requires
            old(self).wf(),
            forall|a: T| call_requires(clean, (a,)),
            old(self).base_frame + old(self).buf@.len() <= u64::MAX,
        ensures
            drained(*old(self), *final(self), old(self).buffered_frames(), clean, r),
    {
        if !self.started {
            proof {
                assert(self.buf@.skip(0) =~= self.buf@);
            }
            return None;
        }
        let n: usize = self.buf.len() / self.channels;
        proof {
            lemma_whole_frames(self.buf@.len() as int, self.channels as int, n as int);
        }
        self.take_frames(n, clean)
    }

    /// How many frames are buffered; none before the first sample was seen.
    pub open spec fn buffered_frames(self) -> nat {
        if self.started {
            self.buf@.len() / self.channels as nat
        } else {
            0
        }
    }

    /// How many of the buffered frames are older than `now - settle`.
    pub open spec fn settled_frames(self, now: Duration) -> nat {
        let point = frame_index(
            if now@ >= self.settle@ {
                (now@ - self.settle@) as nat
            } else {
                0
            },
            self.sample_rate,
        );
        let ready = if point > self.base_frame {
            (point - self.base_frame) as nat
        } else {
            0
        };
        if ready <= self.buffered_frames() {
            ready
        } else {
            self.buffered_frames()
        }
    }
}

/// Whether `n` frames left the front of the timeline: they come out sanitised and stamped with
/// the time of the first, the rest stays, and the front moves on by exactly `n`, so that the
/// next drain goes on where this one ended. Nothing comes out where `n` is 0.
pub open spec fn drained<T: Copy, F: Fn(T) -> T>(
    before: AudioMixer<T>,
    after: AudioMixer<T>,
    n: nat,
    clean: F,
    r: Option<(Duration, Vec<T>)>,
) -> bool {
    &&& after.wf()
    &&& after.same_setup(before)
    &&& after.started == before.started
    &&& after.base_frame == before.base_frame + n
    &&& after.buf@ == before.buf@.skip((n * before.channels) as int)
    &&& match r {
        Some((pts, out)) => {
            &&& n > 0
            &&& pts@ == frame_time(before.base_frame, before.sample_rate)
            &&& out@.len() == n * before.channels
            &&& forall|i: int|
                0 <= i < out@.len() ==> call_ensures(clean, (before.buf@[i],), #[trigger] out@[i])
        },
        None => n == 0,
    }
}

/// As many frames as fit, times the channels, are no more samples than there are.
proof fn lemma_whole_frames(len: int, channels: int, n: int)
    requires
        len >= 0,
        channels >= 1,
        0 <= n <= len / channels,
    ensures
        n * channels <= len,
        n <= len,
{
    vstd::arithmetic::div_mod::lemma_fundamental_div_mod(len, channels);
    assert(n * channels <= len && n <= len) by (nonlinear_arith)
        requires
            len == channels * (len / channels) + len % channels,
            len % channels >= 0,
            0 <= n <= len / channels,
            channels >= 1,
    ;
}

/// What is drained is contiguous: the next drain begins with the frame after the last one that
/// was drained, however much was added in between (adding keeps the first frame of a mixer that
/// has started). Gaps are silence and are never skipped.
pub proof fn law_drains_are_contiguous<T: Copy, F: Fn(T) -> T>(
    before: AudioMixer<T>,
    drained_once: AudioMixer<T>,
    added_to: AudioMixer<T>,
    drained_twice: AudioMixer<T>,
    n: nat,
    m: nat,
    clean: F,
    first: Option<(Duration, Vec<T>)>,
    next: Option<(Duration, Vec<T>)>,
)
    requires
        drained(before, drained_once, n, clean, first),
        added_to.same_setup(drained_once),
        added_to.base_frame == drained_once.base_frame,
        drained(added_to, drained_twice, m, clean, next),
    ensures
        first matches Some((_, out)) ==> out@.len() == n * before.channels,
        first is None ==> n == 0,
        next matches Some((pts, _)) ==> pts@ == frame_time(
            (before.base_frame + n) as u64,
            before.sample_rate,
        ),
{
}

/// However far ahead a source's clock is, a mixer never holds more than the buffered seconds
/// ahead of what was drained, and a buffer that begins that far ahead is dropped whole.
pub proof fn law_lead_is_bounded<T: Copy, F: Fn(T, T) -> T>(
    before: AudioMixer<T>,
    after: AudioMixer<T>,
    pcm: Seq<T>,
    pts: nat,
    sum: F,
)
    requires
        before.wf(),
        before.added(after, pcm, pts, sum),
    ensures
        after.buf@.len() <= MAX_BUFFERED_SECS * before.sample_rate * before.channels,
        before.started && frame_index(pts, before.sample_rate) >= before.base_frame
            + MAX_BUFFERED_SECS * before.sample_rate ==> after.buf@ == before.buf@,
{
    let channels = before.channels as nat;
    let sample_rate = before.sample_rate as nat;
    let start = frame_index(pts, before.sample_rate);
    let base = after.base_frame as nat;
    if start >= base + MAX_BUFFERED_SECS * sample_rate {
        assert((start - base) * channels >= MAX_BUFFERED_SECS * sample_rate * channels)
            by (nonlinear_arith)
            requires
                start - base >= MAX_BUFFERED_SECS * sample_rate,
        ;
    }
}

/// The frame at a frame's time is that frame, wherever its time is a whole number of nanoseconds
/// (and below the largest time there is).
pub proof fn law_frame_time_reads_back(frame: u64, sample_rate: u32)
    requires
        sample_rate >= 1,
        frame * 1_000_000_000 % sample_rate as int == 0,
        frame * 1_000_000_000 / sample_rate as int <= u64::MAX,
    ensures
        frame_index(frame_time(frame, sample_rate), sample_rate) == frame,
{
    let nanos = frame as nat * 1_000_000_000;
    let time = nanos / sample_rate as nat;
    vstd::arithmetic::div_mod::lemma_fundamental_div_mod(nanos as int, sample_rate as int);
    assert(time * sample_rate as nat == nanos) by (nonlinear_arith)
        requires
            nanos == sample_rate as nat * time,
    ;
}

/// A time maps to the frame that is playing then, and a frame to the nanosecond that it begins in:
/// neither is off by a whole one.
pub proof fn law_frames_and_times_agree(nanos: nat, frame: u64, sample_rate: u32)
    requires
        sample_rate >= 1,
        nanos * sample_rate < 0x1_0000_0000_0000_0000 * 1_000_000_000,
        frame * 1_000_000_000 < 0x1_0000_0000_0000_0000 * sample_rate,
    ensures
        frame_index(nanos, sample_rate) * 1_000_000_000 <= nanos * sample_rate < (frame_index(
            nanos,
            sample_rate,
        ) + 1) * 1_000_000_000,
        frame_time(frame, sample_rate) * sample_rate <= frame * 1_000_000_000 < (frame_time(
            frame,
            sample_rate,
        ) + 1) * sample_rate,
{
    let rate = sample_rate as int;
    let whole = frame * 1_000_000_000;
    let time = whole / rate;
    vstd::arithmetic::div_mod::lemma_fundamental_div_mod(whole, rate);
    assert(0 <= time < 0x1_0000_0000_0000_0000) by (nonlinear_arith)
        requires
            whole == rate * time + whole % rate,
            whole % rate >= 0,
            whole < 0x1_0000_0000_0000_0000 * rate,
            whole >= 0,
            whole % rate < rate,
            rate >= 1,
    ;
    assert(time * rate <= whole < (time + 1) * rate) by (nonlinear_arith)
        requires
            whole == rate * time + whole % rate,
            0 <= whole % rate < rate,
    ;
}

/// Sources are lined up by time: on a timeline that has started, the sample at `i` of the buffer
/// stands for the time that `i` lies behind the front, and what a source says of that time, and
/// nothing else, is summed onto what was there (or onto silence). Only whole frames are taken, and
/// only what lies neither before the front nor beyond the buffered seconds. Every other sample is
/// as it was.
pub proof fn law_sources_line_up<T: Copy, F: Fn(T, T) -> T>(
    before: AudioMixer<T>,
    after: AudioMixer<T>,
    pcm: Seq<T>,
    pts: nat,
    sum: F,
    i: int,
)
    requires
        before.wf(),
        before.started,
        pcm.len() > 0,
        before.added(after, pcm, pts, sum),
        0 <= i,
    ensures
        after.base_frame == before.base_frame,
        after.buf@.len() >= before.buf@.len(),
        ({
            let c = before.channels as int;
            let start = frame_index(pts, before.sample_rate);
            let j = before.base_frame * c + i - start * c;
            let there = if i < before.buf@.len() {
                before.buf@[i]
            } else {
                before.silence
            };
            if 0 <= j < pcm.len() - pcm.len() as int % c && i < MAX_BUFFERED_SECS
                * before.sample_rate * c {
                &&& i < after.buf@.len()
                &&& call_ensures(sum, (there, pcm[j]), after.buf@[i])
            } else {
                i < after.buf@.len() ==> after.buf@[i] == there
            }
        }),
{
    let c = before.channels as int;
    let start = frame_index(pts, before.sample_rate) as int;
    let base = before.base_frame as int;
    let len = pcm.len() as int;
    let skip = if start < base {
        (base - start) * c
    } else {
        0
    };
    let dst = if start < base {
        0
    } else {
        (start - base) * c
    };
    assert(base * c + i - start * c == skip + (i - dst) && skip >= 0 && dst >= 0)
        by (nonlinear_arith)
        requires
            skip == if start < base {
                (base - start) * c
            } else {
                0
            },
            dst == if start < base {
                0
            } else {
                (start - base) * c
            },
            c >= 1,
    ;
    if skip < len {
        let back = if start < base {
            start - base
        } else {
            0
        };
        assert(c * back + len == len - skip) by (nonlinear_arith)
            requires
                skip == -back * c,
        ;
        vstd::arithmetic::div_mod::lemma_mod_multiples_vanish(back, len, c);
        vstd::arithmetic::div_mod::lemma_mod_decreases((len - skip) as nat, c as nat);
    } else {
        vstd::arithmetic::div_mod::lemma_mod_decreases(len as nat, c as nat);
    }
}

/// The first buffer anchors the timeline: it begins with that buffer's first sample.
pub proof fn law_first_buffer_anchors<T: Copy, F: Fn(T, T) -> T>(
    before: AudioMixer<T>,
    after: AudioMixer<T>,
    pcm: Seq<T>,
    pts: nat,
    sum: F,
)
    requires
        before.wf(),
        !before.started,
        before.buf@.len() == 0,
        before.added(after, pcm, pts, sum),
        before.channels <= pcm.len() <= MAX_BUFFERED_SECS * before.sample_rate * before.channels,
        pcm.len() % before.channels as nat == 0,
    ensures
        after.started,
        after.base_frame == frame_index(pts, before.sample_rate),
        after.buf@.len() == pcm.len(),
        forall|i: int|
            0 <= i < pcm.len() ==> call_ensures(
                sum,
                (before.silence, pcm[i]),
                #[trigger] after.buf@[i],
            ),
{
    assert(0 * before.channels as nat == 0) by (nonlinear_arith);
}

/// A drain loses nothing and changes nothing but what `clean` does: what comes out, before it was
/// sanitised, and then what stays, is what was buffered, in order. It comes out in whole frames,
/// stamped with the time of the front, to which the next drain's front follows on.
pub proof fn law_drain_loses_nothing<T: Copy, F: Fn(T) -> T>(
    before: AudioMixer<T>,
    after: AudioMixer<T>,
    n: nat,
    clean: F,
    r: Option<(Duration, Vec<T>)>,
)
    requires
        drained(before, after, n, clean, r),
        n * before.channels <= before.buf@.len(),
        before.sample_rate >= 1,
        before.base_frame * 1_000_000_000 < 0x1_0000_0000_0000_0000 * before.sample_rate,
    ensures
        r is None ==> after.buf@ == before.buf@ && after.base_frame == before.base_frame,
        r matches Some((pts, out)) ==> {
            &&& before.buf@.take(out@.len() as int) + after.buf@ == before.buf@
            &&& forall|i: int|
                0 <= i < out@.len() ==> call_ensures(clean, (before.buf@[i],), #[trigger] out@[i])
            &&& out@.len() == (after.base_frame - before.base_frame) * before.channels
            &&& pts@ * before.sample_rate <= before.base_frame * 1_000_000_000 < (pts@ + 1)
                * before.sample_rate
        },
{
    assert(0 * before.channels == 0) by (nonlinear_arith);
    if n == 0 {
        assert(before.buf@.skip(0) =~= before.buf@);
    }
    assert(before.buf@.take((n * before.channels) as int) + before.buf@.skip(
        (n * before.channels) as int,
    ) =~= before.buf@);
    assert(0 * before.sample_rate == 0) by (nonlinear_arith);
    law_frames_and_times_agree(0, before.base_frame, before.sample_rate);
}

/// A drain waits until a frame has settled, and no longer: of the buffered frames exactly those
/// come out that have ended `settle` before `now`.
pub proof fn law_drain_takes_what_has_settled<T: Copy>(mixer: AudioMixer<T>, now: Duration)
    requires
        mixer.wf(),
        mixer.started,
        now@ >= mixer.settle@,
        (now@ - mixer.settle@) * mixer.sample_rate < 0x1_0000_0000_0000_0000 * 1_000_000_000,
    ensures
        ({
            let n = mixer.settled_frames(now);
            let due = (now@ - mixer.settle@) * mixer.sample_rate;
            &&& n * mixer.channels <= mixer.buf@.len()
            &&& n > 0 ==> (mixer.base_frame + n) * 1_000_000_000 <= due
            &&& (n + 1) * mixer.channels <= mixer.buf@.len() ==> (mixer.base_frame + n + 1)
                * 1_000_000_000 > due
        }),
{
    let n = mixer.settled_frames(now) as int;
    let c = mixer.channels as int;
    let len = mixer.buf@.len() as int;
    lemma_whole_frames(len, c, n);
    vstd::arithmetic::div_mod::lemma_fundamental_div_mod(len, c);
    if (n + 1) * c <= len {
        assert(n + 1 <= len / c) by (nonlinear_arith)
            requires
                (n + 1) * c <= len,
                len == c * (len / c) + len % c,
                0 <= len % c < c,
                c >= 1,
        ;
    }
}

/// A flush at shutdown leaves nothing behind.
pub proof fn law_drain_all_empties<T: Copy, F: Fn(T) -> T>(
    before: AudioMixer<T>,
    after: AudioMixer<T>,
    clean: F,
    r: Option<(Duration, Vec<T>)>,
)
    requires
        before.wf(),
        before.started,
        drained(before, after, before.buffered_frames(), clean, r),
    ensures
        after.buf@.len() == 0,
        r matches Some((_, out)) ==> out@.len() == before.buf@.len(),
        r is None ==> before.buf@.len() == 0,
{
    let c = before.channels as int;
    let len = before.buf@.len() as int;
    vstd::arithmetic::div_mod::lemma_fundamental_div_mod(len, c);
    assert(before.buffered_frames() * before.channels == len) by (nonlinear_arith)
        requires
            before.buffered_frames() == len / c,
            len == c * (len / c),
            before.channels == c,
    ;
    assert(0 * c == 0) by (nonlinear_arith);
}

/// Adding a buffer leaves the mixer set up as it was.
pub proof fn law_setup_stays<T: Copy, F: Fn(T, T) -> T>(
    before: AudioMixer<T>,
    after: AudioMixer<T>,
    pcm: Seq<T>,
    pts: nat,
    sum: F,
)
    requires
        before.added(after, pcm, pts, sum),
    ensures
        after.channels == before.channels,
        after.sample_rate == before.sample_rate,
        after.settle == before.settle,
        after.silence == before.silence,
{
}

} // verus!
