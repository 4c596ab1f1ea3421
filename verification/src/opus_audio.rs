//! Framing for the Opus encoder: interleaved PCM in, one packet per whole frame out, each
//! stamped with the capture-relative timestamp of its first sample.
//!
//! libopus encodes fixed-size frames, but the capture delivers variable-size buffers, so
//! samples are accumulated and one [`EncodedAudioChunk`] is emitted per whole frame. The
//! timestamp is anchored to the first buffered sample and advanced by exactly one frame each
//! packet, and re-anchored whenever the buffer fully drains (so a gap doesn't accumulate
//! drift). What encodes a frame is handed in.

use crate::clock::{Duration, MAX_NANOS};
use crate::encode::EncodedAudioChunk;
use crate::schema::{opus_rate, opus_valid, AudioSettings};
use crate::text::{decimal, push_decimal};
use vstd::prelude::*;

verus! {

/// Errors from the Opus audio encoder.
#[derive(Debug)]
pub enum AudioEncodeError {
    /// The encoder could not be created or configured.
    Init(String),
    /// Encoding a frame failed.
    Encode(String),
    /// The parameters are unsupported (bad channel count, sample rate, or frame size).
    Params(String),
}

impl AudioEncodeError {
    /// What went wrong, in words.
    pub fn message(&self) -> (r: String)
        ensures
            r@ == match *self {
                AudioEncodeError::Init(why) => "failed to initialise the Opus encoder: "@ + why@,
                AudioEncodeError::Encode(why) => "failed to encode audio: "@ + why@,
                AudioEncodeError::Params(why) => "unsupported audio parameters: "@ + why@,
            },
    {
        match self {
            AudioEncodeError::Init(why) =>
                "failed to initialise the Opus encoder: ".to_owned().concat(why.as_str()),
            AudioEncodeError::Encode(why) => "failed to encode audio: ".to_owned().concat(
                why.as_str(),
            ),
            AudioEncodeError::Params(why) => "unsupported audio parameters: ".to_owned().concat(
                why.as_str(),
            ),
        }
    }

    /// Whether this error refuses the parameters and says `why`.
    pub open spec fn is_params(self, why: Seq<char>) -> bool {
        self matches AudioEncodeError::Params(text) && text@ == why
    }
}

/// Opus audio encoder configuration.
///
/// The defaults (48 kHz stereo, 128 kbps VBR, 20 ms frames) match the capture and Opus's
/// native rate.
#[derive(Debug, Clone, Copy, PartialEq, Eq, Structural)]
pub struct AudioEncodeParams {
    /// Sample rate in Hz. Opus accepts 8/12/16/24/48 kHz; capture delivers 48 kHz.
    pub sample_rate: u32,
    /// Channel count (1 = mono, 2 = stereo).
    pub channels: u32,
    /// Average target bitrate in bits per second.
    pub bitrate_bps: u32,
    /// Opus frame duration in milliseconds. Must be a valid Opus size (2.5/5/10/20/40/60);
    /// 20 ms is the typical streaming choice.
    pub frame_ms: u32,
}

impl Default for AudioEncodeParams {
    fn default() -> (r: Self)
        ensures
            r == (AudioEncodeParams {
                sample_rate: 48_000,
                channels: 2,
                bitrate_bps: 128_000,
                frame_ms: 20,
            }),
    {
        AudioEncodeParams { sample_rate: 48_000, channels: 2, bitrate_bps: 128_000, frame_ms: 20 }
    }
}

/// Whether Opus has frames of this many milliseconds.
pub open spec fn is_opus_frame(frame_ms: u32) -> bool {
    frame_ms == 5 || frame_ms == 10 || frame_ms == 20 || frame_ms == 40 || frame_ms == 60
}

/// Why `params` cannot be framed, if they cannot: a channel count other than 1 or 2, a frame
/// that is no whole number of samples, or a rate or frame that Opus does not have.
pub open spec fn framing_refusal(params: AudioEncodeParams) -> Option<Seq<char>> {
    if params.channels != 1 && params.channels != 2 {
        Some("channels must be 1 or 2, got "@ + decimal(params.channels as nat))
    } else if params.frame_ms == 0 || params.sample_rate * params.frame_ms % 1000 != 0 {
        Some(
            "frame_ms "@ + decimal(params.frame_ms as nat) + " does not yield a whole frame at "@
                + decimal(params.sample_rate as nat) + " Hz"@,
        )
    } else if !opus_rate(params.sample_rate) {
        Some("Opus takes no sample rate of "@ + decimal(params.sample_rate as nat) + " Hz"@)
    } else if !is_opus_frame(params.frame_ms) {
        Some("Opus has no frame of "@ + decimal(params.frame_ms as nat) + " ms"@)
    } else {
        None
    }
}

/// Samples per channel in one frame of `params`.
pub fn samples_per_frame(params: AudioEncodeParams) -> (r: Result<u32, AudioEncodeError>)
    ensures
        match framing_refusal(params) {
            Some(why) => r matches Err(e) && e.is_params(why),
            None => r == Ok::<u32, AudioEncodeError>(
                (params.sample_rate * params.frame_ms / 1000) as u32,
            ),
        },
{
    if params.channels != 1 && params.channels != 2 {
        let mut why = "channels must be 1 or 2, got ".to_owned();
        push_decimal(&mut why, params.channels as u64);
        return Err(AudioEncodeError::Params(why));
    }
    let rate: u32 = params.sample_rate;
    proof {
        assert(rate * params.frame_ms <= 0xffff_ffff * 0xffff_ffff) by (nonlinear_arith)
            requires
                rate <= 0xffff_ffff,
                params.frame_ms <= 0xffff_ffff,
        ;
    }
    if params.frame_ms == 0 || rate as u64 * params.frame_ms as u64 % 1000 != 0 {
        let mut why = "frame_ms ".to_owned();
        push_decimal(&mut why, params.frame_ms as u64);
        why.append(" does not yield a whole frame at ");
        push_decimal(&mut why, params.sample_rate as u64);
        why.append(" Hz");
        return Err(AudioEncodeError::Params(why));
    }
    if rate != 8_000 && rate != 12_000 && rate != 16_000 && rate != 24_000 && rate != 48_000 {
        let mut why = "Opus takes no sample rate of ".to_owned();
        push_decimal(&mut why, rate as u64);
        why.append(" Hz");
        return Err(AudioEncodeError::Params(why));
    }
    let ms: u32 = params.frame_ms;
    if ms != 5 && ms != 10 && ms != 20 && ms != 40 && ms != 60 {
        let mut why = "Opus has no frame of ".to_owned();
        push_decimal(&mut why, ms as u64);
        why.append(" ms");
        return Err(AudioEncodeError::Params(why));
    }
    proof {
        assert(rate * ms <= 48_000 * 60) by (nonlinear_arith)
            requires
                rate <= 48_000,
                ms <= 60,
        ;
    }
    Ok(rate * ms / 1000)
}

/// Audio settings that were sanitized are framed, whatever was stored, at every frame size that
/// Opus has, and their bitrate is one that the encoder takes.
pub proof fn law_sanitized_audio_is_framed(
    raw: AudioSettings,
    settings: AudioSettings,
    params: AudioEncodeParams,
)
    requires
        opus_valid(raw, settings),
        params.sample_rate == settings.sample_rate,
        params.channels == settings.channels,
        params.bitrate_bps == settings.bitrate_bps,
        is_opus_frame(params.frame_ms),
    ensures
        framing_refusal(params) is None,
        params.bitrate_bps <= i32::MAX,
{
    let (rate, ms) = (params.sample_rate, params.frame_ms);
    assert(opus_rate(rate));
    if rate == 8_000 {
        assert(8_000 * ms % 1000 == 0);
    } else if rate == 12_000 {
        assert(12_000 * ms % 1000 == 0);
    } else if rate == 16_000 {
        assert(16_000 * ms % 1000 == 0);
    } else if rate == 24_000 {
        assert(24_000 * ms % 1000 == 0);
    } else {
        assert(48_000 * ms % 1000 == 0);
    }
}

/// The bitrate as the encoder takes it, a signed 32-bit number.
pub fn encoder_bitrate(bitrate_bps: u32) -> (r: Result<i32, AudioEncodeError>)
    ensures
        match r {
            Ok(bits) => bits == bitrate_bps,
            Err(e) => bitrate_bps > i32::MAX && e.is_params("bitrate_bps too large"@),
        },
{
    if bitrate_bps <= i32::MAX as u32 {
        Ok(bitrate_bps as i32)
    } else {
        Err(AudioEncodeError::Params("bitrate_bps too large".to_owned()))
    }
}

/// The container's pre-skip for the lookahead that the encoder reports; a negative one counts
/// as none.
pub fn pre_skip_of(lookahead: i32) -> (r: Result<u16, AudioEncodeError>)
    ensures
        match r {
            Ok(skip) => skip == if lookahead < 0 {
                0
            } else {
                lookahead as int
            },
            Err(e) => lookahead > u16::MAX && (e matches AudioEncodeError::Init(why) && why@
                == "encoder lookahead out of range"@),
        },
{
    if lookahead < 0 {
        Ok(0)
    } else if lookahead <= u16::MAX as i32 {
        Ok(lookahead as u16)
    } else {
        Err(AudioEncodeError::Init("encoder lookahead out of range".to_owned()))
    }
}

/// Turns interleaved PCM of sample type `T` into [`EncodedAudioChunk`]s.
#[derive(Debug)]
pub struct OpusFramer<T> {
    /// Samples per channel in one Opus frame (e.g. 960 for 20 ms at 48 kHz).
    pub samples_per_channel: u32,
    /// Interleaved samples in one frame (`samples_per_channel * channels`).
    pub frame_len: usize,
    /// One frame's wall-clock duration, added to the timestamp per emitted packet.
    pub frame_duration: Duration,
    /// Accumulated interleaved samples awaiting a full frame.
    pub pending: Vec<T>,
    /// Capture-relative timestamp of the first pending sample.
    pub pending_pts: Duration,
}

/// The `k`-th frame of `frame_len` samples.
pub open spec fn nth_frame<T>(samples: Seq<T>, frame_len: nat, k: int) -> Seq<T> {
    samples.subrange(k * frame_len, (k + 1) * frame_len)
}

/// Whether `encode` gives `bytes` for these samples.
pub open spec fn encodes<T, F: Fn(&Vec<T>) -> Result<Vec<u8>, String>>(
    encode: F,
    samples: Seq<T>,
    bytes: Result<Seq<u8>, Seq<char>>,
) -> bool {
    exists|frame: Vec<T>, out: Result<Vec<u8>, String>|
        frame@ == samples && #[trigger] call_ensures(encode, (&frame,), out) && match (out, bytes) {
            (Ok(a), Ok(b)) => a@ == b,
            (Err(a), Err(b)) => a@ == b,
            _ => false,
        }
}

/// Whether `packets` are the first `n` frames of `samples`, encoded, each stamped one frame
/// later than the one before it, from `anchor` on.
pub open spec fn emitted<T, F: Fn(&Vec<T>) -> Result<Vec<u8>, String>>(
    packets: Seq<EncodedAudioChunk>,
    encode: F,
    framer: OpusFramer<T>,
    samples: Seq<T>,
    anchor: nat,
    n: nat,
) -> bool {
    &&& packets.len() == n
    &&& forall|k: int|
        0 <= k < n ==> (#[trigger] packets[k]).frames == framer.samples_per_channel
            && packets[k].pts@ == anchor + k * framer.frame_duration@ && encodes(
            encode,
            nth_frame(samples, framer.frame_len as nat, k),
            Ok(packets[k].bytes@),
        )
}

impl<T: Copy> OpusFramer<T> {
    /// Whether frames have a length.
    pub open spec fn wf(self) -> bool {
        self.frame_len >= 1
    }

    /// Whether the frame shape is the same.
    pub open spec fn same_shape(self, other: Self) -> bool {
        &&& self.samples_per_channel == other.samples_per_channel
        &&& self.frame_len == other.frame_len
        &&& self.frame_duration == other.frame_duration
    }

    /// Whether the frames are those of `params`.
    pub open spec fn frames(self, params: AudioEncodeParams) -> bool {
        let samples = params.sample_rate * params.frame_ms / 1000;
        &&& self.samples_per_channel == samples
        &&& self.frame_len == samples * params.channels
        &&& self.frame_duration@ == samples * 1_000_000_000 / params.sample_rate as int
    }

    /// A framer for `params`, with nothing pending.
    pub fn new(params: AudioEncodeParams) -> (r: Result<Self, AudioEncodeError>)
        ensures
            match framing_refusal(params) {
                Some(why) => r matches Err(e) && e.is_params(why),
                None => r matches Ok(framer) && framer.wf() && framer.frames(params)
                    && framer.pending@ == Seq::<T>::empty() && framer.pending_pts@ == 0,
            },
    {
        let samples: u32 = match samples_per_frame(params) {
            Ok(samples) => samples,
            Err(e) => {
                return Err(e);
            },
        };
        proof {
            assert(40_000 <= params.sample_rate * params.frame_ms <= 48_000 * 60)
                by (nonlinear_arith)
                requires
                    8_000 <= params.sample_rate <= 48_000,
                    5 <= params.frame_ms <= 60,
            ;
            assert(1 <= samples <= 2880);
            assert(samples as usize * params.channels <= 2 * samples) by (nonlinear_arith)
                requires
                    params.channels <= 2,
            ;
            assert(samples * params.channels >= 1) by (nonlinear_arith)
                requires
                    params.channels >= 1,
                    samples >= 1,
            ;
        }
        Ok(
            OpusFramer {
                samples_per_channel: samples,
                frame_len: samples as usize * params.channels as usize,
                frame_duration: Duration::from_nanos(
                    samples as u64 * 1_000_000_000 / params.sample_rate as u64,
                ),
                pending: Vec::new(),
                pending_pts: Duration::zero(),
            },
        )
    }

    /// What is pending once `pcm` has arrived.
    pub open spec fn with(self, pcm: Seq<T>) -> Seq<T> {
        self.pending@ + pcm
    }

    /// How many whole frames there are once `pcm` has arrived.
    pub open spec fn full_frames(self, pcm: Seq<T>) -> nat {
        self.with(pcm).len() / self.frame_len as nat
    }

    /// When the first pending sample was captured, once a buffer stamped `pts` has arrived.
    pub open spec fn anchor(self, pts: Duration) -> nat {
        if self.pending@.len() == 0 {
            pts@
        } else {
            self.pending_pts@
        }
    }

    /// Feed one capture buffer of interleaved PCM stamped at `pts` (the capture-relative time of
    /// its first sample), emitting a packet onto `packets` for each whole frame now available.
    /// Where `encode` fails on a frame, the frames before it have been emitted and it stays
    /// pending.
    pub fn push<F: Fn(&Vec<T>) -> Result<Vec<u8>, String>>(
        &mut self,
        pcm: &[T],
        pts: Duration,
        encode: F,
        packets: &mut Vec<EncodedAudioChunk>,
    ) -> (r: Result<(), AudioEncodeError>)
        requires
            old(self).wf(),
            forall|frame: &Vec<T>| call_requires(encode, (frame,)),
            old(self).anchor(pts) + old(self).full_frames(pcm@) * old(self).frame_duration@
                <= MAX_NANOS,
            old(self).with(pcm@).len() <= usize::MAX,
        ensures
            final(self).wf(),
            final(self).same_shape(*old(self)),
            exists|n: nat| #[trigger]
                pushed(
                    *old(self),
                    *final(self),
                    old(self).with(pcm@),
                    old(self).anchor(pts),
                    encode,
                    old(packets)@,
                    final(packets)@,
                    n,
                    r,
                ),
    {
        let ghost samples = old(self).with(pcm@);
        let ghost anchor = old(self).anchor(pts);
        let ghost had = packets@;
        if self.pending.len() == 0 {
            self.pending_pts = pts;
        }
        append_samples(&mut self.pending, pcm);
        proof {
            assert(self.pending@ =~= samples);
            assert(samples.skip(0) =~= samples);
            assert(packets@ =~= had + Seq::<EncodedAudioChunk>::empty());
        }
        let ghost mut n: nat = 0;
        let ghost mut fresh: Seq<EncodedAudioChunk> = Seq::empty();
        while self.pending.len() >= self.frame_len
            invariant
                self.wf(),
                self.same_shape(*old(self)),
                forall|frame: &Vec<T>| call_requires(encode, (frame,)),
                samples == old(self).with(pcm@),
                anchor == old(self).anchor(pts),
                had == old(packets)@,
                anchor + samples.len() / self.frame_len as nat * self.frame_duration@ <= MAX_NANOS,
                n * self.frame_len <= samples.len(),
                self.pending@ == samples.skip((n * self.frame_len) as int),
                self.pending_pts@ == anchor + n * self.frame_duration@,
                packets@ == had + fresh,
                emitted(fresh, encode, *old(self), samples, anchor, n),
            decreases self.pending.len(),
        {
            let size: usize = self.frame_len;
            let mut frame: Vec<T> = Vec::new();
            let mut i: usize = 0;
            while i < size
                invariant
                    i <= size <= self.pending@.len(),
                    frame@ == self.pending@.take(i as int),
                decreases size - i,
            {
                frame.push(self.pending[i]);
                proof {
                    assert(frame@ =~= self.pending@.take(i + 1));
                }
                i = i + 1;
            }
            proof {
                lemma_next_frame(samples, size as nat, n);
                assert(frame@ =~= nth_frame(samples, size as nat, n as int));
            }
            let out = encode(&frame);
            match out {
                Ok(bytes) => {
                    let ghost given = Ok::<Vec<u8>, String>(bytes);
                    proof {
                        assert(call_ensures(encode, (&frame,), given));
                        assert(encodes(encode, frame@, Ok(bytes@)));
                        assert((n + 1) * self.frame_duration@ <= samples.len() / size as nat
                            * self.frame_duration@) by (nonlinear_arith)
                            requires
                                n + 1 <= samples.len() / size as nat,
                        ;
                        assert((n + 1) * self.frame_duration@ == n * self.frame_duration@
                            + self.frame_duration@) by (nonlinear_arith);
                    }
                    let chunk = EncodedAudioChunk {
                        bytes,
                        frames: self.samples_per_channel,
                        pts: self.pending_pts,
                    };
                    proof {
                        let next = fresh.push(chunk);
                        assert forall|k: int| 0 <= k < n + 1 implies (#[trigger] next[k]).frames
                            == old(self).samples_per_channel && next[k].pts@ == anchor + k * old(
                            self,
                        ).frame_duration@ && encodes(
                            encode,
                            nth_frame(samples, old(self).frame_len as nat, k),
                            Ok(next[k].bytes@),
                        ) by {
                            if k < n {
                                assert(next[k] == fresh[k]);
                            }
                        }
                        assert(had + fresh.push(chunk) =~= (had + fresh).push(chunk));
                        fresh = next;
                    }
                    packets.push(chunk);
                    self.pending_pts =
                    Duration::saturating_from_nanos(
                        self.pending_pts.as_nanos() + self.frame_duration.as_nanos(),
                    );
                    let ghost before = self.pending@;
                    let rest = tail_of(&self.pending, size);
                    self.pending = rest;
                    proof {
                        assert(before.skip(size as int) =~= samples.skip(((n + 1) * size) as int));
                        n = n + 1;
                    }
                },
                Err(why) => {
                    let ghost given = Err::<Vec<u8>, String>(why);
                    proof {
                        assert(call_ensures(encode, (&frame,), given));
                        assert(encodes(encode, frame@, Err(why@)));
                    }
                    let r = Err(AudioEncodeError::Encode(why));
                    proof {
                        assert(packets@.skip(had.len() as int) =~= fresh);
                        assert(packets@.take(had.len() as int) =~= had);
                        assert(pushed(
                            *old(self),
                            *self,
                            samples,
                            anchor,
                            encode,
                            had,
                            packets@,
                            n,
                            r,
                        ));
                    }
                    return r;
                },
            }
        }
        let r = Ok(());
        proof {
            assert(packets@.skip(had.len() as int) =~= fresh);
            assert(packets@.take(had.len() as int) =~= had);
            assert(pushed(*old(self), *self, samples, anchor, encode, had, packets@, n, r));
        }
        r
    }

    /// Encode any leftover samples as a final frame, padded to a whole frame with `silence`. Call
    /// at shutdown so the last partial frame isn't lost; harmless if nothing is pending. Where
    /// `encode` fails, the padded frame stays pending.
    pub fn flush<F: Fn(&Vec<T>) -> Result<Vec<u8>, String>>(
        &mut self,
        silence: T,
        encode: F,
        packets: &mut Vec<EncodedAudioChunk>,
    ) -> (r: Result<(), AudioEncodeError>)
        requires
            old(self).wf(),
            forall|frame: &Vec<T>| call_requires(encode, (frame,)),
            old(self).pending@.len() > 0 ==> old(self).pending_pts@ + old(self).frame_duration@
                <= MAX_NANOS,
        ensures
            final(self).wf(),
            final(self).same_shape(*old(self)),
            flushed(
                *old(self),
                *final(self),
                silence,
                encode,
                old(packets)@,
                final(packets)@,
                r,
            ),
    {
        if self.pending.len() == 0 {
            return Ok(());
        }
        let size: usize = self.frame_len;
        let mut frame: Vec<T> = Vec::new();
        let mut i: usize = 0;
        let ghost whole = resized(self.pending@, size as nat, silence);
        while i < size
            invariant
                i <= size,
                whole == resized(self.pending@, size as nat, silence),
                frame@ == whole.take(i as int),
            decreases size - i,
        {
            if i < self.pending.len() {
                frame.push(self.pending[i]);
            } else {
                frame.push(silence);
            }
            proof {
                assert(frame@ =~= whole.take(i + 1));
            }
            i = i + 1;
        }
        proof {
            assert(frame@ =~= whole);
        }
        match encode(&frame) {
            Ok(bytes) => {
                proof {
                    assert(call_ensures(encode, (&frame,), Ok::<Vec<u8>, String>(bytes)));
                    assert(encodes(encode, frame@, Ok(bytes@)));
                }
                let ghost had = packets@;
                packets.push(
                    EncodedAudioChunk {
                        bytes,
                        frames: self.samples_per_channel,
                        pts: self.pending_pts,
                    },
                );
                proof {
                    assert(packets@.drop_last() =~= had);
                }
                self.pending_pts =
                Duration::saturating_from_nanos(
                    self.pending_pts.as_nanos() + self.frame_duration.as_nanos(),
                );
                self.pending = Vec::new();
                Ok(())
            },
            Err(why) => {
                proof {
                    assert(call_ensures(encode, (&frame,), Err::<Vec<u8>, String>(why)));
                    assert(encodes(encode, frame@, Err(why@)));
                }
                self.pending = frame;
                Err(AudioEncodeError::Encode(why))
            },
        }
    }
}

/// Appends `pcm` to `pending`.
fn append_samples<T: Copy>(pending: &mut Vec<T>, pcm: &[T])
    requires
        old(pending)@.len() + pcm@.len() <= usize::MAX,
    ensures
        final(pending)@ == old(pending)@ + pcm@,
{
    let ghost before = pending@;
    let mut i: usize = 0;
    proof {
        assert(before + pcm@.take(0) =~= before);
    }
    while i < pcm.len()
        invariant
            i <= pcm@.len(),
            pending@ == before + pcm@.take(i as int),
        decreases pcm@.len() - i,
    {
        pending.push(pcm[i]);
        proof {
            assert(pending@ =~= before + pcm@.take(i + 1));
        }
        i = i + 1;
    }
    proof {
        assert(pcm@.take(pcm@.len() as int) =~= pcm@);
    }
}

/// `samples` at exactly `len`: cut, or padded with `silence`.
pub open spec fn resized<T>(samples: Seq<T>, len: nat, silence: T) -> Seq<T> {
    Seq::new(
        len,
        |i: int|
            if i < samples.len() {
                samples[i]
            } else {
                silence
            },
    )
}

/// The samples of `pending` behind the first `n`.
fn tail_of<T: Copy>(pending: &Vec<T>, n: usize) -> (rest: Vec<T>)
    requires
        n <= pending@.len(),
    ensures
        rest@ == pending@.skip(n as int),
{
    let mut rest: Vec<T> = Vec::new();
    let mut i: usize = n;
    while i < pending.len()
        invariant
            n <= i <= pending@.len(),
            rest@ == pending@.subrange(n as int, i as int),
        decreases pending@.len() - i,
    {
        rest.push(pending[i]);
        proof {
            assert(rest@ =~= pending@.subrange(n as int, i + 1));
        }
        i = i + 1;
    }
    proof {
        assert(rest@ =~= pending@.skip(n as int));
    }
    rest
}

/// What a push did: it emitted `n` frames of the pending `samples`, and either fewer samples
/// than a frame are left, or the next frame is the one that could not be encoded.
pub open spec fn pushed<T: Copy, F: Fn(&Vec<T>) -> Result<Vec<u8>, String>>(
    before: OpusFramer<T>,
    after: OpusFramer<T>,
    samples: Seq<T>,
    anchor: nat,
    encode: F,
    had: Seq<EncodedAudioChunk>,
    has: Seq<EncodedAudioChunk>,
    n: nat,
    r: Result<(), AudioEncodeError>,
) -> bool {
    &&& n * before.frame_len <= samples.len()
    &&& after.pending@ == samples.skip((n * before.frame_len) as int)
    &&& after.pending_pts@ == anchor + n * before.frame_duration@
    &&& has.len() >= had.len()
    &&& has.take(had.len() as int) == had
    &&& emitted(has.skip(had.len() as int), encode, before, samples, anchor, n)
    &&& match r {
        Ok(()) => after.pending@.len() < before.frame_len,
        Err(AudioEncodeError::Encode(why)) => after.pending@.len() >= before.frame_len && encodes(
            encode,
            nth_frame(samples, before.frame_len as nat, n as int),
            Err(why@),
        ),
        Err(_) => false,
    }
}

/// What a flush did: where something was pending, it emitted it as one frame, padded, or left the
/// padded frame pending that could not be encoded.
pub open spec fn flushed<T: Copy, F: Fn(&Vec<T>) -> Result<Vec<u8>, String>>(
    before: OpusFramer<T>,
    after: OpusFramer<T>,
    silence: T,
    encode: F,
    had: Seq<EncodedAudioChunk>,
    has: Seq<EncodedAudioChunk>,
    r: Result<(), AudioEncodeError>,
) -> bool {
    &&& before.pending@.len() == 0 ==> r is Ok && after == before && has == had
    &&& before.pending@.len() > 0 ==> {
        let frame = resized(before.pending@, before.frame_len as nat, silence);
        match r {
            Ok(()) => {
                &&& after.pending@ == Seq::<T>::empty()
                &&& after.pending_pts@ == before.pending_pts@ + before.frame_duration@
                &&& has.len() == had.len() + 1
                &&& has.drop_last() == had
                &&& has.last().frames == before.samples_per_channel
                &&& has.last().pts == before.pending_pts
                &&& encodes(encode, frame, Ok(has.last().bytes@))
            },
            Err(AudioEncodeError::Encode(why)) => {
                &&& after.pending@ == frame
                &&& after.pending_pts == before.pending_pts
                &&& has == had
                &&& encodes(encode, frame, Err(why@))
            },
            Err(_) => false,
        }
    }
}

/// Where a whole frame is left behind the first `n`, it is the `n`-th.
proof fn lemma_next_frame<T>(samples: Seq<T>, size: nat, n: nat)
    requires
        size >= 1,
        n * size <= samples.len(),
        samples.skip((n * size) as int).len() >= size,
    ensures
        (n + 1) * size == n * size + size,
        (n + 1) * size <= samples.len(),
        n + 1 <= samples.len() / size,
        samples.skip((n * size) as int).take(size as int) == nth_frame(samples, size, n as int),
{
    assert((n + 1) * size == n * size + size) by (nonlinear_arith);
    vstd::arithmetic::div_mod::lemma_div_is_ordered(
        ((n + 1) * size) as int,
        samples.len() as int,
        size as int,
    );
    vstd::arithmetic::div_mod::lemma_div_multiples_vanish((n + 1) as int, size as int);
    assert((n + 1) * size == size * (n + 1)) by (nonlinear_arith);
    assert(samples.skip((n * size) as int).take(size as int) =~= nth_frame(
        samples,
        size,
        n as int,
    ));
}

proof fn lemma_frames_flatten<T>(samples: Seq<T>, size: nat, n: nat)
    requires
        n * size <= samples.len(),
    ensures
        Seq::new(n, |k: int| nth_frame(samples, size, k)).flatten() == samples.take(
            (n * size) as int,
        ),
    decreases n,
{
    let all = Seq::new(n, |k: int| nth_frame(samples, size, k));
    if n == 0 {
        assert(all.flatten() =~= samples.take(0));
    } else {
        let m = (n - 1) as nat;
        assert(n * size == m * size + size) by (nonlinear_arith)
            requires
                n == m + 1,
        ;
        lemma_frames_flatten(samples, size, m);
        let init = Seq::new(m, |k: int| nth_frame(samples, size, k));
        assert(all =~= init.push(nth_frame(samples, size, m as int)));
        init.lemma_flatten_push(nth_frame(samples, size, m as int));
        assert(samples.take((n * size) as int) =~= samples.take((m * size) as int) + nth_frame(
            samples,
            size,
            m as int,
        ));
    }
}

/// No sample is lost, repeated or reordered: the frames that were handed to the encoder, one after
/// the other, and then what is still pending, are what was pending and then what was pushed. Each
/// frame is a whole one, and its packet carries the bytes that the encoder gave for it. `handed`
/// are the frames, and `given` what came back for them.
pub proof fn law_push_keeps_every_sample<T: Copy, F: Fn(&Vec<T>) -> Result<Vec<u8>, String>>(
    before: OpusFramer<T>,
    after: OpusFramer<T>,
    pcm: Seq<T>,
    pts: Duration,
    encode: F,
    had: Seq<EncodedAudioChunk>,
    has: Seq<EncodedAudioChunk>,
    n: nat,
    r: Result<(), AudioEncodeError>,
) -> (out: (Seq<Vec<T>>, Seq<Vec<u8>>))
    requires
        before.wf(),
        pushed(before, after, before.with(pcm), before.anchor(pts), encode, had, has, n, r),
    ensures
        ({
            let (handed, given) = out;
            &&& handed.len() == n
            &&& given.len() == n
            &&& has.len() == had.len() + n
            &&& has.take(had.len() as int) == had
            &&& handed.map_values(|frame: Vec<T>| frame@).flatten() + after.pending@
                == before.pending@ + pcm
            &&& forall|k: int|
                0 <= k < n ==> (#[trigger] handed[k])@.len() == before.frame_len && call_ensures(
                    encode,
                    (&handed[k],),
                    Ok::<Vec<u8>, String>(given[k]),
                ) && given[k]@ == has[had.len() + k].bytes@
            &&& r is Ok ==> after.pending@.len() < before.frame_len
        }),
{
    let samples = before.with(pcm);
    let size = before.frame_len as nat;
    let fresh = has.skip(had.len() as int);
    let picked = Seq::new(
        n,
        |k: int|
            choose|pair: (Vec<T>, Result<Vec<u8>, String>)|
                pair.0@ == nth_frame(samples, size, k) && #[trigger] call_ensures(
                    encode,
                    (&pair.0,),
                    pair.1,
                ) && (pair.1 matches Ok(bytes) && bytes@ == fresh[k].bytes@),
    );
    assert forall|k: int| 0 <= k < n implies (#[trigger] picked[k]).0@ == nth_frame(
        samples,
        size,
        k,
    ) && call_ensures(encode, (&picked[k].0,), picked[k].1) && (picked[k].1 matches Ok(bytes)
        && bytes@ == fresh[k].bytes@) by {
        assert(encodes(encode, nth_frame(samples, size, k), Ok(fresh[k].bytes@)));
        let (frame, out) = choose|frame: Vec<T>, out: Result<Vec<u8>, String>|
            frame@ == nth_frame(samples, size, k) && #[trigger] call_ensures(
                encode,
                (&frame,),
                out,
            ) && (out matches Ok(bytes) && bytes@ == fresh[k].bytes@);
        let pair = (frame, out);
        assert(call_ensures(encode, (&pair.0,), pair.1));
    }
    let handed = Seq::new(n, |k: int| picked[k].0);
    let given = Seq::new(n, |k: int| picked[k].1->Ok_0);
    lemma_frames_flatten(samples, size, n);
    assert(handed.map_values(|frame: Vec<T>| frame@) =~= Seq::new(
        n,
        |k: int| nth_frame(samples, size, k),
    ));
    assert(samples.take((n * size) as int) + samples.skip((n * size) as int) =~= samples);
    assert forall|k: int| 0 <= k < n implies (#[trigger] handed[k])@.len() == before.frame_len
        && call_ensures(encode, (&handed[k],), Ok::<Vec<u8>, String>(given[k])) && given[k]@
        == has[had.len() + k].bytes@ by {
        assert(picked[k].0@ == nth_frame(samples, size, k));
        assert((k + 1) * size <= n * size && (k + 1) * size == k * size + size && 0 <= k * size)
            by (nonlinear_arith)
            requires
                0 <= k < n,
        ;
        assert(fresh[k] == has[had.len() + k]);
    }
    (handed, given)
}

/// Packets are stamped without gap or overlap: each one frame after the one before it, the first
/// at the time of the first pending sample, and what is still pending one frame after the last.
/// Where nothing was pending, that first time is the pushed buffer's own.
pub proof fn law_packets_follow_on<T: Copy, F: Fn(&Vec<T>) -> Result<Vec<u8>, String>>(
    before: OpusFramer<T>,
    after: OpusFramer<T>,
    pcm: Seq<T>,
    pts: Duration,
    encode: F,
    had: Seq<EncodedAudioChunk>,
    has: Seq<EncodedAudioChunk>,
    n: nat,
    r: Result<(), AudioEncodeError>,
)
    requires
        pushed(before, after, before.with(pcm), before.anchor(pts), encode, had, has, n, r),
    ensures
        has.len() == had.len() + n,
        n > 0 && before.pending@.len() == 0 ==> has[had.len() as int].pts@ == pts@,
        n > 0 && before.pending@.len() > 0 ==> has[had.len() as int].pts@ == before.pending_pts@,
        forall|k: int|
            had.len() < k < has.len() ==> (#[trigger] has[k]).pts@ == has[k - 1].pts@
                + before.frame_duration@,
        n > 0 ==> after.pending_pts@ == has.last().pts@ + before.frame_duration@,
        n == 0 && before.pending@.len() > 0 ==> after.pending_pts@ == before.pending_pts@,
        n == 0 && before.pending@.len() == 0 ==> after.pending_pts@ == pts@,
        forall|k: int|
            had.len() <= k < has.len() ==> (#[trigger] has[k]).frames
                == before.samples_per_channel,
{
    let fresh = has.skip(had.len() as int);
    let step = before.frame_duration@;
    if n > 0 {
        assert(fresh[0] == has[had.len() as int]);
        assert(0 * step == 0) by (nonlinear_arith);
        assert(fresh[n - 1] == has.last());
        assert(n * step == (n - 1) * step + step) by (nonlinear_arith)
            requires
                n > 0,
        ;
    } else {
        assert(n * step == 0) by (nonlinear_arith)
            requires
                n == 0,
        ;
    }
    assert forall|k: int| had.len() < k < has.len() implies (#[trigger] has[k]).pts@ == has[k
        - 1].pts@ + step by {
        let j = k - had.len();
        assert(fresh[j] == has[k]);
        assert(fresh[j - 1] == has[k - 1]);
        assert(j * step == (j - 1) * step + step) by (nonlinear_arith);
    }
    assert forall|k: int| had.len() <= k < has.len() implies (#[trigger] has[k]).frames
        == before.samples_per_channel by {
        assert(fresh[k - had.len()] == has[k]);
    }
}

/// The last partial frame is not lost: a flush hands the encoder one whole frame that begins with
/// what was pending, in order, and holds nothing but silence behind it. Its packet carries the
/// bytes that came back, at the time of the first pending sample.
pub proof fn law_flush_keeps_every_sample<T: Copy, F: Fn(&Vec<T>) -> Result<Vec<u8>, String>>(
    before: OpusFramer<T>,
    after: OpusFramer<T>,
    silence: T,
    encode: F,
    had: Seq<EncodedAudioChunk>,
    has: Seq<EncodedAudioChunk>,
) -> (out: (Vec<T>, Vec<u8>))
    requires
        0 < before.pending@.len() <= before.frame_len,
        flushed(before, after, silence, encode, had, has, Ok(())),
    ensures
        ({
            let (frame, given) = out;
            &&& frame@.len() == before.frame_len
            &&& frame@.take(before.pending@.len() as int) == before.pending@
            &&& forall|i: int| before.pending@.len() <= i < frame@.len() ==> frame@[i] == silence
            &&& call_ensures(encode, (&frame,), Ok::<Vec<u8>, String>(given))
            &&& has == had.push(has.last())
            &&& has.last().bytes@ == given@
            &&& has.last().pts == before.pending_pts
            &&& has.last().frames == before.samples_per_channel
            &&& after.pending@.len() == 0
        }),
{
    let whole = resized(before.pending@, before.frame_len as nat, silence);
    let (frame, given) = choose|frame: Vec<T>, out: Result<Vec<u8>, String>|
        frame@ == whole && #[trigger] call_ensures(encode, (&frame,), out) && (out matches Ok(bytes)
            && bytes@ == has.last().bytes@);
    assert(frame@.take(before.pending@.len() as int) =~= before.pending@);
    assert(has =~= had.push(has.last()));
    (frame, given->Ok_0)
}

/// A frame lasts as long as was asked for, to the nanosecond, and holds that much of every
/// channel: a second of audio takes as many samples as the rate says.
pub proof fn law_frame_lasts_as_asked<T: Copy>(framer: OpusFramer<T>, params: AudioEncodeParams)
    requires
        framing_refusal(params) is None,
        framer.frames(params),
    ensures
        framer.frame_duration@ == params.frame_ms * 1_000_000,
        framer.samples_per_channel * 1_000 == params.sample_rate * params.frame_ms,
        params.channels == 1 ==> framer.frame_len == framer.samples_per_channel,
        params.channels == 2 ==> framer.frame_len == 2 * framer.samples_per_channel,
{
    let rate = params.sample_rate as int;
    let ms = params.frame_ms as int;
    let samples = rate * ms / 1000;
    assert(samples * 1_000 == rate * ms);
    assert(samples * 1_000_000_000 == rate * (ms * 1_000_000)) by (nonlinear_arith)
        requires
            samples * 1_000 == rate * ms,
    ;
    vstd::arithmetic::div_mod::lemma_div_multiples_vanish(ms * 1_000_000, rate);
}

/// A frame that the encoder refuses is not lost: it is the first of what is still pending, the
/// refusal is handed on in the encoder's own words, and the packets before it are kept.
pub proof fn law_refused_frame_stays_pending<T: Copy, F: Fn(&Vec<T>) -> Result<Vec<u8>, String>>(
    before: OpusFramer<T>,
    after: OpusFramer<T>,
    pcm: Seq<T>,
    pts: Duration,
    encode: F,
    had: Seq<EncodedAudioChunk>,
    has: Seq<EncodedAudioChunk>,
    n: nat,
    r: Result<(), AudioEncodeError>,
) -> (refused: (Vec<T>, String))
    requires
        before.wf(),
        pushed(before, after, before.with(pcm), before.anchor(pts), encode, had, has, n, r),
        r is Err,
    ensures
        r matches Err(AudioEncodeError::Encode(why)) && refused.1@ == why@,
        after.pending@.len() >= before.frame_len,
        refused.0@ == after.pending@.take(before.frame_len as int),
        call_ensures(encode, (&refused.0,), Err::<Vec<u8>, String>(refused.1)),
        has.take(had.len() as int) == had,
{
    let samples = before.with(pcm);
    let size = before.frame_len as nat;
    match r {
        Err(AudioEncodeError::Encode(why)) => {
            let want = nth_frame(samples, size, n as int);
            let (frame, out) = choose|frame: Vec<T>, out: Result<Vec<u8>, String>|
                frame@ == want && #[trigger] call_ensures(encode, (&frame,), out) && match (
                    out,
                    Err::<Seq<u8>, Seq<char>>(why@),
                ) {
                    (Ok(a), Ok(b)) => a@ == b,
                    (Err(a), Err(b)) => a@ == b,
                    _ => false,
                };
            lemma_next_frame(samples, size, n);
            assert(want =~= after.pending@.take(size as int));
            (frame, out->Err_0)
        },
        _ => (arbitrary(), arbitrary()),
    }
}

/// A framer keeps the frame size that it was made with.
pub proof fn law_frame_size_stays<T: Copy>(before: OpusFramer<T>, after: OpusFramer<T>)
    requires
        after.same_shape(before),
    ensures
        after.samples_per_channel == before.samples_per_channel,
        after.frame_len == before.frame_len,
        after.frame_duration@ == before.frame_duration@,
{
}

} // verus!
