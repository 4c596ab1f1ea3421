//! Software (CPU) H.264 encoder core, backed by libopenh264.
//!
//! Produces the stream shape the ring buffer and muxer require: Annex-B bytes, inline SPS/PPS
//! before every IDR, and a correct keyframe flag, so that a clip cut from the buffer is
//! self-decodable. It takes I420 planes in host memory.

use crate::clock::Duration;
use crate::encode::{EncodeError, EncodeParams, EncodedChunk};
use crate::nal::{carries, code_at, codes, first_of_type, lemma_carries, lemma_codes};
use crate::nal::{lemma_codes_complete, only_padding};
use crate::nal::{push_bytes, push_start_code, start_code, start_codes, trimmed_end};
use crate::nal::{type_behind, unit_at, unit_end, NAL_PPS, NAL_SPS};
use openh264::encoder::{BitRate, Encoder, EncoderConfig, FrameRate, IntraFramePeriod};
use openh264::encoder::{RateControlMode, SpsPpsStrategy, UsageType, VuiConfig};
use openh264::OpenH264API;
use vstd::prelude::*;

verus! {

/// Borrowed I420 (planar YUV 4:2:0) planes for one frame.
///
/// Planes are tightly packed: `y` is `width * height`, `u` and `v` are each
/// `(width / 2) * (height / 2)`. `width` and `height` must be even.
pub struct I420Frame<'a> {
    /// Luma plane, row-major, stride `width`.
    pub y: &'a [u8],
    /// Cb (blue-difference) chroma plane, stride `width / 2`.
    pub u: &'a [u8],
    /// Cr (red-difference) chroma plane, stride `width / 2`.
    pub v: &'a [u8],
    /// Frame width in pixels (even).
    pub width: u32,
    /// Frame height in pixels (even).
    pub height: u32,
}

impl<'a> I420Frame<'a> {
    /// Whether each plane holds as many bytes as the dimensions ask for.
    pub open spec fn packed(self) -> bool {
        &&& self.y@.len() == self.height * self.width
        &&& self.u@.len() == (self.height / 2) * (self.width / 2)
        &&& self.v@.len() == (self.height / 2) * (self.width / 2)
    }

    /// That this frame, stamped `millis`, is handed to an encoder.
    pub open spec fn handed_over(self, millis: nat) -> Request {
        Request::Frame {
            y: self.y@,
            u: self.u@,
            v: self.v@,
            width: self.width as nat,
            height: self.height as nat,
            millis,
        }
    }
}

/// Every other byte of `s`, beginning with the one at `first`.
pub open spec fn every_other(s: Seq<u8>, first: int) -> Seq<u8> {
    Seq::new(s.len() / 2, |i: int| s[2 * i + first])
}

/// Deinterleave an NV12 UV plane (`U,V,U,V,…`) into separate U and V planes, reusing the
/// destination buffers' allocations. A last odd byte is dropped.
pub fn deinterleave_uv(uv: &[u8], u: &mut Vec<u8>, v: &mut Vec<u8>)
    ensures
        final(u)@ == every_other(uv@, 0),
        final(v)@ == every_other(uv@, 1),
{
    u.clear();
    v.clear();
    let n: usize = uv.len() / 2;
    let mut i: usize = 0;
    while i < n
        invariant
            n == uv@.len() / 2,
            2 * n <= uv.len(),
            i <= n,
            u@ == every_other(uv@, 0).take(i as int),
            v@ == every_other(uv@, 1).take(i as int),
        decreases n - i,
    {
        u.push(uv[2 * i]);
        v.push(uv[2 * i + 1]);
        proof {
            assert(u@ =~= every_other(uv@, 0).take(i + 1));
            assert(v@ =~= every_other(uv@, 1).take(i + 1));
        }
        i = i + 1;
    }
    proof {
        assert(u@ =~= every_other(uv@, 0));
        assert(v@ =~= every_other(uv@, 1));
    }
}

/// `nal_unit_type` of the NAL beginning at start code `sc`.
fn nal_type_at(data: &[u8], sc: usize) -> (r: Option<u8>)
    requires
        sc + 3 <= data.len(),
    ensures
        r == type_behind(data@, sc as int),
{
    if sc + 3 < data.len() {
        Some(data[sc + 3] & 0x1f)
    } else {
        None
    }
}

/// The first of the start codes `starts` with a NAL unit of type `nal_type`.
pub fn find_of_type(data: &[u8], starts: &Vec<usize>, nal_type: u8) -> (r: Option<usize>)
    requires
        starts@.map_values(|i: usize| i as int) == codes(data@, 0),
    ensures
        match r {
            Some(k) => k < starts.len() && first_of_type(data@, codes(data@, 0), nal_type, 0)
                == Some(k as int),
            None => first_of_type(data@, codes(data@, 0), nal_type, 0) is None,
        },
{
    let ghost all = codes(data@, 0);
    proof {
        lemma_codes(data@, 0);
    }
    let mut k: usize = 0;
    while k < starts.len()
        invariant
            k <= starts.len(),
            all == codes(data@, 0),
            starts@.map_values(|i: usize| i as int) == all,
            crate::nal::ordered_codes(data@, 0, all),
            first_of_type(data@, all, nal_type, 0) == first_of_type(data@, all, nal_type, k as int),
        decreases starts.len() - k,
    {
        proof {
            assert(all[k as int] == starts@[k as int] as int);
        }
        match nal_type_at(data, starts[k]) {
            Some(t) => if t == nal_type {
                return Some(k);
            },
            None => {},
        }
        k = k + 1;
    }
    None
}

/// Whether an Annex-B stream contains a NAL of the given type.
pub fn contains_nal(data: &[u8], nal_type: u8) -> (r: bool)
    ensures
        r == carries(data@, nal_type),
{
    let starts = start_codes(data);
    find_of_type(data, &starts, nal_type).is_some()
}

/// The first NAL unit of type `t`, behind a four-byte start code.
pub open spec fn extracted(data: Seq<u8>, t: u8) -> Option<Seq<u8>> {
    match first_of_type(data, codes(data, 0), t, 0) {
        Some(k) => Some(start_code() + unit_at(data, codes(data, 0), k)),
        None => None,
    }
}

/// Extract the first NAL of `nal_type` as start code and payload, trailing zero bytes
/// trimmed (RBSP always ends in a non-zero stop bit, so this only sheds the next start
/// code's leading padding).
pub fn extract_nal(data: &[u8], nal_type: u8) -> (r: Option<Vec<u8>>)
    ensures
        match r {
            Some(nal) => extracted(data@, nal_type) == Some(nal@),
            None => extracted(data@, nal_type) is None,
        },
{
    let starts = start_codes(data);
    match find_of_type(data, &starts, nal_type) {
        Some(k) => {
            let ghost all = codes(data@, 0);
            proof {
                lemma_codes(data@, 0);
                assert(all[k as int] == starts@[k as int] as int);
                if k + 1 < all.len() {
                    assert(all[k + 1] == starts@[k + 1] as int);
                }
            }
            let size: usize = data.len();
            let from: usize = starts[k] + 3;
            let to: usize = if k + 1 < starts.len() {
                starts[k + 1]
            } else {
                size
            };
            let end: usize = trimmed_end(data, from, to);
            let mut out: Vec<u8> = Vec::new();
            push_start_code(&mut out);
            push_bytes(&mut out, data, from, end);
            proof {
                assert(out@ =~= start_code() + unit_at(data@, all, k as int));
            }
            Some(out)
        },
        None => None,
    }
}

/// An IDR access unit with parameter sets: as it is where both are inline, else behind the
/// given ones.
pub open spec fn with_parameter_sets(bytes: Seq<u8>, sps: Seq<u8>, pps: Seq<u8>) -> Seq<u8> {
    if carries(bytes, NAL_SPS) && carries(bytes, NAL_PPS) {
        bytes
    } else {
        sps + pps + bytes
    }
}

/// If `bytes` (an IDR access unit) is missing SPS or PPS, prepend the cached ones so a clip
/// starting here is self-decodable. A no-op when both are already inline.
pub fn ensure_parameter_sets(bytes: Vec<u8>, sps: &[u8], pps: &[u8]) -> (r: Vec<u8>)
    ensures
        r@ == with_parameter_sets(bytes@, sps@, pps@),
{
    if contains_nal(bytes.as_slice(), NAL_SPS) && contains_nal(bytes.as_slice(), NAL_PPS) {
        return bytes;
    }
    let mut out: Vec<u8> = Vec::new();
    push_bytes(&mut out, sps, 0, sps.len());
    push_bytes(&mut out, pps, 0, pps.len());
    push_bytes(&mut out, bytes.as_slice(), 0, bytes.len());
    proof {
        assert(out@ =~= sps@ + pps@ + bytes@);
    }
    out
}

/// Whether `set` is a NAL unit of type `t` behind a four-byte start code.
pub open spec fn is_set(set: Seq<u8>, t: u8) -> bool {
    &&& set.len() > 4
    &&& set.take(4) == start_code()
    &&& set[4] & 0x1f == t
}

/// Where both cached parameter sets are known, every keyframe leaves with an SPS and a PPS.
pub proof fn law_keyframe_carries_parameter_sets(bytes: Seq<u8>, sps: Seq<u8>, pps: Seq<u8>)
    requires
        is_set(sps, NAL_SPS),
        is_set(pps, NAL_PPS),
    ensures
        carries(with_parameter_sets(bytes, sps, pps), NAL_SPS),
        carries(with_parameter_sets(bytes, sps, pps), NAL_PPS),
{
    if !(carries(bytes, NAL_SPS) && carries(bytes, NAL_PPS)) {
        let out = sps + pps + bytes;
        let n = sps.len() as int;
        assert(sps.take(4)[0] == 0 && sps.take(4)[1] == 0 && sps.take(4)[2] == 0 && sps.take(4)[3]
            == 1);
        assert(pps.take(4)[0] == 0 && pps.take(4)[1] == 0 && pps.take(4)[2] == 0 && pps.take(4)[3]
            == 1);
        assert(out[1] == 0 && out[2] == 0 && out[3] == 1 && out[4] == sps[4]);
        assert(out[n + 1] == 0 && out[n + 2] == 0 && out[n + 3] == 1 && out[n + 4] == pps[4]);
        lemma_carries(out, NAL_SPS, 1);
        lemma_carries(out, NAL_PPS, n + 1);
    }
}

/// A non-empty NAL unit that was extracted from a stream is a parameter set of its type.
pub proof fn law_extracted_is_set(data: Seq<u8>, t: u8)
    requires
        t != 0,
    ensures
        extracted(data, t) matches Some(set) ==> is_set(set, t),
{
    let starts = codes(data, 0);
    match first_of_type(data, starts, t, 0) {
        Some(k) => {
            lemma_first_of_type(data, starts, t, 0);
            lemma_codes(data, 0);
            let from = starts[k] + 3;
            let end = unit_end(data, starts, k);
            let raw = data.subrange(from, end);
            assert(0u8 & 0x1f == 0) by (bit_vector);
            assert(from < end) by {
                if k + 1 < starts.len() && starts[k + 1] == from {
                    assert(code_at(data, from));
                }
            }
            assert(raw[0] == data[from]);
            lemma_trim_keeps_head(raw);
            let set = start_code() + unit_at(data, starts, k);
            assert(set.take(4) =~= start_code());
        },
        None => {},
    }
}

proof fn lemma_first_of_type(data: Seq<u8>, starts: Seq<int>, t: u8, from: int)
    requires
        0 <= from,
    ensures
        first_of_type(data, starts, t, from) matches Some(k) ==> from <= k < starts.len()
            && type_behind(data, starts[k]) == Some(t),
    decreases starts.len() - from,
{
    if from < starts.len() && type_behind(data, starts[from]) != Some(t) {
        lemma_first_of_type(data, starts, t, from + 1);
    }
}

proof fn lemma_trim_keeps_head(s: Seq<u8>)
    requires
        s.len() > 0,
        s[0] != 0,
    ensures
        crate::nal::trim_zeros(s).len() > 0,
        crate::nal::trim_zeros(s)[0] == s[0],
    decreases s.len(),
{
    if s.last() == 0 {
        lemma_trim_keeps_head(s.drop_last());
    }
}

/// The parameter sets (each behind a start code) last seen in the stream, so that they precede
/// every IDR even if the encoder stops re-emitting them on later IDRs.
pub struct ParameterSets {
    /// The last sequence parameter set; empty before the first.
    pub sps: Vec<u8>,
    /// The last picture parameter set; empty before the first.
    pub pps: Vec<u8>,
}

/// The parameter set of type `t` that is known once `bytes` has gone by.
pub open spec fn remembered(bytes: Seq<u8>, t: u8, known: Seq<u8>) -> Seq<u8> {
    match extracted(bytes, t) {
        Some(set) => set,
        None => known,
    }
}

/// What becomes of one access unit `bytes` of the encoder: parameter sets in it are remembered,
/// and a keyframe leaves with both inline.
pub open spec fn completed(
    bytes: Seq<u8>,
    before: ParameterSets,
    after: ParameterSets,
    chunk: EncodedChunk,
) -> bool {
    &&& bytes.len() > 0
    &&& after.sps@ == remembered(bytes, NAL_SPS, before.sps@)
    &&& after.pps@ == remembered(bytes, NAL_PPS, before.pps@)
    &&& chunk.bytes@ == if chunk.is_keyframe {
        with_parameter_sets(bytes, after.sps@, after.pps@)
    } else {
        bytes
    }
}

/// Whether each parameter set is either not known yet or a whole one of its type.
pub open spec fn whole(sets: ParameterSets) -> bool {
    &&& sets.sps@.len() == 0 || is_set(sets.sps@, NAL_SPS)
    &&& sets.pps@.len() == 0 || is_set(sets.pps@, NAL_PPS)
}

/// Every keyframe can start a clip: once an SPS and a PPS have gone by, in it or before it, it
/// leaves with both.
pub proof fn law_completed_keyframe_carries_parameter_sets(
    bytes: Seq<u8>,
    before: ParameterSets,
    after: ParameterSets,
    chunk: EncodedChunk,
)
    requires
        whole(before),
        completed(bytes, before, after, chunk),
        chunk.is_keyframe,
        after.sps@.len() > 0,
        after.pps@.len() > 0,
    ensures
        whole(after),
        carries(chunk.bytes@, NAL_SPS),
        carries(chunk.bytes@, NAL_PPS),
{
    law_extracted_is_set(bytes, NAL_SPS);
    law_extracted_is_set(bytes, NAL_PPS);
    law_keyframe_carries_parameter_sets(bytes, after.sps@, after.pps@);
}

/// No picture data is lost: every chunk ends with all the bytes of the access unit that the encoder
/// gave, and is never empty. A delta frame is exactly those bytes, and so is a keyframe that
/// carries both parameter sets itself; before any other keyframe stand the remembered ones.
pub proof fn law_no_picture_data_is_lost(
    bytes: Seq<u8>,
    before: ParameterSets,
    after: ParameterSets,
    chunk: EncodedChunk,
)
    requires
        completed(bytes, before, after, chunk),
    ensures
        bytes.len() > 0,
        chunk.bytes@.len() >= bytes.len(),
        chunk.bytes@.skip(chunk.bytes@.len() - bytes.len()) == bytes,
        !chunk.is_keyframe ==> chunk.bytes@ == bytes,
        carries(bytes, NAL_SPS) && carries(bytes, NAL_PPS) ==> chunk.bytes@ == bytes,
        chunk.is_keyframe && chunk.bytes@ != bytes ==> chunk.bytes@ == after.sps@ + after.pps@
            + bytes,
{
    assert(chunk.bytes@.skip(chunk.bytes@.len() - bytes.len()) =~= bytes);
}

/// What is remembered is what the stream last said: the first SPS (and PPS) of an access unit that
/// carries one, byte for byte behind a start code, and else what was known before. `at` is where
/// the start code of the SPS stands in the access unit, and that of the PPS.
pub proof fn law_newest_parameter_sets_are_remembered(
    bytes: Seq<u8>,
    before: ParameterSets,
    after: ParameterSets,
    chunk: EncodedChunk,
) -> (at: (int, int))
    requires
        completed(bytes, before, after, chunk),
    ensures
        !carries(bytes, NAL_SPS) ==> after.sps@ == before.sps@,
        !carries(bytes, NAL_PPS) ==> after.pps@ == before.pps@,
        carries(bytes, NAL_SPS) ==> stands_at(bytes, NAL_SPS, at.0, after.sps@),
        carries(bytes, NAL_PPS) ==> stands_at(bytes, NAL_PPS, at.1, after.pps@),
{
    let a = if carries(bytes, NAL_SPS) {
        law_extracted_stands_in_stream(bytes, NAL_SPS)
    } else {
        0
    };
    let b = if carries(bytes, NAL_PPS) {
        law_extracted_stands_in_stream(bytes, NAL_PPS)
    } else {
        0
    };
    (a, b)
}

/// Whether `set` is the NAL unit behind the start code at `at`, the first one of type `t` in
/// `data`, behind a four-byte start code: it runs up to the next start code or the end of the
/// data, but for zero bytes before that.
pub open spec fn stands_at(data: Seq<u8>, t: u8, at: int, set: Seq<u8>) -> bool {
    let unit = set.skip(4);
    let end = at + 3 + unit.len();
    &&& 0 <= at
    &&& set.len() > 4
    &&& set.take(4) == seq![0u8, 0u8, 0u8, 1u8]
    &&& code_at(data, at)
    &&& end <= data.len()
    &&& unit == data.subrange(at + 3, end)
    &&& unit[0] & 0x1f == t
    &&& unit.last() != 0
    &&& forall|i: int| at < i && i + 3 <= end ==> !#[trigger] code_at(data, i)
    &&& forall|i: int|
        0 <= i < at && i + 3 < data.len() && #[trigger] code_at(data, i) ==> data[i + 3] & 0x1f
            != t
    &&& exists|next: int| #[trigger] only_padding(data, end, next)
}

/// A NAL unit that was extracted from a stream stands in it: it is the first one of its type, whole
/// and byte for byte.
pub proof fn law_extracted_stands_in_stream(data: Seq<u8>, t: u8) -> (at: int)
    requires
        t != 0,
        carries(data, t),
    ensures
        extracted(data, t) is Some,
        stands_at(data, t, at, extracted(data, t)->0),
{
    let starts = codes(data, 0);
    let k = first_of_type(data, starts, t, 0)->0;
    let at = starts[k];
    let set = extracted(data, t)->0;
    law_extracted_is_set(data, t);
    lemma_first_of_type(data, starts, t, 0);
    lemma_none_of_type_before(data, starts, t, 0);
    lemma_codes(data, 0);
    let next = unit_end(data, starts, k);
    let raw = data.subrange(at + 3, next);
    let unit = unit_at(data, starts, k);
    let end = at + 3 + unit.len();
    assert(code_at(data, at));
    if k + 1 < starts.len() {
        assert(code_at(data, starts[k + 1]));
        assert(starts[k] + 3 <= starts[k + 1]);
    }
    crate::nal::lemma_trim_zeros_cuts_zeros(raw);
    assert(set.skip(4) =~= unit);
    assert(set.take(4) =~= seq![0u8, 0u8, 0u8, 1u8]);
    assert(unit =~= data.subrange(at + 3, end)) by {
        assert(raw.take(unit.len() as int) =~= data.subrange(at + 3, end));
    }
    assert(set[4] == unit[0]);
    assert forall|i: int| at < i && i + 3 <= end implies !#[trigger] code_at(data, i) by {
        if code_at(data, i) {
            lemma_codes_complete(data, 0, i);
            let m = choose|m: int| 0 <= m < starts.len() && starts[m] == i;
            if m < k {
                assert(starts[m] + 3 <= starts[k]);
            } else if m > k + 1 {
                assert(starts[k + 1] + 3 <= starts[m]);
            }
        }
    }
    assert forall|i: int| 0 <= i < at && i + 3 < data.len() && #[trigger] code_at(
        data,
        i,
    ) implies data[i + 3] & 0x1f != t by {
        lemma_codes_complete(data, 0, i);
        let m = choose|m: int| 0 <= m < starts.len() && starts[m] == i;
        if m > k {
            assert(starts[k] + 3 <= starts[m]);
        }
        assert(type_behind(data, starts[m]) != Some(t));
    }
    assert forall|i: int| end <= i < next implies data[i] == 0 by {
        assert(raw[i - at - 3] == data[i]);
    }
    assert(only_padding(data, end, next));
    at
}

proof fn lemma_none_of_type_before(data: Seq<u8>, starts: Seq<int>, t: u8, from: int)
    requires
        0 <= from,
    ensures
        first_of_type(data, starts, t, from) matches Some(k) ==> forall|m: int|
            from <= m < k ==> type_behind(data, #[trigger] starts[m]) != Some(t),
    decreases starts.len() - from,
{
    if from < starts.len() && type_behind(data, starts[from]) != Some(t) {
        lemma_none_of_type_before(data, starts, t, from + 1);
    }
}

/// An access unit carries a NAL unit type exactly where some start code in it stands before a byte
/// that says so.
pub proof fn law_carries_is_found_behind_a_code(data: Seq<u8>, t: u8)
    ensures
        carries(data, t) <==> exists|i: int|
            0 <= i && i + 3 < data.len() && #[trigger] code_at(data, i) && data[i + 3] & 0x1f == t,
{
    let starts = codes(data, 0);
    if carries(data, t) {
        lemma_first_of_type(data, starts, t, 0);
        lemma_codes(data, 0);
        let k = first_of_type(data, starts, t, 0)->0;
        assert(code_at(data, starts[k]));
    }
    if exists|i: int|
        0 <= i && i + 3 < data.len() && #[trigger] code_at(data, i) && data[i + 3] & 0x1f == t {
        let i = choose|i: int|
            0 <= i && i + 3 < data.len() && #[trigger] code_at(data, i) && data[i + 3] & 0x1f == t;
        lemma_carries(data, t, i);
    }
}

/// Splitting a chroma plane loses nothing: putting the two halves back together, byte by byte,
/// gives the plane.
pub proof fn law_split_planes_interleave_back(uv: Seq<u8>)
    requires
        uv.len() % 2 == 0,
    ensures
        every_other(uv, 0).len() == uv.len() / 2,
        every_other(uv, 1).len() == uv.len() / 2,
        uv == Seq::new(
            uv.len(),
            |i: int|
                if i % 2 == 0 {
                    every_other(uv, 0)[i / 2]
                } else {
                    every_other(uv, 1)[i / 2]
                },
        ),
{
    let back = Seq::new(
        uv.len(),
        |i: int|
            if i % 2 == 0 {
                every_other(uv, 0)[i / 2]
            } else {
                every_other(uv, 1)[i / 2]
            },
    );
    assert(uv =~= back);
}

impl ParameterSets {
    /// No parameter set seen yet.
    pub fn new() -> (r: Self)
        ensures
            r.sps@ == Seq::<u8>::empty(),
            r.pps@ == Seq::<u8>::empty(),
            whole(r),
    {
        ParameterSets { sps: Vec::new(), pps: Vec::new() }
    }

    /// Turn one access unit of the encoder into a chunk: parameter sets in it are remembered,
    /// and a keyframe leaves with both inline. An empty access unit is an error.
    pub fn complete(&mut self, bytes: Vec<u8>, is_keyframe: bool, pts: Duration) -> (r: Result<
        EncodedChunk,
        EncodeError,
    >)
        ensures
            match r {
                Ok(chunk) => completed(bytes@, *old(self), *final(self), chunk) && chunk.is_keyframe
                    == is_keyframe && chunk.pts == pts,
                Err(e) => bytes@.len() == 0 && *final(self) == *old(self) && e.is_encode(
                    "encoder produced no output"@,
                ),
            },
            whole(*old(self)) ==> whole(*final(self)),
            r matches Ok(chunk) ==> chunk.bytes@.len() >= bytes@.len() && chunk.bytes@.skip(
                chunk.bytes@.len() - bytes@.len(),
            ) == bytes@,
    {
        let ghost given = bytes@;
        proof {
            law_extracted_is_set(bytes@, NAL_SPS);
            law_extracted_is_set(bytes@, NAL_PPS);
        }
        if bytes.len() == 0 {
            return Err(EncodeError::Encode("encoder produced no output".to_owned()));
        }
        match extract_nal(bytes.as_slice(), NAL_SPS) {
            Some(sps) => {
                self.sps = sps;
            },
            None => {},
        }
        match extract_nal(bytes.as_slice(), NAL_PPS) {
            Some(pps) => {
                self.pps = pps;
            },
            None => {},
        }
        let bytes = if is_keyframe {
            ensure_parameter_sets(bytes, self.sps.as_slice(), self.pps.as_slice())
        } else {
            bytes
        };
        proof {
            assert(bytes@.skip(bytes@.len() - given.len()) =~= given);
        }
        Ok(EncodedChunk { bytes, is_keyframe, pts })
    }
}

/// An encoder of libopenh264.
#[verifier::external_type_specification]
#[verifier::external_body]
pub struct ExOpenh264Encoder(openh264::encoder::Encoder);

/// An error of libopenh264's binding.
#[verifier::external_type_specification]
#[verifier::external_body]
pub struct ExOpenh264Error(openh264::Error);

/// What an encoder holds steady.
#[derive(Debug, Clone, Copy, PartialEq, Eq, Structural)]
pub enum RateControl {
    /// The quality.
    Quality,
    /// The bitrate.
    Bitrate,
}

/// What an encoder is tuned for.
#[derive(Debug, Clone, Copy, PartialEq, Eq, Structural)]
pub enum Usage {
    /// Camera video, in real time.
    Camera,
    /// Screen content, in real time.
    Screen,
}

/// How an encoder numbers its parameter sets.
#[derive(Debug, Clone, Copy, PartialEq, Eq, Structural)]
pub enum SetIds {
    /// The ids stay the same.
    Constant,
    /// The ids go up with each IDR.
    Increasing,
}

/// The colours that a stream is marked with, in limited range.
#[derive(Debug, Clone, Copy, PartialEq, Eq, Structural)]
pub enum Colours {
    /// BT.601, as in SD video.
    Bt601,
    /// BT.709, as in HD video.
    Bt709,
}

/// How an encoder is set up, apart from its rate and its GOP.
#[derive(Debug, Clone, Copy, PartialEq, Eq, Structural)]
pub struct EncoderSetup {
    /// What it holds steady.
    pub rate_control: RateControl,
    /// Whether it may skip frames to meet its rate.
    pub skip_frames: bool,
    /// What it is tuned for.
    pub usage: Usage,
    /// How it numbers its parameter sets.
    pub set_ids: SetIds,
    /// How many threads it runs; as many as it sees fit where this is 0.
    pub threads: u16,
    /// The colours it marks its stream with.
    pub colours: Colours,
}

/// The setup for recordings: a steady bitrate and no frame skipping (the ring buffer wants a
/// chunk per captured frame), tuned for screen content.
pub open spec fn recording() -> EncoderSetup {
    EncoderSetup {
        rate_control: RateControl::Bitrate,
        skip_frames: false,
        usage: Usage::Screen,
        set_ids: SetIds::Constant,
        threads: 0,
        colours: Colours::Bt709,
    }
}

/// One thing that was asked of an encoder.
pub enum Request {
    /// It was opened for this rate and this GOP.
    Open { bitrate_bps: nat, framerate: nat, idr_period: nat, setup: EncoderSetup },
    /// The next frame is to be an IDR.
    Intra,
    /// A frame was handed over.
    Frame { y: Seq<u8>, u: Seq<u8>, v: Seq<u8>, width: nat, height: nat, millis: nat },
}

/// What was asked of an encoder so far, in order.
pub uninterp spec fn asked(encoder: openh264::encoder::Encoder) -> Seq<Request>;

/// What an encoder gave for the last frame that was handed over, if it gave anything: the bytes
/// of the access unit, and whether it is an IDR.
pub uninterp spec fn given(encoder: openh264::encoder::Encoder) -> Option<(Seq<u8>, bool)>;

/// Whether a frame is larger than the encoder takes: 3840×2160, either way up.
pub open spec fn too_large(width: u32, height: u32) -> bool {
    &&& width <= i32::MAX && height <= i32::MAX
    &&& width > 3840 || height > 3840 || (width > 2160 && height > 2160)
}

/// `openh264::encoder::Encoder::with_api_config`: an encoder with an IDR every `idr_period`
/// frames, set up as `setup` says and otherwise as the binding does by default. The
/// configuration is stored and not looked at before the first frame; all that can fail is the
/// creation of the native object, and that only for want of memory. Claims that an encoder is
/// had, and that this and nothing else was asked of it.
#[verifier::external_body]
fn open_encoder(bitrate_bps: u32, framerate: u32, idr_period: u32, setup: EncoderSetup) -> (r:
    Result<openh264::encoder::Encoder, openh264::Error>)
    ensures
        r is Ok,
        r matches Ok(encoder) ==> asked(encoder) == seq![
            Request::Open {
                bitrate_bps: bitrate_bps as nat,
                framerate: framerate as nat,
                idr_period: idr_period as nat,
                setup,
            },
        ],
{
    let mode = match setup.rate_control { RateControl::Quality => RateControlMode::Quality, RateControl::Bitrate => RateControlMode::Bitrate };
    let usage = match setup.usage { Usage::Camera => UsageType::CameraVideoRealTime, Usage::Screen => UsageType::ScreenContentRealTime };
    let ids = match setup.set_ids { SetIds::Constant => SpsPpsStrategy::ConstantId, SetIds::Increasing => SpsPpsStrategy::IncreasingId };
    let vui = match setup.colours { Colours::Bt601 => VuiConfig::bt601(), Colours::Bt709 => VuiConfig::bt709() };
    let config = EncoderConfig::new()
        .bitrate(BitRate::from_bps(bitrate_bps))
        .max_frame_rate(FrameRate::from_hz(framerate as _))
        .intra_frame_period(IntraFramePeriod::from_num_frames(idr_period))
        .rate_control_mode(mode).skip_frames(setup.skip_frames)
        .usage_type(usage).sps_pps_strategy(ids)
        .num_threads(setup.threads).vui(vui);
    Encoder::with_api_config(OpenH264API::from_source(), config)
}

/// `openh264::encoder::Encoder::force_intra_frame`: the next frame is encoded as an IDR. Claims
/// that this was asked of the encoder too; what comes of it, [`encode_frame`] says.
pub assume_specification[ openh264::encoder::Encoder::force_intra_frame ](
    encoder: &mut openh264::encoder::Encoder,
)
    ensures
        asked(*final(encoder)) == asked(*old(encoder)).push(Request::Intra),
;

/// `openh264::encoder::Encoder::encode_at` on one I420 frame stamped in milliseconds: the bytes
/// of the access unit and whether it is an IDR.
///
/// Claims that the frame was handed over, that what is returned is what the encoder gave for it
/// (the encoder keeps it until the next frame), that a frame above the library's largest size is
/// refused, and that an access unit is an IDR where one was asked for. Which bytes an encoder
/// makes of a frame is left unsaid, as is what else it refuses: both take the whole of H.264
/// encoding to state, over all the frames before. `YUVSlices::new` panics on planes of the wrong
/// size, and the timestamp must fit a signed 64-bit number.
#[verifier::external_body]
fn encode_frame(encoder: &mut openh264::encoder::Encoder, frame: &I420Frame, millis: u64) -> (r:
    Result<(Vec<u8>, bool), openh264::Error>)
    requires
        frame.packed(),
        millis <= i64::MAX,
    ensures
        asked(*final(encoder)) == asked(*old(encoder)).push(frame.handed_over(millis as nat)),
        given(*final(encoder)) == match r {
            Ok((bytes, is_idr)) => Some((bytes@, is_idr)),
            Err(_) => None,
        },
        too_large(frame.width, frame.height) ==> r is Err,
        asked(*old(encoder)).len() > 0 && asked(*old(encoder)).last() is Intra ==> (r matches Ok(
            (bytes, is_idr),
        ) ==> bytes@.len() > 0 ==> is_idr),
{
    let (w, h) = (frame.width as usize, frame.height as usize);
    let planes = (frame.y, frame.u, frame.v);
    let slices = openh264::formats::YUVSlices::new(planes, (w, h), (w, w / 2, w / 2));
    let stamp = openh264::Timestamp::from_millis(millis);
    encoder.encode_at(&slices, stamp).map(
        |bits| (bits.to_vec(), bits.frame_type() == openh264::encoder::FrameType::IDR),
    )
}

/// The text of an `openh264::Error`, as its `Display` writes it. It names native error codes,
/// of which nothing is claimed.
#[verifier::external_body]
fn error_text(error: &openh264::Error) -> (r: String) {
    error.to_string()
}

/// Why the encoder refuses `params`, if it does.
pub open spec fn refusal(params: EncodeParams) -> Option<Seq<char>> {
    if params.width == 0 || params.height == 0 {
        Some("width and height must be > 0"@)
    } else if params.width % 2 != 0 || params.height % 2 != 0 {
        Some("width and height must be even for I420"@)
    } else if params.idr_period == 0 {
        Some("idr_period must be > 0"@)
    } else {
        None
    }
}

/// Rejects zero/odd dimensions and a zero GOP, mirroring the GPU backend's up-front validation.
pub fn validate(params: EncodeParams) -> (r: Result<(), EncodeError>)
    ensures
        match refusal(params) {
            Some(why) => r matches Err(e) && e.is_init(why),
            None => r is Ok,
        },
{
    if params.width == 0 || params.height == 0 {
        return Err(EncodeError::Init("width and height must be > 0".to_owned()));
    }
    if params.width % 2 != 0 || params.height % 2 != 0 {
        return Err(EncodeError::Init("width and height must be even for I420".to_owned()));
    }
    if params.idr_period == 0 {
        return Err(EncodeError::Init("idr_period must be > 0".to_owned()));
    }
    Ok(())
}

/// libopenh264 stamps timestamps in whole milliseconds; the exact timestamp still rides on
/// the returned chunk, so this millisecond value only feeds the encoder's internal pacing.
pub fn timestamp_from(pts: Duration) -> (millis: u64)
    ensures
        millis == if pts@ / 1_000_000 <= u64::MAX {
            pts@ / 1_000_000
        } else {
            u64::MAX as nat
        },
{
    let millis: u128 = pts.as_millis();
    if millis <= u64::MAX as u128 {
        millis as u64
    } else {
        u64::MAX
    }
}

/// CPU H.264 encoder. Consumes I420 frames, emits [`EncodedChunk`]s the ring buffer can cut.
pub struct SoftwareEncoder {
    inner: openh264::encoder::Encoder,
    params: EncodeParams,
    sets: ParameterSets,
}

impl SoftwareEncoder {
    /// The parameters the encoder was configured with.
    pub closed spec fn configured(self) -> EncodeParams {
        self.params
    }

    /// The parameter sets that the encoder has emitted so far.
    pub closed spec fn seen(self) -> ParameterSets {
        self.sets
    }

    /// What was asked of libopenh264 so far.
    pub closed spec fn requests(self) -> Seq<Request> {
        asked(self.inner)
    }

    /// What libopenh264 gave for the last frame, if it gave anything: the bytes of the access
    /// unit, and whether it is an IDR.
    pub closed spec fn came_back(self) -> Option<(Seq<u8>, bool)> {
        given(self.inner)
    }

    /// Configure the encoder for `params`. Rejects zero/odd dimensions and a zero GOP,
    /// mirroring the GPU backend's up-front validation, and accepts everything else.
    pub fn new(params: EncodeParams) -> (r: Result<Self, EncodeError>)
        ensures
            match refusal(params) {
                Some(why) => r matches Err(e) && e.is_init(why),
                None => r matches Ok(encoder) && {
                    &&& encoder.configured() == params
                    &&& whole(encoder.seen())
                    &&& encoder.seen().sps@ == Seq::<u8>::empty()
                    &&& encoder.seen().pps@ == Seq::<u8>::empty()
                    &&& encoder.requests() == seq![
                        Request::Open {
                            bitrate_bps: params.bitrate_bps as nat,
                            framerate: params.framerate as nat,
                            idr_period: params.idr_period as nat,
                            setup: recording(),
                        },
                    ]
                },
            },
    {
        match validate(params) {
            Ok(()) => {},
            Err(e) => {
                return Err(e);
            },
        }
        let setup = EncoderSetup {
            rate_control: RateControl::Bitrate,
            skip_frames: false,
            usage: Usage::Screen,
            set_ids: SetIds::Constant,
            threads: 0,
            colours: Colours::Bt709,
        };
        match open_encoder(params.bitrate_bps, params.framerate, params.idr_period, setup) {
            Ok(inner) => Ok(SoftwareEncoder { inner, params, sets: ParameterSets::new() }),
            Err(e) => Err(EncodeError::Init(error_text(&e))),
        }
    }

    /// The parameters this encoder was configured with.
    pub fn params(&self) -> (r: EncodeParams)
        ensures
            r == self.configured(),
    {
        self.params
    }

    /// Encode one I420 frame captured at `pts`. `force_keyframe` forces an IDR here.
    ///
    /// What libopenh264 makes of the frame is completed by [`ParameterSets::complete`]: a chunk
    /// carries `pts` verbatim, and a keyframe carries its parameter sets once they were seen. A
    /// frame above libopenh264's largest size is an error.
    pub fn encode_i420(&mut self, frame: I420Frame<'_>, force_keyframe: bool, pts: Duration) -> (r:
        Result<EncodedChunk, EncodeError>)
        requires
            frame.packed(),
            pts@ / 1_000_000 <= i64::MAX,
        ensures
            final(self).configured() == old(self).configured(),
            final(self).requests() == (if force_keyframe {
                old(self).requests().push(Request::Intra)
            } else {
                old(self).requests()
            }).push(frame.handed_over(pts@ / 1_000_000)),
            too_large(frame.width, frame.height) ==> final(self).came_back() is None,
            force_keyframe ==> (r matches Ok(chunk) ==> chunk.is_keyframe),
            whole(old(self).seen()) ==> whole(final(self).seen()),
            match final(self).came_back() {
                Some((bytes, is_idr)) => if bytes.len() == 0 {
                    r matches Err(e) && e.is_encode("encoder produced no output"@)
                        && final(self).seen() == old(self).seen()
                } else {
                    r matches Ok(chunk) && chunk.pts == pts && chunk.is_keyframe == is_idr
                        && completed(bytes, old(self).seen(), final(self).seen(), chunk)
                },
                None => r matches Err(e) && e is Encode && final(self).seen() == old(self).seen(),
            },
    {
        if force_keyframe {
            self.inner.force_intra_frame();
        }
        match encode_frame(&mut self.inner, &frame, timestamp_from(pts)) {
            Ok((bytes, is_keyframe)) => self.sets.complete(bytes, is_keyframe, pts),
            Err(e) => Err(EncodeError::Encode(error_text(&e))),
        }
    }
}

/// The encoder takes exactly the parameters of an I420 stream that can be cut: dimensions of two
/// pixels or more, both even, and an IDR every so many frames.
pub proof fn law_encodable_params_are_taken(params: EncodeParams, half_w: nat, half_h: nat)
    requires
        params.width == 2 * half_w || params.width == 2 * half_w + 1,
        params.height == 2 * half_h || params.height == 2 * half_h + 1,
    ensures
        refusal(params) is None <==> params.width == 2 * half_w && params.height == 2 * half_h
            && half_w > 0 && half_h > 0 && params.idr_period > 0,
{
}

/// The time that is handed to the encoder is the frame's, in whole milliseconds.
pub proof fn law_encoder_time_is_the_frames(pts: Duration, millis: u64)
    requires
        call_ensures(timestamp_from, (pts,), millis),
        pts@ / 1_000_000 <= u64::MAX,
    ensures
        millis * 1_000_000 <= pts@ < (millis + 1) * 1_000_000,
{
}

/// What the encoder is handed is the frame itself: its three planes, each in its own place, its
/// size and its time.
pub proof fn law_frame_is_handed_over_whole(frame: I420Frame, millis: nat)
    ensures
        frame.handed_over(millis) matches Request::Frame { y, u, v, width, height, millis: at }
            && y == frame.y@ && u == frame.u@ && v == frame.v@ && width == frame.width && height
            == frame.height && at == millis,
{
}

/// An encoder is opened once, at the bitrate, frame rate and keyframe period that were asked for,
/// to keep the bitrate without skipping frames, for screen content in BT.709, with parameter sets
/// whose ids stay the same.
pub proof fn law_encoder_is_set_for_recording(
    params: EncodeParams,
    r: Result<SoftwareEncoder, EncodeError>,
)
    requires
        call_ensures(SoftwareEncoder::new, (params,), r),
        r is Ok,
    ensures
        ({
            let requests = r->Ok_0.requests();
            &&& requests.len() == 1
            &&& requests[0] matches Request::Open { bitrate_bps, framerate, idr_period, setup }
                && bitrate_bps == params.bitrate_bps && framerate == params.framerate && idr_period
                == params.idr_period && setup.rate_control is Bitrate && !setup.skip_frames
                && setup.usage is Screen && setup.set_ids is Constant && setup.threads == 0
                && setup.colours is Bt709
        }),
{
}

} // verus!
