//! H.264 NAL units in their two byte forms.
//!
//! *Annex-B* puts a start code before every NAL unit; *AVCC*, the form in which MP4 stores
//! samples, puts the big-endian length of the NAL unit before it. A picture's bytes are
//! modelled as the sequence of its NAL units.

use vstd::prelude::*;

verus! {

/// H.264 `nal_unit_type` of a sequence parameter set.
pub const NAL_SPS: u8 = 7;

/// H.264 `nal_unit_type` of a picture parameter set.
pub const NAL_PPS: u8 = 8;

/// The four-byte start code that is written before a NAL unit.
pub open spec fn start_code() -> Seq<u8> {
    seq![0u8, 0u8, 0u8, 1u8]
}

/// The Annex-B form of `nals`.
pub open spec fn annexb(nals: Seq<Seq<u8>>) -> Seq<u8>
    decreases nals.len(),
{
    if nals.len() == 0 {
        Seq::empty()
    } else {
        annexb(nals.drop_last()) + start_code() + nals.last()
    }
}

/// The number that `bytes` spells, most significant byte first.
pub open spec fn be_value(bytes: Seq<u8>) -> nat
    decreases bytes.len(),
{
    if bytes.len() == 0 {
        0
    } else {
        be_value(bytes.drop_last()) * 256 + bytes.last() as nat
    }
}

/// The lowest four bytes of `n`, most significant first.
pub open spec fn be_bytes(n: nat) -> Seq<u8> {
    seq![
        (n / 0x1000000 % 0x100) as u8,
        (n / 0x10000 % 0x100) as u8,
        (n / 0x100 % 0x100) as u8,
        (n % 0x100) as u8,
    ]
}

/// The AVCC form of `nals`, with four-byte lengths.
pub open spec fn avcc(nals: Seq<Seq<u8>>) -> Seq<u8>
    decreases nals.len(),
{
    if nals.len() == 0 {
        Seq::empty()
    } else {
        avcc(nals.drop_last()) + be_bytes(nals.last().len()) + nals.last()
    }
}

/// Why an AVCC buffer stops being readable, and where.
pub enum AvccFault {
    /// No whole length is left at the offset.
    Prefix { offset: int },
    /// The length at the offset is zero.
    Empty { offset: int },
    /// The length at the offset is more than what is left behind it.
    Overrun { offset: int, len: int, remaining: int },
}

/// The NAL units of `data[offset..]` read as AVCC with lengths of `size` bytes, up to the
/// first fault, and that fault.
pub open spec fn avcc_units(data: Seq<u8>, size: int, offset: int) -> (
    Seq<Seq<u8>>,
    Option<AvccFault>,
)
    decreases data.len() - offset,
{
    if size <= 0 || offset >= data.len() {
        (Seq::empty(), None)
    } else if data.len() - offset < size {
        (Seq::empty(), Some(AvccFault::Prefix { offset }))
    } else {
        let len = be_value(data.subrange(offset, offset + size)) as int;
        let remaining = data.len() - offset - size;
        if len == 0 {
            (Seq::empty(), Some(AvccFault::Empty { offset }))
        } else if len > remaining {
            (Seq::empty(), Some(AvccFault::Overrun { offset, len, remaining }))
        } else {
            let rest = avcc_units(data, size, offset + size + len);
            (
                seq![data.subrange(offset + size, offset + size + len)] + rest.0,
                rest.1,
            )
        }
    }
}

/// Whether a three-byte start code stands at `i`.
pub open spec fn code_at(data: Seq<u8>, i: int) -> bool {
    data[i] == 0 && data[i + 1] == 0 && data[i + 2] == 1
}

/// The offsets of the start codes of `data[from..]`, left to right, none overlapping another.
pub open spec fn codes(data: Seq<u8>, from: int) -> Seq<int>
    decreases data.len() - from,
{
    if from + 3 > data.len() {
        Seq::empty()
    } else if code_at(data, from) {
        seq![from] + codes(data, from + 3)
    } else {
        codes(data, from + 1)
    }
}

/// Whether `starts` lists start codes of `data[from..]` in order, three bytes or more apart.
pub open spec fn ordered_codes(data: Seq<u8>, from: int, starts: Seq<int>) -> bool {
    &&& forall|k: int|
        0 <= k < starts.len() ==> from <= #[trigger] starts[k] && starts[k] + 3 <= data.len()
            && code_at(data, starts[k])
    &&& forall|j: int, k: int|
        0 <= j < k < starts.len() ==> #[trigger] starts[j] + 3 <= #[trigger] starts[k]
}

/// `s` without its trailing zero bytes.
pub open spec fn trim_zeros(s: Seq<u8>) -> Seq<u8>
    decreases s.len(),
{
    if s.len() > 0 && s.last() == 0 {
        trim_zeros(s.drop_last())
    } else {
        s
    }
}

/// Where the bytes behind the `k`-th start code end: at the next start code, or with the data.
pub open spec fn unit_end(data: Seq<u8>, starts: Seq<int>, k: int) -> int {
    if k + 1 < starts.len() {
        starts[k + 1]
    } else {
        data.len() as int
    }
}

/// The NAL unit behind the `k`-th start code: zero bytes before the next start code are
/// padding and no part of it.
pub open spec fn unit_at(data: Seq<u8>, starts: Seq<int>, k: int) -> Seq<u8> {
    trim_zeros(data.subrange(starts[k] + 3, unit_end(data, starts, k)))
}

/// The NAL units, none empty, behind the first `n` of the start codes `starts`.
pub open spec fn units_behind(data: Seq<u8>, starts: Seq<int>, n: int) -> Seq<Seq<u8>>
    decreases n,
{
    if n <= 0 {
        Seq::empty()
    } else {
        let before = units_behind(data, starts, n - 1);
        let unit = unit_at(data, starts, n - 1);
        if unit.len() > 0 {
            before.push(unit)
        } else {
            before
        }
    }
}

/// The NAL units of an Annex-B buffer.
pub open spec fn units(data: Seq<u8>) -> Seq<Seq<u8>> {
    units_behind(data, codes(data, 0), codes(data, 0).len() as int)
}

/// The type of the NAL unit behind the start code at `sc`: the low five bits of its first byte.
pub open spec fn type_behind(data: Seq<u8>, sc: int) -> Option<u8> {
    if sc + 3 < data.len() {
        Some(data[sc + 3] & 0x1f)
    } else {
        None
    }
}

/// Which of the start codes, from the `k`-th on, is the first with a NAL unit of type `t`.
pub open spec fn first_of_type(data: Seq<u8>, starts: Seq<int>, t: u8, k: int) -> Option<int>
    decreases starts.len() - k,
{
    if k >= starts.len() {
        None
    } else if type_behind(data, starts[k]) == Some(t) {
        Some(k)
    } else {
        first_of_type(data, starts, t, k + 1)
    }
}

/// Whether an Annex-B buffer carries a NAL unit of type `t`.
pub open spec fn carries(data: Seq<u8>, t: u8) -> bool {
    first_of_type(data, codes(data, 0), t, 0) is Some
}

/// Appends the four-byte start code to `out`.
pub fn push_start_code(out: &mut Vec<u8>)
    ensures
        final(out)@ == old(out)@ + start_code(),
{
    out.push(0);
    out.push(0);
    out.push(0);
    out.push(1);
    proof {
        assert(out@ =~= old(out)@ + start_code());
    }
}

/// Appends `data[from..to]` to `out`.
pub fn push_bytes(out: &mut Vec<u8>, data: &[u8], from: usize, to: usize)
    requires
        from <= to <= data.len(),
    ensures
        final(out)@ == old(out)@ + data@.subrange(from as int, to as int),
{
    out.extend_from_slice(vstd::slice::slice_subrange(data, from, to));
    proof {
        assert(out@ =~= old(out)@ + data@.subrange(from as int, to as int));
    }
}

/// Appends a NAL unit to `out` in Annex-B form.
pub fn append_nal(out: &mut Vec<u8>, nal: &[u8])
    ensures
        final(out)@ == old(out)@ + start_code() + nal@,
{
    push_start_code(out);
    push_bytes(out, nal, 0, nal.len());
    proof {
        assert(nal@.subrange(0, nal@.len() as int) =~= nal@);
    }
}

/// The number that `data[from..from + size]` spells.
pub fn read_length(data: &[u8], from: usize, size: usize) -> (len: usize)
    requires
        size <= 4,
        from + size <= data.len(),
    ensures
        len == be_value(data@.subrange(from as int, from + size)),
{
    let mut len: usize = 0;
    let mut i: usize = 0;
    let ghost prefix = data@.subrange(from as int, from + size);
    proof {
        assert(prefix.take(0) =~= Seq::<u8>::empty());
    }
    while i < size
        invariant
            i <= size <= 4,
            from + size <= data.len(),
            prefix == data@.subrange(from as int, from + size),
            len == be_value(prefix.take(i as int)),
            i == 0 ==> len == 0,
            i == 1 ==> len <= 0xff,
            i == 2 ==> len <= 0xffff,
            i == 3 ==> len <= 0xffffff,
        decreases size - i,
    {
        proof {
            assert(prefix.take(i + 1).drop_last() =~= prefix.take(i as int));
        }
        len = len * 256 + data[from + i] as usize;
        i = i + 1;
    }
    proof {
        assert(prefix.take(size as int) =~= prefix);
    }
    len
}

/// Byte offsets of every start code (`00 00 01`; of a four-byte one its last three bytes, so
/// that the NAL header stands at `offset + 3` either way).
pub fn start_codes(data: &[u8]) -> (r: Vec<usize>)
    ensures
        r@.map_values(|i: usize| i as int) == codes(data@, 0),
{
    let mut out: Vec<usize> = Vec::new();
    let mut i: usize = 0;
    proof {
        assert(out@.map_values(|i: usize| i as int) + codes(data@, 0) =~= codes(data@, 0));
    }
    while data.len() >= 3 && i <= data.len() - 3
        invariant
            i <= data.len(),
            out@.map_values(|i: usize| i as int) + codes(data@, i as int) == codes(data@, 0),
        decreases data.len() - i,
    {
        if data[i] == 0 && data[i + 1] == 0 && data[i + 2] == 1 {
            let ghost before = out@;
            out.push(i);
            proof {
                assert(out@.map_values(|i: usize| i as int) =~= before.map_values(
                    |i: usize| i as int,
                ).push(i as int));
                assert(before.map_values(|i: usize| i as int) + (seq![i as int] + codes(
                    data@,
                    i + 3,
                )) =~= out@.map_values(|i: usize| i as int) + codes(data@, i + 3));
            }
            i = i + 3;
        } else {
            i = i + 1;
        }
    }
    proof {
        assert(out@.map_values(|i: usize| i as int) + Seq::<int>::empty() =~= out@.map_values(
            |i: usize| i as int,
        ));
    }
    out
}

/// How far `data[from..to]` reaches once its trailing zero bytes are cut.
pub fn trimmed_end(data: &[u8], from: usize, to: usize) -> (end: usize)
    requires
        from <= to <= data.len(),
    ensures
        from <= end <= to,
        data@.subrange(from as int, end as int) == trim_zeros(
            data@.subrange(from as int, to as int),
        ),
{
    let mut end: usize = to;
    while end > from && data[end - 1] == 0
        invariant
            from <= end <= to <= data.len(),
            trim_zeros(data@.subrange(from as int, end as int)) == trim_zeros(
                data@.subrange(from as int, to as int),
            ),
        decreases end,
    {
        proof {
            assert(data@.subrange(from as int, end as int).drop_last() =~= data@.subrange(
                from as int,
                end - 1,
            ));
        }
        end = end - 1;
    }
    end
}

/// Start codes lie in order inside the data, three bytes or more apart.
pub proof fn lemma_codes(data: Seq<u8>, from: int)
    requires
        0 <= from,
    ensures
        ordered_codes(data, from, codes(data, from)),
    decreases data.len() - from,
{
    let here = codes(data, from);
    if from + 3 <= data.len() {
        if code_at(data, from) {
            lemma_codes(data, from + 3);
            let rest = codes(data, from + 3);
            assert(here == seq![from] + rest);
            assert forall|k: int| 0 <= k < here.len() implies from <= #[trigger] here[k] && here[k]
                + 3 <= data.len() && code_at(data, here[k]) by {
                if k > 0 {
                    assert(here[k] == rest[k - 1]);
                }
            }
            assert forall|j: int, k: int| 0 <= j < k < here.len() implies #[trigger] here[j] + 3
                <= #[trigger] here[k] by {
                assert(here[k] == rest[k - 1]);
                if j > 0 {
                    assert(here[j] == rest[j - 1]);
                }
            }
        } else {
            lemma_codes(data, from + 1);
            assert(here == codes(data, from + 1));
        }
    } else {
        assert(here =~= Seq::<int>::empty());
    }
}

/// Two start codes never overlap, so `codes` lists every one of them.
pub proof fn lemma_codes_complete(data: Seq<u8>, from: int, i: int)
    requires
        0 <= from <= i,
        i + 3 <= data.len(),
        code_at(data, i),
    ensures
        codes(data, from).contains(i),
    decreases data.len() - from,
{
    let here = codes(data, from);
    if code_at(data, from) {
        let rest = codes(data, from + 3);
        assert(here == seq![from] + rest);
        if i == from {
            assert(here[0] == i);
        } else {
            assert(data[i] == 0 && data[i + 1] == 0);
            lemma_codes_complete(data, from + 3, i);
            let k = choose|k: int| 0 <= k < rest.len() && rest[k] == i;
            assert(here[k + 1] == i);
        }
    } else {
        lemma_codes_complete(data, from + 1, i);
    }
}

/// A buffer carries a type as soon as some start code stands before a NAL unit of it.
pub proof fn lemma_carries(data: Seq<u8>, t: u8, sc: int)
    requires
        0 <= sc,
        sc + 3 < data.len(),
        code_at(data, sc),
        data[sc + 3] & 0x1f == t,
    ensures
        carries(data, t),
{
    lemma_codes_complete(data, 0, sc);
    let starts = codes(data, 0);
    let k = choose|k: int| 0 <= k < starts.len() && starts[k] == sc;
    lemma_first_of_type_reaches(data, starts, t, 0, k);
}

proof fn lemma_first_of_type_reaches(data: Seq<u8>, starts: Seq<int>, t: u8, from: int, k: int)
    requires
        0 <= from <= k < starts.len(),
        type_behind(data, starts[k]) == Some(t),
    ensures
        first_of_type(data, starts, t, from) is Some,
    decreases k - from,
{
    if type_behind(data, starts[from]) != Some(t) {
        lemma_first_of_type_reaches(data, starts, t, from + 1, k);
    }
}

/// A NAL unit as encoders write them: not empty, its last byte not zero (the RBSP stop bit),
/// and no start code inside (emulation prevention).
pub open spec fn clean_unit(unit: Seq<u8>) -> bool {
    &&& unit.len() > 0
    &&& unit.last() != 0
    &&& forall|i: int| 0 <= i && i + 3 <= unit.len() ==> !#[trigger] code_at(unit, i)
}

proof fn lemma_annexb_prefix(nals: Seq<Seq<u8>>, k: int)
    requires
        0 <= k <= nals.len(),
    ensures
        annexb(nals.take(k)).len() <= annexb(nals).len(),
        annexb(nals).subrange(0, annexb(nals.take(k)).len() as int) == annexb(nals.take(k)),
    decreases nals.len(),
{
    if k == nals.len() {
        assert(nals.take(k) =~= nals);
        assert(annexb(nals).subrange(0, annexb(nals).len() as int) =~= annexb(nals));
    } else {
        let init = nals.drop_last();
        lemma_annexb_prefix(init, k);
        assert(init.take(k) =~= nals.take(k));
        let whole = annexb(nals);
        let part = annexb(nals.take(k));
        assert(whole.subrange(0, annexb(init).len() as int) =~= annexb(init));
        assert(whole.subrange(0, part.len() as int) =~= annexb(init).subrange(
            0,
            part.len() as int,
        ));
    }
}

/// Where the `k`-th NAL unit's start code stands in the Annex-B form.
spec fn unit_pos(nals: Seq<Seq<u8>>, k: int) -> int {
    annexb(nals.take(k)).len() as int
}

/// The `k`-th NAL unit stands in the Annex-B form behind what comes before it.
proof fn lemma_annexb_at(nals: Seq<Seq<u8>>, k: int)
    requires
        0 <= k < nals.len(),
    ensures
        unit_pos(nals, k + 1) == unit_pos(nals, k) + 4 + nals[k].len(),
        unit_pos(nals, k + 1) <= annexb(nals).len(),
        annexb(nals).subrange(unit_pos(nals, k), unit_pos(nals, k) + 4) == start_code(),
        annexb(nals).subrange(unit_pos(nals, k) + 4, unit_pos(nals, k + 1)) == nals[k],
{
    let a = annexb(nals.take(k));
    let b = annexb(nals.take(k + 1));
    assert(nals.take(k + 1).drop_last() =~= nals.take(k));
    assert(b == a + start_code() + nals[k]);
    lemma_annexb_prefix(nals, k + 1);
    let whole = annexb(nals);
    assert forall|i: int| 0 <= i < b.len() implies whole[i] == b[i] by {
        assert(whole.subrange(0, b.len() as int)[i] == b[i]);
    }
    let pos = unit_pos(nals, k);
    assert(whole.subrange(pos, pos + 4) =~= start_code());
    assert(whole.subrange(pos + 4, unit_pos(nals, k + 1)) =~= nals[k]);
}

/// Where no start code stands, the search moves on.
proof fn lemma_codes_skip(data: Seq<u8>, from: int, to: int)
    requires
        0 <= from <= to <= data.len(),
        forall|i: int| from <= i < to && i + 3 <= data.len() ==> !#[trigger] code_at(data, i),
    ensures
        codes(data, from) == codes(data, to),
    decreases to - from,
{
    if from < to {
        if from + 3 <= data.len() {
            assert(!code_at(data, from));
        }
        lemma_codes_skip(data, from + 1, to);
    }
}

/// Between two start codes of clean NAL units stands no other.
proof fn lemma_codes_of_annexb(nals: Seq<Seq<u8>>, k: int)
    requires
        0 <= k <= nals.len(),
        forall|j: int| 0 <= j < nals.len() ==> clean_unit(#[trigger] nals[j]),
    ensures
        codes(annexb(nals), unit_pos(nals, k)) == Seq::new(
            (nals.len() - k) as nat,
            |j: int| unit_pos(nals, k + j) + 1,
        ),
    decreases nals.len() - k,
{
    let data = annexb(nals);
    let pos = unit_pos(nals, k);
    if k == nals.len() {
        assert(nals.take(k) =~= nals);
        assert(codes(data, pos) =~= Seq::<int>::empty());
    } else {
        lemma_annexb_at(nals, k);
        lemma_codes_of_annexb(nals, k + 1);
        let next = unit_pos(nals, k + 1);
        let unit = nals[k];
        let sc = data.subrange(pos, pos + 4);
        let body = data.subrange(pos + 4, next);
        assert(sc[0] == 0 && sc[1] == 0 && sc[2] == 0 && sc[3] == 1);
        assert(data[pos] == 0 && data[pos + 1] == 0 && data[pos + 2] == 0 && data[pos + 3] == 1);
        assert(!code_at(data, pos));
        assert(code_at(data, pos + 1));
        assert(clean_unit(unit));
        assert forall|i: int| pos + 4 <= i < next && i + 3 <= data.len() implies !#[trigger] code_at(
            data,
            i,
        ) by {
            let j = i - pos - 4;
            if i + 3 <= next {
                assert(!code_at(unit, j));
                assert(body[j] == data[i] && body[j + 1] == data[i + 1] && body[j + 2] == data[i
                    + 2]);
            } else {
                assert(k + 1 < nals.len()) by {
                    if k + 1 == nals.len() {
                        assert(nals.take(k + 1) =~= nals);
                    }
                }
                lemma_annexb_at(nals, k + 1);
                let sc2 = data.subrange(next, next + 4);
                assert(sc2[0] == 0 && sc2[1] == 0);
                assert(data[next] == 0 && data[next + 1] == 0);
                assert(body[body.len() - 1] == data[next - 1]);
                assert(data[next - 1] == unit.last());
            }
        }
        assert(codes(data, pos) == codes(data, pos + 1));
        assert(codes(data, pos + 1) == seq![pos + 1] + codes(data, pos + 4));
        lemma_codes_skip(data, pos + 4, next);
        let want = Seq::new((nals.len() - k) as nat, |j: int| unit_pos(nals, k + j) + 1);
        let rest = Seq::new((nals.len() - k - 1) as nat, |j: int| unit_pos(nals, k + 1 + j) + 1);
        assert(seq![pos + 1] + rest =~= want) by {
            assert forall|j: int| 0 <= j < want.len() implies (seq![pos + 1] + rest)[j]
                == want[j] by {
                if j > 0 {
                    assert(rest[j - 1] == unit_pos(nals, k + 1 + (j - 1)) + 1);
                    assert(k + 1 + (j - 1) == k + j);
                }
            }
        }
    }
}

/// The NAL units found in an Annex-B buffer are the ones it was written from.
pub proof fn law_annexb_read_back(nals: Seq<Seq<u8>>)
    requires
        forall|j: int| 0 <= j < nals.len() ==> clean_unit(#[trigger] nals[j]),
    ensures
        units(annexb(nals)) == nals,
{
    let data = annexb(nals);
    assert(nals.take(0) =~= Seq::<Seq<u8>>::empty());
    lemma_codes_of_annexb(nals, 0);
    let starts = codes(data, 0);
    assert(starts.len() == nals.len());
    lemma_units_of_annexb(nals, nals.len() as int);
    assert(nals.take(nals.len() as int) =~= nals);
}

proof fn lemma_units_of_annexb(nals: Seq<Seq<u8>>, n: int)
    requires
        0 <= n <= nals.len(),
        forall|j: int| 0 <= j < nals.len() ==> clean_unit(#[trigger] nals[j]),
        codes(annexb(nals), 0) == Seq::new(
            nals.len(),
            |j: int| unit_pos(nals, 0 + j) + 1,
        ),
    ensures
        units_behind(annexb(nals), codes(annexb(nals), 0), n) == nals.take(n),
    decreases n,
{
    let data = annexb(nals);
    let starts = codes(data, 0);
    if n == 0 {
        assert(nals.take(0) =~= Seq::<Seq<u8>>::empty());
    } else {
        let k = n - 1;
        lemma_units_of_annexb(nals, k);
        lemma_annexb_at(nals, k);
        let unit = nals[k];
        assert(clean_unit(unit));
        let from = starts[k] + 3;
        assert(starts[k] == unit_pos(nals, 0 + k) + 1);
        let next = unit_pos(nals, k + 1);
        let end = unit_end(data, starts, k);
        assert(data.subrange(from, next) == unit);
        if k + 1 < nals.len() {
            assert(starts[k + 1] == unit_pos(nals, 0 + (k + 1)) + 1);
            lemma_annexb_at(nals, k + 1);
            assert(data.subrange(next, next + 4)[0] == 0);
            let padded = data.subrange(from, end);
            assert(padded.drop_last() =~= unit);
            assert(padded.last() == 0);
        } else {
            assert(nals.take(k + 1) =~= nals);
        }
        reveal_with_fuel(trim_zeros, 3);
        assert(unit_at(data, starts, k) == unit);
        assert(nals.take(k).push(unit) =~= nals.take(n));
    }
}

/// Four big-endian bytes spell the number that they were written from.
pub proof fn lemma_be_bytes(n: nat)
    requires
        n < 0x1_0000_0000,
    ensures
        be_value(be_bytes(n)) == n,
{
    let b = be_bytes(n);
    assert(b.drop_last() =~= seq![b[0], b[1], b[2]]);
    assert(b.drop_last().drop_last() =~= seq![b[0], b[1]]);
    assert(b.drop_last().drop_last().drop_last() =~= seq![b[0]]);
    assert(b.drop_last().drop_last().drop_last().drop_last() =~= Seq::<u8>::empty());
    reveal_with_fuel(be_value, 5);
    assert(n == (((n / 0x1000000) * 0x100 + n / 0x10000 % 0x100) * 0x100 + n / 0x100 % 0x100)
        * 0x100 + n % 0x100);
}

proof fn lemma_avcc_prefix(nals: Seq<Seq<u8>>, k: int)
    requires
        0 <= k <= nals.len(),
    ensures
        avcc(nals.take(k)).len() <= avcc(nals).len(),
        avcc(nals).subrange(0, avcc(nals.take(k)).len() as int) == avcc(nals.take(k)),
    decreases nals.len(),
{
    if k == nals.len() {
        assert(nals.take(k) =~= nals);
        assert(avcc(nals).subrange(0, avcc(nals).len() as int) =~= avcc(nals));
    } else {
        let init = nals.drop_last();
        lemma_avcc_prefix(init, k);
        assert(init.take(k) =~= nals.take(k));
        let whole = avcc(nals);
        let part = avcc(nals.take(k));
        assert(whole.subrange(0, avcc(init).len() as int) =~= avcc(init));
        assert(whole.subrange(0, part.len() as int) =~= avcc(init).subrange(0, part.len() as int));
    }
}

proof fn lemma_avcc_units_from(nals: Seq<Seq<u8>>, k: int)
    requires
        0 <= k <= nals.len(),
        forall|j: int| 0 <= j < nals.len() ==> 0 < (#[trigger] nals[j]).len() < 0x1_0000_0000,
    ensures
        avcc_units(avcc(nals), 4, avcc(nals.take(k)).len() as int) == (
            nals.skip(k),
            None::<AvccFault>,
        ),
    decreases nals.len() - k,
{
    let data = avcc(nals);
    let pos = avcc(nals.take(k)).len() as int;
    if k == nals.len() {
        assert(nals.take(k) =~= nals);
        assert(nals.skip(k) =~= Seq::<Seq<u8>>::empty());
    } else {
        let unit = nals[k];
        assert(0 < nals[k].len() < 0x1_0000_0000);
        let upto = avcc(nals.take(k + 1));
        assert(nals.take(k + 1).drop_last() =~= nals.take(k));
        assert(upto == avcc(nals.take(k)) + be_bytes(unit.len()) + unit);
        lemma_avcc_prefix(nals, k + 1);
        assert forall|i: int| 0 <= i < upto.len() implies data[i] == upto[i] by {
            assert(data.subrange(0, upto.len() as int)[i] == upto[i]);
        }
        assert(data.subrange(pos, pos + 4) =~= be_bytes(unit.len()));
        lemma_be_bytes(unit.len());
        assert(data.subrange(pos + 4, pos + 4 + unit.len()) =~= unit);
        lemma_avcc_units_from(nals, k + 1);
        assert(seq![unit] + nals.skip(k + 1) =~= nals.skip(k));
    }
}

/// The NAL units read from an AVCC sample are the ones it was written from, and nothing in it
/// is faulty.
pub proof fn law_avcc_read_back(nals: Seq<Seq<u8>>)
    requires
        forall|j: int| 0 <= j < nals.len() ==> 0 < (#[trigger] nals[j]).len() < 0x1_0000_0000,
    ensures
        avcc_units(avcc(nals), 4, 0) == (nals, None::<AvccFault>),
{
    assert(nals.take(0) =~= Seq::<Seq<u8>>::empty());
    lemma_avcc_units_from(nals, 0);
    assert(nals.skip(0) =~= nals);
}

/// Trailing zeros are cut and nothing else.
pub proof fn lemma_trim_zeros_len(s: Seq<u8>)
    ensures
        trim_zeros(s).len() <= s.len(),
    decreases s.len(),
{
    if s.len() > 0 && s.last() == 0 {
        lemma_trim_zeros_len(s.drop_last());
    }
}

/// What is cut are the trailing zeros: what is left is a head of `s` that does not end in a zero,
/// and all behind it is zero.
pub proof fn lemma_trim_zeros_cuts_zeros(s: Seq<u8>)
    ensures
        trim_zeros(s).len() <= s.len(),
        trim_zeros(s) == s.take(trim_zeros(s).len() as int),
        trim_zeros(s).len() > 0 ==> trim_zeros(s).last() != 0,
        forall|i: int| trim_zeros(s).len() <= i < s.len() ==> s[i] == 0,
    decreases s.len(),
{
    if s.len() > 0 && s.last() == 0 {
        lemma_trim_zeros_cuts_zeros(s.drop_last());
        let n = trim_zeros(s).len() as int;
        assert(s.drop_last().take(n) =~= s.take(n));
        assert forall|i: int| n <= i < s.len() implies s[i] == 0 by {
            if i < s.len() - 1 {
                assert(s.drop_last()[i] == s[i]);
            }
        }
    } else {
        assert(s.take(s.len() as int) =~= s);
    }
}

proof fn lemma_units_behind_bounds(data: Seq<u8>, starts: Seq<int>, n: int)
    requires
        ordered_codes(data, 0, starts),
        0 <= n <= starts.len(),
    ensures
        forall|j: int|
            0 <= j < units_behind(data, starts, n).len() ==> 0 < (#[trigger] units_behind(
                data,
                starts,
                n,
            )[j]).len() <= data.len(),
    decreases n,
{
    if n > 0 {
        let before = units_behind(data, starts, n - 1);
        lemma_units_behind_bounds(data, starts, n - 1);
        assert(starts[n - 1] + 3 <= data.len());
        if n < starts.len() {
            assert(starts[n - 1] + 3 <= starts[n]);
            assert(starts[n] + 3 <= data.len());
        }
        lemma_trim_zeros_len(
            data.subrange(starts[n - 1] + 3, unit_end(data, starts, n - 1)),
        );
        let now = units_behind(data, starts, n);
        assert forall|j: int| 0 <= j < now.len() implies 0 < (#[trigger] now[j]).len()
            <= data.len() by {
            if j < before.len() {
                assert(now[j] == before[j]);
            }
        }
    }
}

/// What is stored of an access unit in AVCC form gives back the NAL units of its Annex-B form,
/// whatever the access unit holds.
pub proof fn law_stored_units_read_back(data: Seq<u8>)
    requires
        data.len() < 0x1_0000_0000,
    ensures
        avcc_units(avcc(units(data)), 4, 0) == (units(data), None::<AvccFault>),
{
    lemma_codes(data, 0);
    lemma_units_behind_bounds(data, codes(data, 0), codes(data, 0).len() as int);
    law_avcc_read_back(units(data));
}

/// Whether only zero bytes stand from `end` up to `next`, where the data ends or a start code
/// stands.
pub open spec fn only_padding(data: Seq<u8>, end: int, next: int) -> bool {
    &&& end <= next <= data.len()
    &&& next == data.len() || code_at(data, next)
    &&& forall|i: int| end <= i < next ==> data[i] == 0
}


/// Which of the first `n` start codes have a NAL unit behind them.
spec fn codes_with_units(data: Seq<u8>, starts: Seq<int>, n: int) -> Seq<int>
    decreases n,
{
    if n <= 0 {
        Seq::empty()
    } else if unit_at(data, starts, n - 1).len() > 0 {
        codes_with_units(data, starts, n - 1).push(starts[n - 1])
    } else {
        codes_with_units(data, starts, n - 1)
    }
}

/// Whether `unit` is what stands behind the start code at `at`: all the bytes up to the next start
/// code or the end of the data, but for zero bytes before that.
pub open spec fn stands_behind(data: Seq<u8>, at: int, unit: Seq<u8>) -> bool {
    let end = at + 3 + unit.len();
    &&& 0 <= at
    &&& end <= data.len()
    &&& code_at(data, at)
    &&& unit == data.subrange(at + 3, end)
    &&& unit.len() > 0 ==> unit.last() != 0
    &&& forall|i: int| at < i && i + 3 <= end ==> !#[trigger] code_at(data, i)
    &&& exists|next: int| #[trigger] only_padding(data, end, next)
}

proof fn lemma_unit_stands_behind(data: Seq<u8>, k: int)
    requires
        0 <= k < codes(data, 0).len(),
    ensures
        stands_behind(data, codes(data, 0)[k], unit_at(data, codes(data, 0), k)),
{
    let starts = codes(data, 0);
    let at = starts[k];
    lemma_codes(data, 0);
    let next = unit_end(data, starts, k);
    let raw = data.subrange(at + 3, next);
    let unit = unit_at(data, starts, k);
    let end = at + 3 + unit.len();
    assert(code_at(data, at));
    if k + 1 < starts.len() {
        assert(code_at(data, starts[k + 1]));
        assert(starts[k] + 3 <= starts[k + 1]);
    }
    lemma_trim_zeros_cuts_zeros(raw);
    assert(raw.take(unit.len() as int) =~= data.subrange(at + 3, end));
    assert forall|i: int| at < i && i + 3 <= end implies !#[trigger] code_at(data, i) by {
        if code_at(data, i) {
            lemma_codes_complete(data, 0, i);
            let m = choose|m: int| 0 <= m < starts.len() && starts[m] == i;
            if m < k {
                assert(starts[m] + 3 <= starts[k]);
            } else if m > k + 1 {
                assert(starts[k + 1] + 3 <= starts[m]);
            }
        }
    }
    assert forall|i: int| end <= i < next implies data[i] == 0 by {
        assert(raw[i - at - 3] == data[i]);
    }
    assert(only_padding(data, end, next));
}

proof fn lemma_codes_with_units(data: Seq<u8>, n: int)
    requires
        0 <= n <= codes(data, 0).len(),
    ensures
        ({
            let starts = codes(data, 0);
            let found = units_behind(data, starts, n);
            let at = codes_with_units(data, starts, n);
            &&& at.len() == found.len()
            &&& forall|k: int|
                0 <= k < at.len() ==> stands_behind(data, #[trigger] at[k], found[k])
                    && found[k].len() > 0 && (n < starts.len() ==> at[k] < starts[n])
            &&& forall|j: int, k: int|
                0 <= j < k < at.len() ==> #[trigger] at[j] < #[trigger] at[k]
            &&& forall|m: int|
                0 <= m < n && unit_at(data, starts, m).len() > 0 ==> at.contains(
                    #[trigger] starts[m],
                )
        }),
    decreases n,
{
    if n > 0 {
        let starts = codes(data, 0);
        lemma_codes_with_units(data, n - 1);
        lemma_codes(data, 0);
        lemma_unit_stands_behind(data, n - 1);
        let was = codes_with_units(data, starts, n - 1);
        let at = codes_with_units(data, starts, n);
        let found = units_behind(data, starts, n);
        let had = units_behind(data, starts, n - 1);
        assert forall|k: int| 0 <= k < at.len() implies stands_behind(
            data,
            #[trigger] at[k],
            found[k],
        ) && found[k].len() > 0 && (n < starts.len() ==> at[k] < starts[n]) by {
            if n < starts.len() {
                assert(starts[n - 1] + 3 <= starts[n]);
            }
            if k < was.len() {
                assert(at[k] == was[k] && found[k] == had[k]);
            } else {
                assert(starts[n - 1] == at[k]);
            }
        }
        assert forall|j: int, k: int| 0 <= j < k < at.len() implies #[trigger] at[j]
            < #[trigger] at[k] by {
            assert(at[j] == was[j]);
            if k < was.len() {
                assert(at[k] == was[k]);
            } else {
                assert(was[j] < starts[n - 1]);
            }
        }
        assert forall|m: int|
            0 <= m < n && unit_at(data, starts, m).len() > 0 implies at.contains(
            #[trigger] starts[m],
        ) by {
            if m < n - 1 {
                assert(was.contains(starts[m]));
                let k = choose|k: int| 0 <= k < was.len() && was[k] == starts[m];
                assert(at[k] == starts[m]);
            } else {
                assert(at[at.len() - 1] == starts[m]);
            }
        }
    }
}

/// The NAL units of a stream are found where they stand, each whole and none but those: `at[k]` is
/// where the start code of the `k`-th unit stands, and the unit is all that stands behind it but
/// for padding. They are in the order of the stream, and behind any other start code there is
/// nothing but padding.
pub proof fn law_units_stand_in_the_stream(data: Seq<u8>) -> (at: Seq<int>)
    ensures
        at.len() == units(data).len(),
        forall|j: int, k: int| 0 <= j < k < at.len() ==> #[trigger] at[j] < #[trigger] at[k],
        forall|k: int|
            0 <= k < at.len() ==> stands_behind(data, #[trigger] at[k], units(data)[k])
                && units(data)[k].len() > 0,
        forall|i: int|
            0 <= i && i + 3 <= data.len() && #[trigger] code_at(data, i) ==> at.contains(i)
                || exists|next: int| #[trigger] only_padding(data, i + 3, next),
{
    let starts = codes(data, 0);
    lemma_codes_with_units(data, starts.len() as int);
    let at = codes_with_units(data, starts, starts.len() as int);
    assert forall|i: int| 0 <= i && i + 3 <= data.len() && #[trigger] code_at(
        data,
        i,
    ) implies at.contains(i) || exists|next: int| #[trigger] only_padding(data, i + 3, next) by {
        lemma_codes_complete(data, 0, i);
        let m = choose|m: int| 0 <= m < starts.len() && starts[m] == i;
        if unit_at(data, starts, m).len() == 0 {
            lemma_unit_stands_behind(data, m);
        } else {
            assert(at.contains(starts[m]));
        }
    }
    at
}

/// NAL units behind length prefixes, one after the other.
pub open spec fn prefixed(prefixes: Seq<Seq<u8>>, nals: Seq<Seq<u8>>) -> Seq<u8>
    decreases nals.len(),
{
    if nals.len() == 0 {
        Seq::empty()
    } else {
        prefixed(prefixes.drop_last(), nals.drop_last()) + prefixes.last() + nals.last()
    }
}

/// Whatever the size of the length prefixes, the NAL units that are read of a sample are the ones
/// that stand in it, in order, where each prefix spells the length of its unit.
pub proof fn law_prefixed_units_read_back(
    prefixes: Seq<Seq<u8>>,
    nals: Seq<Seq<u8>>,
    size: int,
)
    requires
        1 <= size,
        prefixes.len() == nals.len(),
        forall|j: int|
            0 <= j < nals.len() ==> (#[trigger] prefixes[j]).len() == size && be_value(prefixes[j])
                == nals[j].len() && nals[j].len() > 0,
    ensures
        avcc_units(prefixed(prefixes, nals), size, 0) == (nals, None::<AvccFault>),
{
    assert(prefixed(prefixes.take(0), nals.take(0)) =~= Seq::<u8>::empty());
    lemma_prefixed_units_from(prefixes, nals, size, 0);
    assert(nals.skip(0) =~= nals);
}

proof fn lemma_prefixed_prefix(prefixes: Seq<Seq<u8>>, nals: Seq<Seq<u8>>, k: int)
    requires
        prefixes.len() == nals.len(),
        0 <= k <= nals.len(),
    ensures
        prefixed(prefixes.take(k), nals.take(k)).len() <= prefixed(prefixes, nals).len(),
        prefixed(prefixes, nals).subrange(
            0,
            prefixed(prefixes.take(k), nals.take(k)).len() as int,
        ) == prefixed(prefixes.take(k), nals.take(k)),
    decreases nals.len(),
{
    let whole = prefixed(prefixes, nals);
    if k == nals.len() {
        assert(nals.take(k) =~= nals);
        assert(prefixes.take(k) =~= prefixes);
        assert(whole.subrange(0, whole.len() as int) =~= whole);
    } else {
        let init = nals.drop_last();
        let heads = prefixes.drop_last();
        lemma_prefixed_prefix(heads, init, k);
        assert(init.take(k) =~= nals.take(k));
        assert(heads.take(k) =~= prefixes.take(k));
        let part = prefixed(prefixes.take(k), nals.take(k));
        assert(whole.subrange(0, prefixed(heads, init).len() as int) =~= prefixed(heads, init));
        assert(whole.subrange(0, part.len() as int) =~= prefixed(heads, init).subrange(
            0,
            part.len() as int,
        ));
    }
}

proof fn lemma_prefixed_units_from(
    prefixes: Seq<Seq<u8>>,
    nals: Seq<Seq<u8>>,
    size: int,
    k: int,
)
    requires
        1 <= size,
        prefixes.len() == nals.len(),
        0 <= k <= nals.len(),
        forall|j: int|
            0 <= j < nals.len() ==> (#[trigger] prefixes[j]).len() == size && be_value(prefixes[j])
                == nals[j].len() && nals[j].len() > 0,
    ensures
        avcc_units(
            prefixed(prefixes, nals),
            size,
            prefixed(prefixes.take(k), nals.take(k)).len() as int,
        ) == (nals.skip(k), None::<AvccFault>),
    decreases nals.len() - k,
{
    let data = prefixed(prefixes, nals);
    let pos = prefixed(prefixes.take(k), nals.take(k)).len() as int;
    if k == nals.len() {
        assert(nals.take(k) =~= nals);
        assert(prefixes.take(k) =~= prefixes);
        assert(nals.skip(k) =~= Seq::<Seq<u8>>::empty());
    } else {
        let unit = nals[k];
        let prefix = prefixes[k];
        let upto = prefixed(prefixes.take(k + 1), nals.take(k + 1));
        assert(nals.take(k + 1).drop_last() =~= nals.take(k));
        assert(prefixes.take(k + 1).drop_last() =~= prefixes.take(k));
        assert(upto == prefixed(prefixes.take(k), nals.take(k)) + prefix + unit);
        lemma_prefixed_prefix(prefixes, nals, k + 1);
        assert forall|i: int| 0 <= i < upto.len() implies data[i] == upto[i] by {
            assert(data.subrange(0, upto.len() as int)[i] == upto[i]);
        }
        assert(data.subrange(pos, pos + size) =~= prefix);
        assert(data.subrange(pos + size, pos + size + unit.len()) =~= unit);
        lemma_prefixed_units_from(prefixes, nals, size, k + 1);
        assert(seq![unit] + nals.skip(k + 1) =~= nals.skip(k));
    }
}

/// A byte more is a place more: a length is spelled most significant byte first.
pub proof fn law_length_is_big_endian(head: Seq<u8>, tail: Seq<u8>)
    ensures
        tail.len() == 1 ==> be_value(head + tail) == be_value(head) * 0x100 + tail[0],
        tail.len() == 2 ==> be_value(head + tail) == be_value(head) * 0x1_0000 + tail[0] * 0x100
            + tail[1],
        head.len() == 0 && tail.len() == 1 ==> be_value(tail) == tail[0],
{
    if tail.len() == 1 {
        assert((head + tail).drop_last() =~= head);
        assert(be_value(tail.drop_last()) == 0);
    } else if tail.len() == 2 {
        assert((head + tail).drop_last() =~= head.push(tail[0]));
        assert(head.push(tail[0]).drop_last() =~= head);
        assert(be_value(head.push(tail[0])) == be_value(head) * 0x100 + tail[0]);
    }
}

/// How many bytes units take with lengths of `size` bytes before them.
pub open spec fn avcc_len(nals: Seq<Seq<u8>>, size: int) -> int
    decreases nals.len(),
{
    if nals.len() == 0 {
        0
    } else {
        size + nals[0].len() + avcc_len(nals.skip(1), size)
    }
}

/// What is read without a fault takes up all of the data.
pub proof fn lemma_avcc_len(data: Seq<u8>, size: int, offset: int)
    requires
        1 <= size,
        0 <= offset <= data.len(),
        avcc_units(data, size, offset).1 is None,
    ensures
        offset + avcc_len(avcc_units(data, size, offset).0, size) == data.len(),
    decreases data.len() - offset,
{
    if offset < data.len() {
        let len = be_value(data.subrange(offset, offset + size)) as int;
        let all = avcc_units(data, size, offset).0;
        let next = offset + size + len;
        lemma_avcc_len(data, size, next);
        assert(all[0] == data.subrange(offset + size, next));
        assert(all.skip(1) =~= avcc_units(data, size, next).0);
    } else {
        assert(avcc_units(data, size, offset).0 =~= Seq::<Seq<u8>>::empty());
    }
}

} // verus!
