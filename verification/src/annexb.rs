//! AVCC to Annex-B conversion on plain bytes.
//!
//! Hardware encoders hand out AVCC samples (big-endian length-prefixed NAL units, parameter
//! sets out of band), while the ring buffer and the muxer take Annex-B access units with the
//! parameter sets inline before every IDR.

use crate::nal::{annexb, append_nal, avcc_units, push_bytes, push_start_code, read_length};
use crate::nal::AvccFault;
use crate::text::{decimal, push_decimal};
use vstd::prelude::*;

verus! {

/// Errors from walking an AVCC (length-prefixed) buffer.
#[derive(Debug, PartialEq, Eq, Structural)]
pub enum AvccError {
    /// The NAL length prefix size must be 1–4 bytes.
    InvalidNalLengthSize(usize),
    /// The buffer ended in the middle of a length prefix.
    TruncatedLengthPrefix(usize),
    /// A length prefix pointed past the end of the buffer.
    TruncatedNalu {
        /// Offset of the NALU's length prefix.
        offset: usize,
        /// Payload length the prefix declared.
        len: usize,
        /// Bytes actually remaining after the prefix.
        remaining: usize,
    },
    /// A length prefix declared a zero-length NALU.
    ZeroLengthNalu(usize),
}

/// The text of an [`AvccError`].
pub open spec fn avcc_error_text(e: AvccError) -> Seq<char> {
    match e {
        AvccError::InvalidNalLengthSize(n) => "invalid nal_length_size "@ + decimal(n as nat)
            + ": must be 1..=4"@,
        AvccError::TruncatedLengthPrefix(n) => "truncated NALU length prefix at offset "@
            + decimal(n as nat),
        AvccError::TruncatedNalu { offset, len, remaining } => "truncated NALU at offset "@
            + decimal(offset as nat) + ": length "@ + decimal(len as nat) + " exceeds remaining "@
            + decimal(remaining as nat) + " bytes"@,
        AvccError::ZeroLengthNalu(n) => "zero-length NALU at offset "@ + decimal(n as nat),
    }
}

impl AvccError {
    /// What went wrong, in words.
    pub fn message(&self) -> (r: String)
        ensures
            r@ == avcc_error_text(*self),
    {
        let mut out = String::new();
        match self {
            AvccError::InvalidNalLengthSize(n) => {
                out.append("invalid nal_length_size ");
                push_decimal(&mut out, *n as u64);
                out.append(": must be 1..=4");
            },
            AvccError::TruncatedLengthPrefix(n) => {
                out.append("truncated NALU length prefix at offset ");
                push_decimal(&mut out, *n as u64);
            },
            AvccError::TruncatedNalu { offset, len, remaining } => {
                out.append("truncated NALU at offset ");
                push_decimal(&mut out, *offset as u64);
                out.append(": length ");
                push_decimal(&mut out, *len as u64);
                out.append(" exceeds remaining ");
                push_decimal(&mut out, *remaining as u64);
                out.append(" bytes");
            },
            AvccError::ZeroLengthNalu(n) => {
                out.append("zero-length NALU at offset ");
                push_decimal(&mut out, *n as u64);
            },
        }
        proof {
            assert(out@ =~= avcc_error_text(*self));
        }
        out
    }
}

/// The error that reports a fault.
pub open spec fn avcc_error(fault: AvccFault) -> AvccError {
    match fault {
        AvccFault::Prefix { offset } => AvccError::TruncatedLengthPrefix(offset as usize),
        AvccFault::Empty { offset } => AvccError::ZeroLengthNalu(offset as usize),
        AvccFault::Overrun { offset, len, remaining } => AvccError::TruncatedNalu {
            offset: offset as usize,
            len: len as usize,
            remaining: remaining as usize,
        },
    }
}

/// What [`annexb_from_avcc`] returns.
pub open spec fn avcc_outcome(data: Seq<u8>, nal_length_size: usize) -> Result<(), AvccError> {
    if !(1 <= nal_length_size <= 4) {
        Err(AvccError::InvalidNalLengthSize(nal_length_size))
    } else {
        match avcc_units(data, nal_length_size as int, 0).1 {
            Some(fault) => Err(avcc_error(fault)),
            None => Ok(()),
        }
    }
}

/// Re-emit an AVCC buffer (`nal_length_size`-byte big-endian length prefix per NALU) as
/// Annex-B: a 4-byte `00 00 00 01` start code followed by the payload, for each NALU.
/// Appends to `out`; an empty input appends nothing. Where the buffer is faulty, the NAL units
/// before the fault have been appended.
pub fn annexb_from_avcc(avcc: &[u8], nal_length_size: usize, out: &mut Vec<u8>) -> (r: Result<
    (),
    AvccError,
>)
    ensures
        r == avcc_outcome(avcc@, nal_length_size),
        final(out)@ == if 1 <= nal_length_size <= 4 {
            old(out)@ + annexb(avcc_units(avcc@, nal_length_size as int, 0).0)
        } else {
            old(out)@
        },
{
    if nal_length_size < 1 || nal_length_size > 4 {
        return Err(AvccError::InvalidNalLengthSize(nal_length_size));
    }
    let ghost whole = avcc_units(avcc@, nal_length_size as int, 0);
    let ghost mut done: Seq<Seq<u8>> = Seq::empty();
    let mut offset: usize = 0;
    proof {
        assert(done + whole.0 =~= whole.0);
        assert(old(out)@ + annexb(done) =~= old(out)@);
    }
    while offset < avcc.len()
        invariant
            1 <= nal_length_size <= 4,
            offset <= avcc.len(),
            whole == avcc_units(avcc@, nal_length_size as int, 0),
            whole.0 == done + avcc_units(avcc@, nal_length_size as int, offset as int).0,
            whole.1 == avcc_units(avcc@, nal_length_size as int, offset as int).1,
            out@ == old(out)@ + annexb(done),
        decreases avcc.len() - offset,
    {
        let ghost here = avcc_units(avcc@, nal_length_size as int, offset as int);
        if avcc.len() - offset < nal_length_size {
            proof {
                assert(done + Seq::<Seq<u8>>::empty() =~= done);
            }
            return Err(AvccError::TruncatedLengthPrefix(offset));
        }
        let len: usize = read_length(avcc, offset, nal_length_size);
        if len == 0 {
            proof {
                assert(done + Seq::<Seq<u8>>::empty() =~= done);
            }
            return Err(AvccError::ZeroLengthNalu(offset));
        }
        let payload_start: usize = offset + nal_length_size;
        let remaining: usize = avcc.len() - payload_start;
        if len > remaining {
            proof {
                assert(done + Seq::<Seq<u8>>::empty() =~= done);
            }
            return Err(AvccError::TruncatedNalu { offset, len, remaining });
        }
        push_start_code(out);
        push_bytes(out, avcc, payload_start, payload_start + len);
        proof {
            let unit = avcc@.subrange(payload_start as int, payload_start + len);
            let rest = avcc_units(avcc@, nal_length_size as int, payload_start + len);
            assert(here.0 == seq![unit] + rest.0);
            assert(done + (seq![unit] + rest.0) =~= done.push(unit) + rest.0);
            assert(done.push(unit).drop_last() =~= done);
            assert(out@ =~= old(out)@ + annexb(done.push(unit)));
            done = done.push(unit);
        }
        offset = payload_start + len;
    }
    proof {
        assert(done + Seq::<Seq<u8>>::empty() =~= done);
    }
    Ok(())
}

/// The contents of `sets`, set by set.
pub open spec fn contents(sets: Seq<Vec<u8>>) -> Seq<Seq<u8>> {
    sets.map_values(|set: Vec<u8>| set@)
}

/// Emit raw parameter-set payloads (no start codes in the input) as Annex-B NALUs,
/// each prefixed with a 4-byte start code. Appended to `out` — call before
/// [`annexb_from_avcc`] so SPS/PPS precede the IDR slice in the access unit.
pub fn prepend_parameter_sets(parameter_sets: &[Vec<u8>], out: &mut Vec<u8>)
    ensures
        final(out)@ == old(out)@ + annexb(contents(parameter_sets@)),
{
    let ghost all = contents(parameter_sets@);
    let mut i: usize = 0;
    proof {
        assert(old(out)@ + annexb(all.take(0)) =~= old(out)@);
    }
    while i < parameter_sets.len()
        invariant
            i <= parameter_sets.len(),
            all == contents(parameter_sets@),
            out@ == old(out)@ + annexb(all.take(i as int)),
        decreases parameter_sets.len() - i,
    {
        append_nal(out, parameter_sets[i].as_slice());
        proof {
            assert(all.take(i + 1).drop_last() =~= all.take(i as int));
            assert(all.take(i + 1).last() == parameter_sets@[i as int]@);
            assert(out@ =~= old(out)@ + annexb(all.take(i + 1)));
        }
        i = i + 1;
    }
    proof {
        assert(all.take(all.len() as int) =~= all);
    }
}

/// A stream that is cut short or declares an empty unit is refused, and the error says where; so
/// is a length that no stream has.
pub proof fn law_damaged_stream_is_refused(data: Seq<u8>, size: usize)
    requires
        0 < data.len() <= usize::MAX,
    ensures
        size == 0 || size > 4 ==> avcc_outcome(data, size) == Err::<(), AvccError>(
            AvccError::InvalidNalLengthSize(size),
        ),
        1 <= size <= 4 && data.len() < size ==> avcc_outcome(data, size) == Err::<(), AvccError>(
            AvccError::TruncatedLengthPrefix(0),
        ),
        1 <= size <= 4 && data.len() >= size ==> {
            let len = crate::nal::be_value(data.take(size as int));
            let left = data.len() - size;
            &&& len == 0 ==> avcc_outcome(data, size) == Err::<(), AvccError>(
                AvccError::ZeroLengthNalu(0),
            )
            &&& left < len <= usize::MAX ==> avcc_outcome(data, size) == Err::<(), AvccError>(
                AvccError::TruncatedNalu {
                    offset: 0,
                    len: len as usize,
                    remaining: left as usize,
                },
            )
        },
{
    if data.len() >= size {
        assert(data.subrange(0, size as int) =~= data.take(size as int));
    }
}

/// A stream that is accepted is made of whole units, with nothing left over.
pub proof fn law_stream_ends_with_a_unit(data: Seq<u8>, size: usize)
    requires
        1 <= size <= 4,
        avcc_outcome(data, size) is Ok,
    ensures
        data.len() == crate::nal::avcc_len(avcc_units(data, size as int, 0).0, size as int),
{
    crate::nal::lemma_avcc_len(data, size as int, 0);
}

} // verus!
