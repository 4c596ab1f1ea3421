//! VideoToolbox output: from what the session's callback reports to an Annex-B
//! [`EncodedChunk`].
//!
//! VideoToolbox emits AVCC (length-prefixed) samples with parameter sets in the format
//! description; what reaches the ring is Annex-B with the parameter sets inline before every
//! IDR, and the caller's timestamp verbatim.

use crate::annexb::{annexb_from_avcc, avcc_error_text, avcc_outcome};
use crate::clock::Duration;
use crate::encode::{EncodeError, EncodeParams, EncodedChunk};
use crate::nal::{annexb, avcc_units};
use crate::text::{decimal, push_decimal};
use vstd::prelude::*;

verus! {

/// One parsed output frame.
#[derive(Debug, Clone, PartialEq, Eq)]
pub struct ParsedFrame {
    /// The access unit.
    pub annexb: Vec<u8>,
    /// Whether a clip can begin here.
    pub is_keyframe: bool,
}

/// The format description of an output sample.
#[derive(Debug)]
pub struct FormatDescription {
    /// How many parameter sets it declares and the NAL length size, where it declares them.
    pub declared: Option<(usize, i32)>,
    /// The parameter sets, each read or not.
    pub parameter_sets: Vec<Result<Vec<u8>, String>>,
}

/// An output sample.
#[derive(Debug)]
pub struct OutputSample {
    /// Sync iff the attachments don't say otherwise.
    pub is_keyframe: bool,
    /// Its format description, where it has one.
    pub format: Option<FormatDescription>,
    /// Its data, read or not, where it has a data buffer.
    pub data: Option<Result<Vec<u8>, String>>,
}

/// What the output callback was handed.
#[derive(Debug)]
pub struct CallbackOutput {
    /// The error of its status, if it reports one.
    pub status_error: Option<String>,
    /// Whether the frame was dropped.
    pub dropped: bool,
    /// The sample, if there is one.
    pub sample: Option<OutputSample>,
}

/// Why the encoder refuses `params`, if it does.
pub open spec fn session_refusal(params: EncodeParams) -> Option<Seq<char>> {
    if params.width == 0 || params.height == 0 {
        Some("width and height must be > 0"@)
    } else if params.framerate == 0 {
        Some("framerate must be > 0"@)
    } else if params.idr_period == 0 {
        Some("idr_period must be > 0"@)
    } else {
        None
    }
}

/// Rejects zero dimensions, a zero framerate and a zero GOP.
pub fn validate_session(params: EncodeParams) -> (r: Result<(), EncodeError>)
    ensures
        match session_refusal(params) {
            Some(why) => r matches Err(e) && e.is_init(why),
            None => r is Ok,
        },
{
    if params.width == 0 || params.height == 0 {
        return Err(EncodeError::Init("width and height must be > 0".to_owned()));
    }
    if params.framerate == 0 {
        return Err(EncodeError::Init("framerate must be > 0".to_owned()));
    }
    if params.idr_period == 0 {
        return Err(EncodeError::Init("idr_period must be > 0".to_owned()));
    }
    Ok(())
}

/// The timestamp handed to VideoToolbox, in microseconds.
pub fn session_time(pts: Duration) -> (r: i64)
    ensures
        r == if pts@ / 1_000 <= i64::MAX {
            (pts@ / 1_000) as int
        } else {
            i64::MAX as int
        },
{
    let micros: u128 = pts.as_micros();
    if micros <= i64::MAX as u128 {
        micros as i64
    } else {
        i64::MAX
    }
}

/// The NAL length size of a format description; 4 where it declares none or a negative one.
pub open spec fn length_size(format: FormatDescription) -> usize {
    match format.declared {
        Some((_, len)) => if len >= 0 {
            len as usize
        } else {
            4
        },
        None => 4,
    }
}

/// How many parameter sets a format description declares.
pub open spec fn set_count(format: FormatDescription) -> nat {
    match format.declared {
        Some((count, _)) => count as nat,
        None => 0,
    }
}

/// The first of the first `n` parameter sets that could not be read, from the `k`-th on.
pub open spec fn unread_set(sets: Seq<Result<Vec<u8>, String>>, n: nat, k: int) -> Option<int>
    decreases n - k,
{
    if k >= n {
        None
    } else if sets[k] is Err {
        Some(k)
    } else {
        unread_set(sets, n, k + 1)
    }
}

/// The contents of the first `n` parameter sets.
pub open spec fn read_sets(sets: Seq<Result<Vec<u8>, String>>, n: nat) -> Seq<Seq<u8>> {
    Seq::new(n, |i: int| sets[i]->Ok_0@)
}

/// The bytes of a frame: the parameter sets of a keyframe, then the NAL units of the sample.
pub open spec fn frame_bytes(sample: OutputSample) -> Seq<u8> {
    let format = sample.format->0;
    let body = annexb(
        avcc_units(sample.data->0->Ok_0@, length_size(format) as int, 0).0,
    );
    if sample.is_keyframe {
        annexb(read_sets(format.parameter_sets@, set_count(format))) + body
    } else {
        body
    }
}

/// Why a sample is no frame, if it is none.
pub open spec fn sample_fault(sample: OutputSample) -> Option<Seq<char>> {
    match sample.format {
        None => Some("output sample has no format description"@),
        Some(format) => {
            let unread = unread_set(format.parameter_sets@, set_count(format), 0);
            if sample.is_keyframe && unread is Some {
                Some(
                    "reading parameter set "@ + decimal(unread->0 as nat) + ": "@
                        + format.parameter_sets@[unread->0]->Err_0@,
                )
            } else if sample.is_keyframe && set_count(format) == 0 {
                Some("keyframe sample carries no parameter sets"@)
            } else {
                match sample.data {
                    None => Some("output sample has no data buffer"@),
                    Some(Err(why)) => Some(why@),
                    Some(Ok(data)) => match avcc_outcome(data@, length_size(format)) {
                        Err(e) => Some(avcc_error_text(e)),
                        Ok(()) => if frame_bytes(sample).len() == 0 {
                            Some("output sample converted to an empty access unit"@)
                        } else {
                            None
                        },
                    },
                }
            }
        },
    }
}

impl FormatDescription {
    /// Whether every declared parameter set is there, read or not.
    pub open spec fn complete(self) -> bool {
        set_count(self) <= self.parameter_sets@.len()
    }
}

/// The declared parameter sets in Annex-B form.
fn parameter_sets(format: &FormatDescription) -> (r: Result<Vec<u8>, String>)
    requires
        format.complete(),
    ensures
        ({
            let unread = unread_set(format.parameter_sets@, set_count(*format), 0);
            match r {
                Ok(out) => unread is None && set_count(*format) > 0 && out@ == annexb(
                    read_sets(format.parameter_sets@, set_count(*format)),
                ),
                Err(why) => if unread is Some {
                    why@ == "reading parameter set "@ + decimal(unread->0 as nat) + ": "@
                        + format.parameter_sets@[unread->0]->Err_0@
                } else {
                    set_count(*format) == 0 && why@ == "keyframe sample carries no parameter sets"@
                },
            }
        }),
{
    let count: usize = match format.declared {
        Some((count, _)) => count,
        None => 0,
    };
    let ghost sets = format.parameter_sets@;
    let mut out: Vec<u8> = Vec::new();
    let mut i: usize = 0;
    proof {
        assert(read_sets(sets, 0) =~= Seq::<Seq<u8>>::empty());
    }
    while i < count
        invariant
            i <= count <= format.parameter_sets@.len(),
            count == set_count(*format),
            sets == format.parameter_sets@,
            unread_set(sets, count as nat, 0) == unread_set(sets, count as nat, i as int),
            out@ == annexb(read_sets(sets, i as nat)),
        decreases count - i,
    {
        match &format.parameter_sets[i] {
            Ok(set) => {
                crate::nal::append_nal(&mut out, set.as_slice());
                proof {
                    let now = read_sets(sets, (i + 1) as nat);
                    assert(now.drop_last() =~= read_sets(sets, i as nat));
                    assert(now.last() == set@);
                }
            },
            Err(why) => {
                let mut text = "reading parameter set ".to_owned();
                push_decimal(&mut text, i as u64);
                text.append(": ");
                text.append(why.as_str());
                return Err(text);
            },
        }
        i = i + 1;
    }
    if count == 0 {
        return Err("keyframe sample carries no parameter sets".to_owned());
    }
    Ok(out)
}

/// Convert one output of the callback to a ready-to-push Annex-B access unit. `Ok(None)` means
/// that the encoder dropped the frame.
pub fn parse_output(output: &CallbackOutput) -> (r: Result<Option<ParsedFrame>, String>)
    requires
        output.sample matches Some(sample) ==> (sample.format matches Some(format)
            ==> format.complete()),
    ensures
        match output.status_error {
            Some(why) => r matches Err(text) && text@ == "encode callback reported "@ + why@,
            None => if output.dropped || output.sample is None {
                r == Ok::<Option<ParsedFrame>, String>(None)
            } else {
                let sample = output.sample->0;
                match sample_fault(sample) {
                    Some(why) => r matches Err(text) && text@ == why,
                    None => r matches Ok(Some(frame)) && frame.is_keyframe == sample.is_keyframe
                        && frame.annexb@ == frame_bytes(sample),
                }
            },
        },
{
    match &output.status_error {
        Some(why) => {
            return Err("encode callback reported ".to_owned().concat(why.as_str()));
        },
        None => {},
    }
    if output.dropped {
        return Ok(None);
    }
    let sample = match &output.sample {
        Some(sample) => sample,
        None => {
            return Ok(None);
        },
    };
    let format = match &sample.format {
        Some(format) => format,
        None => {
            return Err("output sample has no format description".to_owned());
        },
    };
    let size: usize = match format.declared {
        Some((_, len)) => if len >= 0 {
            len as usize
        } else {
            4
        },
        None => 4,
    };
    let mut out: Vec<u8> = Vec::new();
    if sample.is_keyframe {
        out =
        match parameter_sets(format) {
            Ok(sets) => sets,
            Err(why) => {
                return Err(why);
            },
        };
    }
    let data = match &sample.data {
        Some(data) => data,
        None => {
            return Err("output sample has no data buffer".to_owned());
        },
    };
    let avcc = match data {
        Ok(avcc) => avcc,
        Err(why) => {
            return Err(why.clone());
        },
    };
    match annexb_from_avcc(avcc.as_slice(), size, &mut out) {
        Ok(()) => {},
        Err(e) => {
            return Err(e.message());
        },
    }
    proof {
        assert(out@ =~= frame_bytes(*sample));
    }
    if out.len() == 0 {
        return Err("output sample converted to an empty access unit".to_owned());
    }
    Ok(Some(ParsedFrame { annexb: out, is_keyframe: sample.is_keyframe }))
}

/// The chunk for a submitted frame, given the callback's reply — or none, where none came in
/// time. `Ok(None)` when VideoToolbox dropped the frame: the caller skips the ring push, so
/// every chunk is a real frame.
pub fn reply_chunk(reply: Option<Result<Option<ParsedFrame>, String>>, pts: Duration) -> (r: Result<
    Option<EncodedChunk>,
    EncodeError,
>)
    ensures
        match reply {
            Some(Ok(Some(parsed))) => r matches Ok(Some(chunk)) && chunk.bytes == parsed.annexb
                && chunk.is_keyframe == parsed.is_keyframe && chunk.pts == pts,
            Some(Ok(None)) => r matches Ok(None),
            Some(Err(why)) => r matches Err(e) && e.is_encode(why@),
            None => r matches Err(e) && e.is_encode("timed out waiting for VideoToolbox output"@),
        },
{
    match reply {
        Some(Ok(Some(parsed))) => Ok(
            Some(
                EncodedChunk { bytes: parsed.annexb, is_keyframe: parsed.is_keyframe, pts },
            ),
        ),
        Some(Ok(None)) => Ok(None),
        Some(Err(why)) => Err(EncodeError::Encode(why)),
        None => Err(
            EncodeError::Encode("timed out waiting for VideoToolbox output".to_owned()),
        ),
    }
}

/// No NAL unit is lost: a frame is all the units of the sample, in order, in Annex-B form, and a
/// keyframe has all of the declared parameter sets before them, so that a clip can begin at it.
pub proof fn law_output_loses_no_nal(output: CallbackOutput, frame: ParsedFrame)
    requires
        call_ensures(
            parse_output,
            (&output,),
            Ok::<Option<ParsedFrame>, String>(Some(frame)),
        ),
    ensures
        output.status_error is None,
        !output.dropped,
        output.sample matches Some(sample) && {
            let format = sample.format->0;
            let size = match format.declared {
                Some((_, len)) if len >= 0 => len as int,
                _ => 4,
            };
            let stored = avcc_units(sample.data->0->Ok_0@, size, 0);
            &&& sample.format is Some
            &&& sample.data matches Some(Ok(_))
            &&& stored.1 is None
            &&& frame.is_keyframe == sample.is_keyframe
            &&& frame.annexb@.len() > 0
            &&& !sample.is_keyframe ==> frame.annexb@ == annexb(stored.0)
            &&& sample.is_keyframe ==> {
                &&& format.declared matches Some((count, _)) && count > 0 && {
                    &&& forall|i: int|
                        0 <= i < count ==> (#[trigger] format.parameter_sets@[i]) is Ok
                    &&& frame.annexb@ == annexb(
                        Seq::new(count as nat, |i: int| format.parameter_sets@[i]->Ok_0@),
                    ) + annexb(stored.0)
                }
            }
        },
{
    let sample = output.sample->0;
    if sample.is_keyframe {
        let format = sample.format->0;
        lemma_no_unread_set(format.parameter_sets@, set_count(format), 0);
    }
}

proof fn lemma_no_unread_set(sets: Seq<Result<Vec<u8>, String>>, n: nat, k: int)
    requires
        0 <= k,
        unread_set(sets, n, k) is None,
    ensures
        forall|i: int| k <= i < n ==> (#[trigger] sets[i]) is Ok,
    decreases n - k,
{
    if k < n {
        lemma_no_unread_set(sets, n, k + 1);
    }
}

/// A frame that was encoded is a chunk: with all its bytes, its keyframe flag and the very time it
/// was submitted with. A frame that was dropped is no chunk and no error.
pub proof fn law_reply_is_passed_on(
    reply: Option<Result<Option<ParsedFrame>, String>>,
    pts: Duration,
    r: Result<Option<EncodedChunk>, EncodeError>,
)
    requires
        call_ensures(reply_chunk, (reply, pts), r),
    ensures
        reply matches Some(Ok(Some(parsed))) ==> r is Ok && r->Ok_0 is Some && r->Ok_0->0.bytes@
            == parsed.annexb@ && r->Ok_0->0.is_keyframe == parsed.is_keyframe && r->Ok_0->0.pts
            == pts,
        reply matches Some(Ok(None)) ==> r is Ok && r->Ok_0 is None,
        reply is None || reply->0 is Err ==> r is Err,
{
}

/// The time that is handed to the encoder is the frame's, in whole microseconds.
pub proof fn law_session_time_is_the_frames(pts: Duration, r: i64)
    requires
        call_ensures(session_time, (pts,), r),
        pts@ / 1_000 <= i64::MAX,
    ensures
        r * 1_000 <= pts@ < (r + 1) * 1_000,
{
}

/// A session is opened for every picture that has an extent, a frame rate and a keyframe period,
/// and refused for any other.
pub proof fn law_session_takes_every_extent(params: EncodeParams, r: Result<(), EncodeError>)
    requires
        call_ensures(validate_session, (params,), r),
    ensures
        r is Ok == (params.width > 0 && params.height > 0 && params.framerate > 0
            && params.idr_period > 0),
{
}

} // verus!
