//! Encoder capability probe and backend selection — the GPU-free half.
//!
//! The recorder enumerates Vulkan adapters and publishes them as an [`EncoderProbe`];
//! [`choose_encoder`] then resolves the user's [`EncoderPreference`] against those adapters.

use crate::schema::EncoderPreference;
use crate::text::{debug_form, decimal, push_decimal, quoted, same};
use vstd::prelude::*;

verus! {

/// Bumped when the probe JSON shape changes incompatibly; the reader rejects other versions.
pub const ENCODER_PROBE_VERSION: u32 = 1;

/// The recorder's view of the machine's encoders, as published to the GUI.
#[derive(Debug, Clone, PartialEq, Eq)]
pub struct EncoderProbe {
    /// Schema version; see [`ENCODER_PROBE_VERSION`].
    pub version: u32,
    /// Every Vulkan adapter found, encode-capable or not.
    pub adapters: Vec<ProbeAdapter>,
}

/// One adapter's encode capability, flattened for the GUI (no GPU types cross the boundary).
#[derive(Debug, Clone, PartialEq, Eq)]
pub struct ProbeAdapter {
    /// Adapter name; also the key config uses to pin a device (`encoder = "gpu:<name>"`).
    pub name: String,
    /// Adapter class: `"discrete"`, `"integrated"`, `"virtual"`, `"cpu"`, or `"other"`.
    pub device_type: String,
    /// Whether this adapter can encode H.264 via Vulkan Video.
    pub h264_encode: bool,
    /// Maximum encode width (0 when `!h264_encode`).
    pub max_width: u32,
    /// Maximum encode height (0 when `!h264_encode`).
    pub max_height: u32,
}

/// Why a probe of another version is rejected.
pub open spec fn version_refusal(version: u32) -> Seq<char> {
    "unsupported encoder probe version "@ + decimal(version as nat) + " (expected "@ + decimal(
        ENCODER_PROBE_VERSION as nat,
    ) + ")"@
}

impl EncoderProbe {
    /// Wrap adapters with the current schema version.
    pub fn new(adapters: Vec<ProbeAdapter>) -> (r: Self)
        ensures
            r.version == ENCODER_PROBE_VERSION,
            r.adapters == adapters,
    {
        EncoderProbe { version: ENCODER_PROBE_VERSION, adapters }
    }

    /// A probe that was read, unless it is of an unrecognised schema version.
    pub fn accepted(self) -> (r: Result<Self, String>)
        ensures
            match r {
                Ok(probe) => self.version == ENCODER_PROBE_VERSION && probe == self,
                Err(why) => self.version != ENCODER_PROBE_VERSION && why@ == version_refusal(
                    self.version,
                ),
            },
    {
        if self.version != ENCODER_PROBE_VERSION {
            let mut why = "unsupported encoder probe version ".to_owned();
            push_decimal(&mut why, self.version as u64);
            why.append(" (expected ");
            push_decimal(&mut why, ENCODER_PROBE_VERSION as u64);
            why.append(")");
            return Err(why);
        }
        Ok(self)
    }
}

/// The backend the recorder will actually use — the resolved form of [`EncoderPreference`].
#[derive(Debug, Clone, PartialEq, Eq)]
pub enum EncoderChoice {
    /// The named GPU (Vulkan Video H.264).
    Gpu(String),
    /// The software (CPU) encoder.
    Cpu,
}

impl EncoderChoice {
    /// The value written to the status file's `encoder` field (`"gpu:<name>"` / `"cpu"`).
    pub fn label(&self) -> (r: String)
        ensures
            r@ == match *self {
                EncoderChoice::Gpu(name) => "gpu:"@ + name@,
                EncoderChoice::Cpu => "cpu"@,
            },
    {
        match self {
            EncoderChoice::Gpu(name) => "gpu:".to_owned().concat(name.as_str()),
            EncoderChoice::Cpu => "cpu".to_owned(),
        }
    }
}

/// The first adapter, from the `k`-th on, that can encode.
pub open spec fn first_capable(adapters: Seq<ProbeAdapter>, k: int) -> Option<ProbeAdapter>
    decreases adapters.len() - k,
{
    if k >= adapters.len() {
        None
    } else if adapters[k].h264_encode {
        Some(adapters[k])
    } else {
        first_capable(adapters, k + 1)
    }
}

/// The first adapter, from the `k`-th on, of this name.
pub open spec fn first_named(adapters: Seq<ProbeAdapter>, name: Seq<char>, k: int) -> Option<
    ProbeAdapter,
>
    decreases adapters.len() - k,
{
    if k >= adapters.len() {
        None
    } else if adapters[k].name@ == name {
        Some(adapters[k])
    } else {
        first_named(adapters, name, k + 1)
    }
}

/// The backend and the warning, as text: `None` for the CPU.
pub struct Outcome {
    pub gpu: Option<Seq<char>>,
    pub warning: Option<Seq<char>>,
}

/// Best available fallback (first encode-capable GPU, else CPU), phrased around `reason`.
pub open spec fn fallback_outcome(adapters: Seq<ProbeAdapter>, reason: Seq<char>) -> Outcome {
    match first_capable(adapters, 0) {
        Some(a) => Outcome {
            gpu: Some(a.name@),
            warning: Some(reason + "; using "@ + debug_form(a.name@) + " instead."@),
        },
        None => Outcome { gpu: None, warning: Some(reason + "; using the CPU encoder."@) },
    }
}

/// The backend for a preference, and the warning where it differs from what was asked for.
pub open spec fn outcome(pref: EncoderPreference, adapters: Seq<ProbeAdapter>) -> Outcome {
    match pref {
        EncoderPreference::Cpu => Outcome { gpu: None, warning: None },
        EncoderPreference::Auto => match first_capable(adapters, 0) {
            Some(a) => Outcome { gpu: Some(a.name@), warning: None },
            None => Outcome {
                gpu: None,
                warning: Some("No GPU can encode H.264; recording on the CPU."@),
            },
        },
        EncoderPreference::Gpu(name) => match first_named(adapters, name@, 0) {
            Some(a) => if a.h264_encode {
                Outcome { gpu: Some(name@), warning: None }
            } else {
                fallback_outcome(
                    adapters,
                    "The selected GPU "@ + debug_form(name@) + " can't encode H.264"@,
                )
            },
            None => fallback_outcome(
                adapters,
                "The selected GPU "@ + debug_form(name@) + " wasn't found"@,
            ),
        },
    }
}

/// Whether a choice and a warning are this outcome.
pub open spec fn shows(choice: EncoderChoice, warning: Option<String>, o: Outcome) -> bool {
    &&& match choice {
        EncoderChoice::Gpu(name) => o.gpu == Some(name@),
        EncoderChoice::Cpu => o.gpu is None,
    }
    &&& crate::paths::owned_text(warning) == o.warning
}

fn find_capable(adapters: &[ProbeAdapter]) -> (r: Option<&ProbeAdapter>)
    ensures
        match r {
            Some(a) => first_capable(adapters@, 0) == Some(*a),
            None => first_capable(adapters@, 0) is None,
        },
{
    let mut k: usize = 0;
    while k < adapters.len()
        invariant
            k <= adapters@.len(),
            first_capable(adapters@, 0) == first_capable(adapters@, k as int),
        decreases adapters@.len() - k,
    {
        if adapters[k].h264_encode {
            return Some(&adapters[k]);
        }
        k = k + 1;
    }
    None
}

fn find_named<'a>(adapters: &'a [ProbeAdapter], name: &str) -> (r: Option<&'a ProbeAdapter>)
    ensures
        match r {
            Some(a) => first_named(adapters@, name@, 0) == Some(*a),
            None => first_named(adapters@, name@, 0) is None,
        },
{
    let mut k: usize = 0;
    while k < adapters.len()
        invariant
            k <= adapters@.len(),
            first_named(adapters@, name@, 0) == first_named(adapters@, name@, k as int),
        decreases adapters@.len() - k,
    {
        if same(adapters[k].name.as_str(), name) {
            return Some(&adapters[k]);
        }
        k = k + 1;
    }
    None
}

/// Resolve the effective backend from the user's preference and the probed adapters.
///
/// Returns the choice plus an optional user-facing warning when the resolved backend differs
/// from what the preference asked for (a pinned GPU that vanished or can't encode, or auto
/// finding no encode-capable GPU). Auto prefers the first encode-capable adapter, else CPU.
pub fn choose_encoder(pref: &EncoderPreference, adapters: &[ProbeAdapter]) -> (r: (
    EncoderChoice,
    Option<String>,
))
    ensures
        shows(r.0, r.1, outcome(*pref, adapters@)),
{
    match pref {
        EncoderPreference::Cpu => (EncoderChoice::Cpu, None),
        EncoderPreference::Auto => match find_capable(adapters) {
            Some(a) => (EncoderChoice::Gpu(a.name.clone()), None),
            None => (
                EncoderChoice::Cpu,
                Some("No GPU can encode H.264; recording on the CPU.".to_owned()),
            ),
        },
        EncoderPreference::Gpu(name) => {
            let mut reason = "The selected GPU ".to_owned();
            reason.append(quoted(name.as_str()).as_str());
            match find_named(adapters, name.as_str()) {
                Some(a) => {
                    if a.h264_encode {
                        return (EncoderChoice::Gpu(name.clone()), None);
                    }
                    reason.append(" can't encode H.264");
                },
                None => reason.append(" wasn't found"),
            }
            fallback(adapters, reason)
        },
    }
}

/// Best available fallback (first encode-capable GPU, else CPU), phrased around `reason`.
fn fallback(adapters: &[ProbeAdapter], reason: String) -> (r: (EncoderChoice, Option<String>))
    ensures
        shows(r.0, r.1, fallback_outcome(adapters@, reason@)),
{
    let mut warning = reason;
    match find_capable(adapters) {
        Some(a) => {
            warning.append("; using ");
            warning.append(quoted(a.name.as_str()).as_str());
            warning.append(" instead.");
            (EncoderChoice::Gpu(a.name.clone()), Some(warning))
        },
        None => {
            warning.append("; using the CPU encoder.");
            (EncoderChoice::Cpu, Some(warning))
        },
    }
}

/// Whatever GPU is chosen can encode: it is one of the adapters, by name, that can.
pub proof fn law_chosen_gpu_can_encode(pref: EncoderPreference, adapters: Seq<ProbeAdapter>)
    ensures
        outcome(pref, adapters).gpu matches Some(name) ==> exists|i: int|
            0 <= i < adapters.len() && (#[trigger] adapters[i]).name@ == name
                && adapters[i].h264_encode,
{
    lemma_first_capable(adapters, 0);
    match pref {
        EncoderPreference::Gpu(name) => lemma_first_named(adapters, name@, 0),
        _ => {},
    }
}

proof fn lemma_first_capable(adapters: Seq<ProbeAdapter>, k: int)
    requires
        0 <= k,
    ensures
        first_capable(adapters, k) matches Some(a) ==> a.h264_encode && exists|i: int|
            0 <= i < adapters.len() && #[trigger] adapters[i] == a,
    decreases adapters.len() - k,
{
    if k < adapters.len() {
        lemma_first_capable(adapters, k + 1);
        assert(adapters[k] == adapters[k]);
    }
}

proof fn lemma_first_named(adapters: Seq<ProbeAdapter>, name: Seq<char>, k: int)
    requires
        0 <= k,
    ensures
        first_named(adapters, name, k) matches Some(a) ==> a.name@ == name && exists|i: int|
            0 <= i < adapters.len() && #[trigger] adapters[i] == a,
    decreases adapters.len() - k,
{
    if k < adapters.len() {
        lemma_first_named(adapters, name, k + 1);
        assert(adapters[k] == adapters[k]);
    }
}

/// Where some adapter can encode, only an explicit request for the CPU records on it.
pub proof fn law_capable_gpu_is_used(pref: EncoderPreference, adapters: Seq<ProbeAdapter>, i: int)
    requires
        0 <= i < adapters.len(),
        adapters[i].h264_encode,
        !(pref is Cpu),
    ensures
        outcome(pref, adapters).gpu is Some,
{
    lemma_some_capable(adapters, 0, i);
}

proof fn lemma_some_capable(adapters: Seq<ProbeAdapter>, k: int, i: int)
    requires
        0 <= k <= i < adapters.len(),
        adapters[i].h264_encode,
    ensures
        first_capable(adapters, k) is Some,
    decreases i - k,
{
    if k < i {
        lemma_some_capable(adapters, k + 1, i);
    }
}

/// The user is asked first: a pinned GPU that is there and can encode is used, without a warning,
/// whatever else there is; so is the CPU where it was asked for. A warning is given exactly where
/// what was asked for could not be had.
pub proof fn law_preference_is_honoured(pref: EncoderPreference, adapters: Seq<ProbeAdapter>)
    ensures
        pref is Cpu ==> outcome(pref, adapters).gpu is None && outcome(pref, adapters).warning
            is None,
        pref matches EncoderPreference::Gpu(name) ==> {
            &&& outcome(pref, adapters).warning is None ==> outcome(pref, adapters).gpu == Some(
                name@,
            )
            &&& (forall|i: int|
                0 <= i < adapters.len() && (#[trigger] adapters[i]).name@ == name@
                    ==> adapters[i].h264_encode) && (exists|i: int|
                0 <= i < adapters.len() && (#[trigger] adapters[i]).name@ == name@) ==> outcome(
                pref,
                adapters,
            ).warning is None
        },
        pref is Auto ==> (outcome(pref, adapters).warning is None <==> outcome(
            pref,
            adapters,
        ).gpu is Some),
{
    match pref {
        EncoderPreference::Gpu(name) => {
            lemma_first_named(adapters, name@, 0);
            if exists|i: int| 0 <= i < adapters.len() && (#[trigger] adapters[i]).name@ == name@ {
                let i = choose|i: int|
                    0 <= i < adapters.len() && (#[trigger] adapters[i]).name@ == name@;
                lemma_some_named(adapters, name@, 0, i);
            }
        },
        _ => {},
    }
}

proof fn lemma_some_named(adapters: Seq<ProbeAdapter>, name: Seq<char>, k: int, i: int)
    requires
        0 <= k <= i < adapters.len(),
        adapters[i].name@ == name,
    ensures
        first_named(adapters, name, k) is Some,
    decreases i - k,
{
    if k < i && adapters[k].name@ != name {
        lemma_some_named(adapters, name, k + 1, i);
    }
}

/// Left to itself, the recorder takes the first adapter that can encode.
pub proof fn law_auto_takes_the_first_capable(adapters: Seq<ProbeAdapter>, i: int)
    requires
        0 <= i < adapters.len(),
        adapters[i].h264_encode,
        forall|j: int| 0 <= j < i ==> !(#[trigger] adapters[j]).h264_encode,
    ensures
        outcome(EncoderPreference::Auto, adapters).gpu == Some(adapters[i].name@),
{
    lemma_first_capable_is(adapters, 0, i);
}

proof fn lemma_first_capable_is(adapters: Seq<ProbeAdapter>, k: int, i: int)
    requires
        0 <= k <= i < adapters.len(),
        adapters[i].h264_encode,
        forall|j: int| 0 <= j < i ==> !(#[trigger] adapters[j]).h264_encode,
    ensures
        first_capable(adapters, k) == Some(adapters[i]),
    decreases i - k,
{
    if k < i {
        lemma_first_capable_is(adapters, k + 1, i);
    }
}

} // verus!
