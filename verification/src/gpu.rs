//! GPU adapters: what was probed of them, which one the pipeline runs on, and the row layout of
//! texture readback.

use crate::encode::{EncodeError, EncodeParams};
use crate::text::{debug_form, quoted, same};
use vstd::prelude::*;

verus! {

/// Rows of a texture copied to a buffer start at multiples of this many bytes.
pub const ROW_ALIGNMENT: u32 = 256;

/// Burst headroom the VBV rate control may use over the average bitrate.
pub const MAX_BITRATE_RATIO: u64 = 2;

/// Errors from GPU setup.
#[derive(Debug)]
pub enum GpuError {
    /// No Vulkan adapter at all — the machine can't run the capture pipeline (which needs
    /// Vulkan to import capture frames), software encoder or not.
    NoVulkanAdapter,
    /// Vulkan adapters exist, but none exposes H.264 video-encode support. The software
    /// (CPU) encoder is the fallback here.
    NoEncodeAdapter,
    /// The GPU pinned in config (`encoder = "gpu:<name>"`) is not present.
    AdapterUnavailable(String),
    /// The wgpu device could not be created.
    DeviceCreation(String),
    /// A captured GPU resource (DMA-BUF / shared handle) could not be imported as a texture.
    Import(String),
}

impl GpuError {
    /// What went wrong, in words.
    pub fn message(&self) -> (r: String)
        ensures
            r@ == match *self {
                GpuError::NoVulkanAdapter =>
                    "no Vulkan adapter found (is a Vulkan driver installed?)"@,
                GpuError::NoEncodeAdapter => "no Vulkan adapter supports H.264 video encode"@,
                GpuError::AdapterUnavailable(name) => "the configured GPU "@ + debug_form(name@)
                    + " was not found"@,
                GpuError::DeviceCreation(why) => "failed to create the shared wgpu device: "@
                    + why@,
                GpuError::Import(why) => "failed to import external GPU memory: "@ + why@,
            },
    {
        match self {
            GpuError::NoVulkanAdapter =>
                "no Vulkan adapter found (is a Vulkan driver installed?)".to_owned(),
            GpuError::NoEncodeAdapter => "no Vulkan adapter supports H.264 video encode".to_owned(),
            GpuError::AdapterUnavailable(name) => {
                let shown = quoted(name.as_str());
                "the configured GPU ".to_owned().concat(shown.as_str()).concat(" was not found")
            },
            GpuError::DeviceCreation(why) =>
                "failed to create the shared wgpu device: ".to_owned().concat(why.as_str()),
            GpuError::Import(why) => "failed to import external GPU memory: ".to_owned().concat(
                why.as_str(),
            ),
        }
    }
}

/// Class of an adapter.
#[derive(Debug, Clone, Copy, PartialEq, Eq, Structural)]
pub enum DeviceType {
    /// None of the others.
    Other,
    /// Shares memory with the CPU.
    IntegratedGpu,
    /// Has memory of its own.
    DiscreteGpu,
    /// Virtualised.
    VirtualGpu,
    /// Software rendering.
    Cpu,
}

/// One Vulkan adapter's H.264-encode capability, as probed at recorder start. Feeds the
/// backend selector and the GUI's "Recording method" picker.
#[derive(Debug, Clone)]
pub struct AdapterEncodeInfo {
    /// Human-readable adapter name, also the key config uses to pin a device
    /// (`encoder = "gpu:<name>"`).
    pub name: String,
    /// Adapter class (discrete / integrated / …), for labelling and default preference.
    pub device_type: DeviceType,
    /// Whether this adapter can encode H.264 via Vulkan Video.
    pub h264_encode: bool,
    /// Maximum encode width across the H.264 profiles (0 when `!h264_encode`).
    pub max_width: u32,
    /// Maximum encode height across the H.264 profiles (0 when `!h264_encode`).
    pub max_height: u32,
}

/// The largest of the numbers that are there; 0 where none is.
pub open spec fn largest(a: Option<u32>, b: Option<u32>, c: Option<u32>) -> u32 {
    let (x, y, z) = (or_zero(a), or_zero(b), or_zero(c));
    if x >= y && x >= z {
        x
    } else if y >= z {
        y
    } else {
        z
    }
}

/// A number, or 0.
pub open spec fn or_zero(a: Option<u32>) -> u32 {
    match a {
        Some(n) => n,
        None => 0,
    }
}

/// One side of a profile's limits.
pub open spec fn side(profile: Option<(u32, u32)>, width: bool) -> Option<u32> {
    match profile {
        Some((w, h)) => Some(
            if width {
                w
            } else {
                h
            },
        ),
        None => None,
    }
}

impl AdapterEncodeInfo {
    /// A stable lowercase device-class label, for serialisation and the GUI.
    pub fn device_kind(&self) -> (r: &'static str)
        ensures
            r@ == match self.device_type {
                DeviceType::DiscreteGpu => "discrete"@,
                DeviceType::IntegratedGpu => "integrated"@,
                DeviceType::VirtualGpu => "virtual"@,
                DeviceType::Cpu => "cpu"@,
                DeviceType::Other => "other"@,
            },
    {
        match self.device_type {
            DeviceType::DiscreteGpu => "discrete",
            DeviceType::IntegratedGpu => "integrated",
            DeviceType::VirtualGpu => "virtual",
            DeviceType::Cpu => "cpu",
            DeviceType::Other => "other",
        }
    }

    /// What is known of an adapter whose H.264 capability lists the `(width, height)` limits of
    /// the baseline, main and high profile, or that has no H.264 capability.
    pub fn probed(
        name: String,
        device_type: DeviceType,
        h264: Option<[Option<(u32, u32)>; 3]>,
    ) -> (r: Self)
        ensures
            r.name == name,
            r.device_type == device_type,
            r.h264_encode == h264 is Some,
            match h264 {
                Some(profiles) => r.max_width == largest(
                    side(profiles[0], true),
                    side(profiles[1], true),
                    side(profiles[2], true),
                ) && r.max_height == largest(
                    side(profiles[0], false),
                    side(profiles[1], false),
                    side(profiles[2], false),
                ),
                None => r.max_width == 0 && r.max_height == 0,
            },
    {
        let mut max_width: u32 = 0;
        let mut max_height: u32 = 0;
        match h264 {
            Some(profiles) => {
                let (a, b, c) = (profiles[0], profiles[1], profiles[2]);
                match a {
                    Some((w, h)) => {
                        max_width = w;
                        max_height = h;
                    },
                    None => {},
                }
                match b {
                    Some((w, h)) => {
                        max_width = if w > max_width {
                            w
                        } else {
                            max_width
                        };
                        max_height = if h > max_height {
                            h
                        } else {
                            max_height
                        };
                    },
                    None => {},
                }
                match c {
                    Some((w, h)) => {
                        max_width = if w > max_width {
                            w
                        } else {
                            max_width
                        };
                        max_height = if h > max_height {
                            h
                        } else {
                            max_height
                        };
                    },
                    None => {},
                }
            },
            None => {},
        }
        AdapterEncodeInfo { name, device_type, h264_encode: h264.is_some(), max_width, max_height }
    }
}

/// The first adapter from the `k`-th on that can encode H.264.
pub open spec fn first_encoder(adapters: Seq<AdapterEncodeInfo>, k: int) -> Option<int>
    decreases adapters.len() - k,
{
    if k >= adapters.len() {
        None
    } else if adapters[k].h264_encode {
        Some(k)
    } else {
        first_encoder(adapters, k + 1)
    }
}

/// The first adapter from the `k`-th on that is called `name`.
pub open spec fn first_named(
    adapters: Seq<AdapterEncodeInfo>,
    name: Seq<char>,
    k: int,
) -> Option<int>
    decreases adapters.len() - k,
{
    if k >= adapters.len() {
        None
    } else if adapters[k].name@ == name {
        Some(k)
    } else {
        first_named(adapters, name, k + 1)
    }
}

/// The adapter for the shared device: the first that can encode H.264.
pub fn select_encode_adapter(adapters: &[AdapterEncodeInfo]) -> (r: Result<usize, GpuError>)
    ensures
        match r {
            Ok(k) => k < adapters@.len() && first_encoder(adapters@, 0) == Some(k as int),
            Err(e) => first_encoder(adapters@, 0) is None && if adapters@.len() == 0 {
                e is NoVulkanAdapter
            } else {
                e is NoEncodeAdapter
            },
        },
{
    if adapters.len() == 0 {
        return Err(GpuError::NoVulkanAdapter);
    }
    let mut k: usize = 0;
    while k < adapters.len()
        invariant
            k <= adapters@.len(),
            adapters@.len() > 0,
            first_encoder(adapters@, 0) == first_encoder(adapters@, k as int),
        decreases adapters@.len() - k,
    {
        if adapters[k].h264_encode {
            return Ok(k);
        }
        k = k + 1;
    }
    Err(GpuError::NoEncodeAdapter)
}

/// The adapter that config pins by name (`encoder = "gpu:<name>"`). Errors if it is absent or
/// can't encode H.264.
pub fn select_named_adapter(adapters: &[AdapterEncodeInfo], name: &str) -> (r: Result<
    usize,
    GpuError,
>)
    ensures
        match first_named(adapters@, name@, 0) {
            None => r matches Err(GpuError::AdapterUnavailable(missing)) && missing@ == name@,
            Some(k) => if adapters@[k].h264_encode {
                r matches Ok(at) && at == k
            } else {
                r matches Err(GpuError::NoEncodeAdapter)
            },
        },
{
    let mut k: usize = 0;
    while k < adapters.len()
        invariant
            k <= adapters@.len(),
            first_named(adapters@, name@, 0) == first_named(adapters@, name@, k as int),
        decreases adapters@.len() - k,
    {
        if same(adapters[k].name.as_str(), name) {
            if adapters[k].h264_encode {
                return Ok(k);
            }
            return Err(GpuError::NoEncodeAdapter);
        }
        k = k + 1;
    }
    Err(GpuError::AdapterUnavailable(name.to_owned()))
}

/// The adapter for a plain render device (no video encode): the first of them.
pub fn select_render_adapter(count: usize) -> (r: Result<usize, GpuError>)
    ensures
        match r {
            Ok(k) => count > 0 && k == 0,
            Err(e) => count == 0 && e is NoVulkanAdapter,
        },
{
    if count == 0 {
        Err(GpuError::NoVulkanAdapter)
    } else {
        Ok(0)
    }
}

/// Why the GPU encoder refuses `params`, if it does. A zero GOP would silently fall back to the
/// encoder default, breaking the ring buffer's cut points.
pub open spec fn gpu_refusal(params: EncodeParams) -> Option<Seq<char>> {
    if params.idr_period == 0 {
        Some("idr_period must be > 0"@)
    } else if params.width == 0 {
        Some("width must be > 0"@)
    } else if params.height == 0 {
        Some("height must be > 0"@)
    } else {
        None
    }
}

/// Rejects a zero GOP and zero dimensions.
pub fn validate_gpu(params: EncodeParams) -> (r: Result<(), EncodeError>)
    ensures
        match gpu_refusal(params) {
            Some(why) => r matches Err(e) && e.is_init(why),
            None => r is Ok,
        },
{
    if params.idr_period == 0 {
        return Err(EncodeError::Init("idr_period must be > 0".to_owned()));
    }
    if params.width == 0 {
        return Err(EncodeError::Init("width must be > 0".to_owned()));
    }
    if params.height == 0 {
        return Err(EncodeError::Init("height must be > 0".to_owned()));
    }
    Ok(())
}

/// The most that the rate control may burst to, for an average of `bitrate_bps`.
pub fn max_bitrate(bitrate_bps: u32) -> (r: u64)
    ensures
        r == bitrate_bps * MAX_BITRATE_RATIO,
{
    bitrate_bps as u64 * MAX_BITRATE_RATIO
}

/// A row of `unpadded` bytes as a texture copy lays it out.
pub open spec fn padded(unpadded: nat) -> nat {
    (unpadded + 255) / 256 * 256
}

/// Round `unpadded` up to the alignment that a texture-to-buffer copy requires.
pub fn aligned_bytes_per_row(unpadded: u32) -> (r: u32)
    requires
        padded(unpadded as nat) <= u32::MAX,
    ensures
        r == padded(unpadded as nat),
        r >= unpadded,
{
    let over: u32 = unpadded % ROW_ALIGNMENT;
    if over == 0 {
        unpadded
    } else {
        unpadded - over + ROW_ALIGNMENT
    }
}

/// The sizes of the readback buffers for an NV12 frame: Y is full-res at one byte per texel, UV
/// is half-res at two.
pub fn staging_sizes(width: u32, height: u32) -> (r: (u64, u64))
    requires
        padded(width as nat) <= u32::MAX,
    ensures
        r.0 == padded(width as nat) * height,
        r.1 == padded((width / 2 * 2) as nat) * (height / 2),
{
    let y: u32 = aligned_bytes_per_row(width);
    let uv: u32 = aligned_bytes_per_row((width / 2) * 2);
    proof {
        assert(y * height <= 0xffff_ffff * 0xffff_ffff) by (nonlinear_arith)
            requires
                y <= 0xffff_ffff,
                height <= 0xffff_ffff,
        ;
        assert(uv * (height / 2) <= 0xffff_ffff * 0xffff_ffff) by (nonlinear_arith)
            requires
                uv <= 0xffff_ffff,
                0 <= height / 2 <= 0xffff_ffff,
        ;
    }
    (y as u64 * height as u64, uv as u64 * (height / 2) as u64)
}

/// The first `rows` rows of `data`, each cut from `pitch` to `row` bytes.
pub open spec fn depadded(data: Seq<u8>, row: nat, pitch: nat, rows: nat) -> Seq<u8>
    decreases rows,
{
    if rows == 0 {
        Seq::empty()
    } else {
        let at = (rows - 1) * pitch;
        depadded(data, row, pitch, (rows - 1) as nat) + data.subrange(at, at + row)
    }
}

/// Copy a plane that was read back into the tightly-packed (de-padded) `dst`, replacing what was
/// there. A last partial row is dropped.
pub fn copy_depadded(mapped: &[u8], width: u32, bytes_per_texel: u32, dst: &mut Vec<u8>)
    requires
        width * bytes_per_texel > 0,
        padded((width * bytes_per_texel) as nat) <= u32::MAX,
    ensures
        ({
            let row = (width * bytes_per_texel) as nat;
            final(dst)@ == depadded(mapped@, row, padded(row), mapped@.len() / padded(row))
        }),
{
    let row: usize = (width * bytes_per_texel) as usize;
    let pitch: usize = aligned_bytes_per_row(width * bytes_per_texel) as usize;
    dst.clear();
    let rows: usize = mapped.len() / pitch;
    let mut n: usize = 0;
    while n < rows
        invariant
            n <= rows,
            rows == mapped@.len() / pitch as nat,
            mapped@.len() <= usize::MAX,
            0 < row <= pitch,
            dst@ == depadded(mapped@, row as nat, pitch as nat, n as nat),
        decreases rows - n,
    {
        proof {
            vstd::arithmetic::div_mod::lemma_fundamental_div_mod(
                mapped@.len() as int,
                pitch as int,
            );
            assert((n + 1) * pitch <= mapped@.len()) by (nonlinear_arith)
                requires
                    n + 1 <= rows,
                    mapped@.len() == pitch * rows + mapped@.len() as int % (pitch as int),
                    mapped@.len() as int % (pitch as int) >= 0,
            ;
            assert((n + 1) * pitch == n * pitch + pitch) by (nonlinear_arith);
            assert(n * pitch >= 0) by (nonlinear_arith)
                requires
                    n >= 0,
                    pitch >= 0,
            ;
        }
        let at: usize = n * pitch;
        crate::nal::push_bytes(dst, mapped, at, at + row);
        n = n + 1;
    }
}

/// A texture row is padded to the next multiple of the alignment, and to no more.
pub proof fn law_row_padding_is_least(unpadded: nat)
    ensures
        padded(unpadded) % ROW_ALIGNMENT as nat == 0,
        unpadded <= padded(unpadded) < unpadded + ROW_ALIGNMENT,
{
}

/// Taking the padding out of a plane moves no texel: the byte in column `x` of row `y` is the one
/// that was read back there, and the rows follow each other without a gap.
pub proof fn law_depadded_plane_keeps_texels(
    data: Seq<u8>,
    row: nat,
    pitch: nat,
    rows: nat,
    x: int,
    y: int,
)
    requires
        row <= pitch,
        rows * pitch <= data.len(),
        0 <= x < row,
        0 <= y < rows,
    ensures
        depadded(data, row, pitch, rows).len() == rows * row,
        depadded(data, row, pitch, rows)[y * row + x] == data[y * pitch + x],
{
    lemma_depadded(data, row, pitch, rows);
    lemma_depadded_at(data, row, pitch, rows, x, y);
}

proof fn lemma_depadded(data: Seq<u8>, row: nat, pitch: nat, rows: nat)
    requires
        row <= pitch,
        rows * pitch <= data.len(),
    ensures
        depadded(data, row, pitch, rows).len() == rows * row,
    decreases rows,
{
    if rows > 0 {
        let before = (rows - 1) as nat;
        assert(rows * pitch == before * pitch + pitch && rows * row == before * row + row
            && 0 <= before * pitch) by (nonlinear_arith)
            requires
                rows == before + 1,
                0 <= before,
                0 <= pitch,
        ;
        lemma_depadded(data, row, pitch, before);
    } else {
        assert(rows * row == 0) by (nonlinear_arith)
            requires
                rows == 0,
        ;
    }
}

proof fn lemma_depadded_at(data: Seq<u8>, row: nat, pitch: nat, rows: nat, x: int, y: int)
    requires
        row <= pitch,
        rows * pitch <= data.len(),
        0 <= x < row,
        0 <= y < rows,
    ensures
        depadded(data, row, pitch, rows)[y * row + x] == data[y * pitch + x],
    decreases rows,
{
    let before = (rows - 1) as nat;
    assert(rows * pitch == before * pitch + pitch && 0 <= before * pitch) by (nonlinear_arith)
        requires
            rows == before + 1,
            0 <= before,
            0 <= pitch,
    ;
    lemma_depadded(data, row, pitch, before);
    if y < before {
        lemma_depadded_at(data, row, pitch, before, x, y);
        assert(y * row + x < before * row && 0 <= y * row) by (nonlinear_arith)
            requires
                y + 1 <= before,
                x < row,
                0 <= y,
        ;
    }
}

/// The adapter that is selected can encode and is the first that can; where none is selected, none
/// can.
pub proof fn law_first_encoder_is_selected(adapters: Seq<AdapterEncodeInfo>)
    ensures
        match first_encoder(adapters, 0) {
            Some(k) => 0 <= k < adapters.len() && adapters[k].h264_encode && forall|j: int|
                0 <= j < k ==> !(#[trigger] adapters[j]).h264_encode,
            None => forall|j: int| 0 <= j < adapters.len() ==> !(
            #[trigger] adapters[j]).h264_encode,
        },
{
    lemma_first_encoder(adapters, 0);
}

proof fn lemma_first_encoder(adapters: Seq<AdapterEncodeInfo>, from: int)
    requires
        0 <= from,
    ensures
        match first_encoder(adapters, from) {
            Some(k) => from <= k < adapters.len() && adapters[k].h264_encode && forall|j: int|
                from <= j < k ==> !(#[trigger] adapters[j]).h264_encode,
            None => forall|j: int| from <= j < adapters.len() ==> !(
            #[trigger] adapters[j]).h264_encode,
        },
    decreases adapters.len() - from,
{
    if from < adapters.len() && !adapters[from].h264_encode {
        lemma_first_encoder(adapters, from + 1);
    }
}

/// An adapter that is pinned by name is found by exactly that name, and is the first one that has
/// it; where none is found, none has it.
pub proof fn law_pinned_adapter_has_the_name(adapters: Seq<AdapterEncodeInfo>, name: Seq<char>)
    ensures
        match first_named(adapters, name, 0) {
            Some(k) => 0 <= k < adapters.len() && adapters[k].name@ == name && forall|j: int|
                0 <= j < k ==> (#[trigger] adapters[j]).name@ != name,
            None => forall|j: int| 0 <= j < adapters.len() ==> (#[trigger] adapters[j]).name@
                != name,
        },
{
    lemma_first_named(adapters, name, 0);
}

proof fn lemma_first_named(adapters: Seq<AdapterEncodeInfo>, name: Seq<char>, from: int)
    requires
        0 <= from,
    ensures
        match first_named(adapters, name, from) {
            Some(k) => from <= k < adapters.len() && adapters[k].name@ == name && forall|j: int|
                from <= j < k ==> (#[trigger] adapters[j]).name@ != name,
            None => forall|j: int| from <= j < adapters.len() ==> (#[trigger] adapters[j]).name@
                != name,
        },
    decreases adapters.len() - from,
{
    if from < adapters.len() && adapters[from].name@ != name {
        lemma_first_named(adapters, name, from + 1);
    }
}

/// What is known of an adapter's limits is the most that any of its profiles takes: no profile
/// takes more, and some profile takes as much.
pub proof fn law_probed_limits_are_the_most(
    name: String,
    device_type: DeviceType,
    profiles: [Option<(u32, u32)>; 3],
    i: int,
    info: AdapterEncodeInfo,
)
    requires
        call_ensures(AdapterEncodeInfo::probed, (name, device_type, Some(profiles)), info),
        0 <= i < 3,
    ensures
        info.h264_encode,
        info.name == name,
        info.device_type == device_type,
        profiles[i] matches Some((w, h)) ==> w <= info.max_width && h <= info.max_height,
        info.max_width == 0 || exists|k: int|
            0 <= k < 3 && (#[trigger] profiles[k] matches Some((w, _)) && w == info.max_width),
        info.max_height == 0 || exists|k: int|
            0 <= k < 3 && (#[trigger] profiles[k] matches Some((_, h)) && h == info.max_height),
{
    assert(profiles[0] is Some || profiles[0] is None);
    assert(profiles[1] is Some || profiles[1] is None);
    assert(profiles[2] is Some || profiles[2] is None);
}

/// A GPU session is opened for every picture that has an extent and a keyframe period, and
/// refused for any other.
pub proof fn law_gpu_takes_every_extent(params: EncodeParams, r: Result<(), EncodeError>)
    requires
        call_ensures(validate_gpu, (params,), r),
    ensures
        r is Ok == (params.width > 0 && params.height > 0 && params.idr_period > 0),
{
}

} // verus!
