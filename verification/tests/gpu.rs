//! Adapter selection and texture readback layout.

use rewynd::encode::EncodeParams;
use rewynd::gpu::{
    aligned_bytes_per_row, copy_depadded, max_bitrate, select_encode_adapter,
    select_named_adapter, select_render_adapter, staging_sizes, validate_gpu, AdapterEncodeInfo,
    DeviceType, GpuError,
};

fn adapter(name: &str, h264: bool) -> AdapterEncodeInfo {
    let profiles = [None, Some((4096, 2304)), Some((1920, 4096))];
    AdapterEncodeInfo::probed(
        name.to_owned(),
        DeviceType::DiscreteGpu,
        if h264 { Some(profiles) } else { None },
    )
}

#[test]
fn a_probe_takes_the_largest_profile() {
    let a = adapter("RTX", true);
    assert!(a.h264_encode);
    assert_eq!((a.max_width, a.max_height), (4096, 4096));
    assert_eq!(a.device_kind(), "discrete");
    let b = adapter("iGPU", false);
    assert_eq!((b.h264_encode, b.max_width, b.max_height), (false, 0, 0));
}

#[test]
fn the_first_encoder_is_selected() {
    let adapters = [adapter("iGPU", false), adapter("RTX", true), adapter("Arc", true)];
    assert_eq!(select_encode_adapter(&adapters).unwrap(), 1);
    assert!(matches!(
        select_encode_adapter(&adapters[..1]),
        Err(GpuError::NoEncodeAdapter)
    ));
    assert!(matches!(
        select_encode_adapter(&[]),
        Err(GpuError::NoVulkanAdapter)
    ));
    assert_eq!(select_render_adapter(2).unwrap(), 0);
    assert!(select_render_adapter(0).is_err());
}

#[test]
fn a_pinned_adapter_must_be_there_and_encode() {
    let adapters = [adapter("iGPU", false), adapter("RTX", true)];
    assert_eq!(select_named_adapter(&adapters, "RTX").unwrap(), 1);
    assert!(matches!(
        select_named_adapter(&adapters, "iGPU"),
        Err(GpuError::NoEncodeAdapter)
    ));
    assert_eq!(
        select_named_adapter(&adapters, "Arc").unwrap_err().message(),
        "the configured GPU \"Arc\" was not found"
    );
}

#[test]
fn rows_are_padded_to_the_copy_alignment() {
    assert_eq!(aligned_bytes_per_row(256), 256);
    assert_eq!(aligned_bytes_per_row(257), 512);
    assert_eq!(staging_sizes(300, 4), (2048, 1024));
    let mut mapped = vec![9u8; 512];
    mapped[0] = 1;
    mapped[1] = 2;
    mapped[256] = 3;
    mapped[257] = 4;
    let mut dst = vec![7u8];
    copy_depadded(&mapped, 2, 1, &mut dst);
    assert_eq!(dst, [1, 2, 3, 4]);
}

#[test]
fn parameters_are_checked_up_front() {
    assert!(validate_gpu(EncodeParams::default()).is_ok());
    for bad in [
        EncodeParams {
            idr_period: 0,
            ..Default::default()
        },
        EncodeParams {
            width: 0,
            ..Default::default()
        },
        EncodeParams {
            height: 0,
            ..Default::default()
        },
    ] {
        assert!(validate_gpu(bad).is_err());
    }
    assert_eq!(max_bitrate(12_000_000), 24_000_000);
}
