//! Encoder selection.

use rewynd::encoders::{
    choose_encoder, EncoderChoice, EncoderProbe, ProbeAdapter, ENCODER_PROBE_VERSION,
};
use rewynd::schema::EncoderPreference;

fn adapter(name: &str, h264: bool) -> ProbeAdapter {
    ProbeAdapter {
        name: name.to_owned(),
        device_type: "discrete".to_owned(),
        h264_encode: h264,
        max_width: if h264 { 4096 } else { 0 },
        max_height: if h264 { 4096 } else { 0 },
    }
}

#[test]
fn probe_json_rejects_bad_version() {
    let probe = EncoderProbe {
        version: 999,
        adapters: vec![],
    };
    assert_eq!(
        probe.accepted(),
        Err("unsupported encoder probe version 999 (expected 1)".to_owned())
    );
    let current = EncoderProbe::new(vec![adapter("RTX 3080 Ti", true)]);
    assert_eq!(current.version, ENCODER_PROBE_VERSION);
    assert!(current.accepted().is_ok());
}

#[test]
fn auto_prefers_encode_gpu() {
    let adapters = [adapter("iGPU", false), adapter("RTX", true)];
    let (choice, warn) = choose_encoder(&EncoderPreference::Auto, &adapters);
    assert_eq!(choice, EncoderChoice::Gpu("RTX".to_owned()));
    assert!(warn.is_none());
}

#[test]
fn auto_falls_back_to_cpu_and_warns() {
    let adapters = [adapter("iGPU", false)];
    let (choice, warn) = choose_encoder(&EncoderPreference::Auto, &adapters);
    assert_eq!(choice, EncoderChoice::Cpu);
    assert!(warn.is_some());
}

#[test]
fn cpu_preference_is_honoured_without_warning() {
    let adapters = [adapter("RTX", true)];
    let (choice, warn) = choose_encoder(&EncoderPreference::Cpu, &adapters);
    assert_eq!(choice, EncoderChoice::Cpu);
    assert!(warn.is_none());
}

#[test]
fn pinned_gpu_present_and_capable() {
    let adapters = [adapter("RTX", true)];
    let (choice, warn) = choose_encoder(&EncoderPreference::Gpu("RTX".to_owned()), &adapters);
    assert_eq!(choice, EncoderChoice::Gpu("RTX".to_owned()));
    assert!(warn.is_none());
}

#[test]
fn pinned_gpu_missing_falls_back_to_other_gpu() {
    let adapters = [adapter("RTX", true)];
    let (choice, warn) = choose_encoder(&EncoderPreference::Gpu("Arc".to_owned()), &adapters);
    assert_eq!(choice, EncoderChoice::Gpu("RTX".to_owned()));
    assert!(warn.is_some());
}

#[test]
fn pinned_gpu_incapable_falls_back_to_cpu() {
    let adapters = [adapter("iGPU", false)];
    let (choice, warn) = choose_encoder(&EncoderPreference::Gpu("iGPU".to_owned()), &adapters);
    assert_eq!(choice, EncoderChoice::Cpu);
    assert!(warn.is_some());
}

#[test]
fn warnings_quote_the_names() {
    let adapters = [adapter("R\"TX", true)];
    let (_, warn) = choose_encoder(&EncoderPreference::Gpu("Arc\n".to_owned()), &adapters);
    assert_eq!(
        warn.as_deref(),
        Some("The selected GPU \"Arc\\n\" wasn't found; using \"R\\\"TX\" instead.")
    );
    let (_, warn) = choose_encoder(
        &EncoderPreference::Gpu("iGPU".to_owned()),
        &[adapter("iGPU", false)],
    );
    assert_eq!(
        warn.as_deref(),
        Some("The selected GPU \"iGPU\" can't encode H.264; using the CPU encoder.")
    );
}

#[test]
fn choice_label_matches_config_form() {
    assert_eq!(EncoderChoice::Cpu.label(), "cpu");
    assert_eq!(EncoderChoice::Gpu("RTX".to_owned()).label(), "gpu:RTX");
}
