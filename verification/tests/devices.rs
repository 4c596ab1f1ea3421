//! The microphone picker's list.

use rewynd::devices::{
    fourcc, list_audio_inputs, named_inputs, parse_pw_dump, AudioInput,
};

#[test]
fn parses_sources_labels_and_skips_non_sources() {
    let json = br#"[
        {"type":"PipeWire:Interface:Node","info":{"props":{
            "media.class":"Audio/Source",
            "node.name":"alsa_input.usb-mic",
            "node.description":"USB Microphone"}}},
        {"type":"PipeWire:Interface:Node","info":{"props":{
            "media.class":"Audio/Sink",
            "node.name":"alsa_output.speakers",
            "node.description":"Speakers"}}},
        {"type":"PipeWire:Interface:Node","info":{"props":{
            "media.class":"Audio/Source/Virtual",
            "node.name":"virtual.source",
            "node.nick":"Nick Only"}}},
        {"type":"PipeWire:Interface:Node","info":{"props":{
            "media.class":"Audio/Source",
            "node.name":"bare.name"}}},
        {"type":"PipeWire:Interface:Node","info":{"props":{
            "media.class":"Audio/Source",
            "node.name":"alsa_input.usb-mic",
            "node.description":"Duplicate"}}},
        {"type":"PipeWire:Interface:Client","info":{"props":{
            "media.class":"Audio/Source","node.name":"not.a.node"}}}
    ]"#;
    let got = parse_pw_dump(json);
    assert_eq!(
        got,
        vec![
            AudioInput {
                id: "alsa_input.usb-mic".to_owned(),
                label: "USB Microphone".to_owned(),
            },
            // Falls back to node.nick when there's no description.
            AudioInput {
                id: "virtual.source".to_owned(),
                label: "Nick Only".to_owned(),
            },
            // Falls back to node.name when neither description nor nick is present.
            AudioInput {
                id: "bare.name".to_owned(),
                label: "bare.name".to_owned(),
            },
        ]
    );
}

#[test]
fn malformed_payloads_yield_nothing() {
    assert!(parse_pw_dump(b"not json").is_empty());
    assert!(parse_pw_dump(b"{}").is_empty());
    assert!(parse_pw_dump(b"[]").is_empty());
    // A node with no props is skipped, not a panic.
    assert!(parse_pw_dump(br#"[{"type":"PipeWire:Interface:Node"}]"#).is_empty());
}

#[test]
fn a_description_that_is_no_text_hides_the_nick() {
    let json = br#"[{"type":"PipeWire:Interface:Node","info":{"props":{
        "media.class":"Audio/Source","node.name":"mic",
        "node.description":7,"node.nick":"Nick"}}}]"#;
    assert_eq!(parse_pw_dump(json)[0].label, "mic");
}

#[test]
fn listing_never_panics() {
    // pw-dump may be absent in CI; the call must degrade to an empty list.
    assert!(list_audio_inputs(None).is_empty());
    assert!(list_audio_inputs(Some(b"[]")).is_empty());
}

#[test]
fn fourcc_matches_the_header_spelling() {
    assert_eq!(fourcc(b"dev#"), 0x6465_7623);
    assert_eq!(fourcc(b"lnam"), 0x6c6e_616d);
}

#[test]
fn listing_never_panics_and_yields_named_inputs() {
    // The device set is machine-specific; only the invariants are asserted.
    let names = ["Built-in", "", "USB Mic"].map(str::to_owned);
    let inputs = named_inputs(&names);
    assert_eq!(inputs.len(), 2);
    for input in inputs {
        assert!(!input.id.is_empty());
        assert_eq!(input.id, input.label);
    }
}
