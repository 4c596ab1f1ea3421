//! The configuration: defaults, files, overrides and accessors.

use rewynd::clock::Duration;
use rewynd::schema::{
    file_config, non_empty_or, save_temp_path, AudioConfig, BufferConfig, CaptureConfig, Config,
    ConfigSource, EncoderPreference, Gain, HotkeyConfig, OutputConfig, Overrides, Sections,
    StartupConfig, UpdatesConfig, UploadConfig, VideoConfig, VideoSettings, YouTubeConfig,
    DEFAULT_TEMPLATE, DEFAULT_UPLOAD_API_URL, DEFAULT_UPLOAD_SHARE_URL, MAX_BUFFER_SECONDS,
};
use std::collections::HashMap;
use toml::{Table, Value};

fn number(value: Value) -> Option<u32> {
    value.as_integer().and_then(|n| u32::try_from(n).ok())
}

fn text(value: Value) -> Option<String> {
    value.as_str().map(str::to_owned)
}

fn gain(value: Value) -> Option<Gain> {
    value.as_float().map(|g| Gain {
        bits: (g as f32).to_bits(),
    })
}

fn gain_of(g: Gain) -> f32 {
    f32::from_bits(g.bits)
}

/// The section with the given keys over its defaults; `None` where a key is unknown or its
/// value is of another type.
fn video(table: Table) -> Option<VideoConfig> {
    let mut s = VideoConfig::default();
    for (key, value) in table {
        match key.as_str() {
            "width" => s.width = number(value)?,
            "height" => s.height = number(value)?,
            "framerate" => s.framerate = number(value)?,
            "bitrate_bps" => s.bitrate_bps = number(value)?,
            "idr_period" => s.idr_period = number(value)?,
            "encoder" => s.encoder = text(value)?,
            _ => return None,
        }
    }
    Some(s)
}

fn audio(table: Table) -> Option<AudioConfig> {
    let mut s = AudioConfig::default();
    for (key, value) in table {
        match key.as_str() {
            "sample_rate" => s.sample_rate = number(value)?,
            "channels" => s.channels = number(value)?,
            "bitrate_bps" => s.bitrate_bps = number(value)?,
            "mic_gain" => s.mic_gain = gain(value)?,
            "system_gain" => s.system_gain = gain(value)?,
            "microphone" => s.microphone = text(value)?,
            "mic_enabled" => s.mic_enabled = value.as_bool()?,
            "separate_mic_track" => s.separate_mic_track = value.as_bool()?,
            _ => return None,
        }
    }
    Some(s)
}

fn buffer(table: Table) -> Option<BufferConfig> {
    let mut s = BufferConfig::default();
    for (key, value) in table {
        match key.as_str() {
            "seconds" => s.seconds = value.as_integer().and_then(|n| u64::try_from(n).ok())?,
            _ => return None,
        }
    }
    Some(s)
}

fn output(table: Table) -> Option<OutputConfig> {
    let mut s = OutputConfig::default();
    for (key, value) in table {
        match key.as_str() {
            "directory" => s.directory = Some(text(value)?),
            "game_folders" => s.game_folders = value.as_bool()?,
            _ => return None,
        }
    }
    Some(s)
}

fn hotkey(table: Table) -> Option<HotkeyConfig> {
    let mut s = HotkeyConfig::default();
    for (key, value) in table {
        match key.as_str() {
            "trigger" => s.trigger = text(value)?,
            _ => return None,
        }
    }
    Some(s)
}

fn capture(table: Table) -> Option<CaptureConfig> {
    let mut s = CaptureConfig::default();
    for (key, value) in table {
        match key.as_str() {
            "always_prompt" => s.always_prompt = value.as_bool()?,
            "desktop" => s.desktop = value.as_bool()?,
            _ => return None,
        }
    }
    Some(s)
}

fn startup(table: Table) -> Option<StartupConfig> {
    let mut s = StartupConfig::default();
    for (key, value) in table {
        match key.as_str() {
            "on_boot" => s.on_boot = value.as_bool()?,
            _ => return None,
        }
    }
    Some(s)
}

fn updates(table: Table) -> Option<UpdatesConfig> {
    let mut s = UpdatesConfig::default();
    for (key, value) in table {
        match key.as_str() {
            "auto_install" => s.auto_install = value.as_bool()?,
            _ => return None,
        }
    }
    Some(s)
}

fn upload(table: Table) -> Option<UploadConfig> {
    let mut s = UploadConfig::default();
    for (key, value) in table {
        match key.as_str() {
            "enabled" => s.enabled = value.as_bool()?,
            "api_url" => s.api_url = text(value)?,
            "share_url" => s.share_url = text(value)?,
            "api_key" => s.api_key = text(value)?,
            "visibility" => s.visibility = text(value)?,
            _ => return None,
        }
    }
    Some(s)
}

fn youtube(table: Table) -> Option<YouTubeConfig> {
    let mut s = YouTubeConfig::default();
    for (key, value) in table {
        match key.as_str() {
            "enabled" => s.enabled = value.as_bool()?,
            "client_id" => s.client_id = text(value)?,
            "client_secret" => s.client_secret = text(value)?,
            "refresh_token" => s.refresh_token = text(value)?,
            "visibility" => s.visibility = text(value)?,
            _ => return None,
        }
    }
    Some(s)
}

/// The file's sections, and whether the whole of it is a valid config.
fn read(source: &str) -> (Sections, bool) {
    let mut s = Sections {
        video: None,
        audio: None,
        buffer: None,
        output: None,
        hotkey: None,
        capture: None,
        startup: None,
        updates: None,
        upload: None,
        youtube: None,
    };
    let Ok(document) = source.parse::<Table>() else {
        return (s, false);
    };
    let mut valid = true;
    for (name, value) in document {
        let Value::Table(table) = value else {
            valid = false;
            continue;
        };
        let ok = match name.as_str() {
            "video" => {
                s.video = video(table);
                s.video.is_some()
            }
            "audio" => {
                s.audio = audio(table);
                s.audio.is_some()
            }
            "buffer" => {
                s.buffer = buffer(table);
                s.buffer.is_some()
            }
            "output" => {
                s.output = output(table);
                s.output.is_some()
            }
            "hotkey" => {
                s.hotkey = hotkey(table);
                s.hotkey.is_some()
            }
            "capture" => {
                s.capture = capture(table);
                s.capture.is_some()
            }
            "startup" => {
                s.startup = startup(table);
                s.startup.is_some()
            }
            "updates" => {
                s.updates = updates(table);
                s.updates.is_some()
            }
            "upload" => {
                s.upload = upload(table);
                s.upload.is_some()
            }
            "youtube" => {
                s.youtube = youtube(table);
                s.youtube.is_some()
            }
            _ => false,
        };
        valid = valid && ok;
    }
    (s, valid)
}

fn source_of(text: &str) -> ConfigSource {
    let (sections, valid) = read(text);
    if valid {
        ConfigSource::Parsed(file_config(ConfigSource::Malformed(sections)))
    } else {
        ConfigSource::Malformed(sections)
    }
}

fn parse(text: &str) -> Config {
    match source_of(text) {
        ConfigSource::Parsed(c) => c,
        _ => panic!("not a valid config: {text}"),
    }
}

fn none() -> Overrides {
    Overrides {
        width: None,
        height: None,
        fps: None,
        bitrate_bps: None,
        idr_period: None,
        encoder: None,
        audio_bitrate_bps: None,
        microphone: None,
        output_dir: None,
        capture_desktop: None,
    }
}

#[test]
fn encoder_preference_parses_all_forms() {
    assert_eq!(EncoderPreference::parse(""), EncoderPreference::Auto);
    assert_eq!(EncoderPreference::parse("  AUTO "), EncoderPreference::Auto);
    assert_eq!(EncoderPreference::parse("Cpu"), EncoderPreference::Cpu);
    assert_eq!(
        EncoderPreference::parse("nonsense"),
        EncoderPreference::Auto
    );
    // The `gpu:` prefix is case-insensitive; the adapter name keeps its casing.
    for form in ["gpu:RTX 3080 Ti", "GPU:RTX 3080 Ti", "Gpu: RTX 3080 Ti "] {
        assert_eq!(
            EncoderPreference::parse(form),
            EncoderPreference::Gpu("RTX 3080 Ti".to_owned()),
            "{form:?}"
        );
    }
    assert_eq!(
        EncoderPreference::Gpu("RTX 3080 Ti".to_owned()).as_config_value(),
        "gpu:RTX 3080 Ti"
    );
    for pref in [
        EncoderPreference::default(),
        EncoderPreference::Cpu,
        EncoderPreference::Gpu("RTX".to_owned()),
    ] {
        assert_eq!(EncoderPreference::parse(&pref.as_config_value()), pref);
    }
}

#[test]
fn empty_toml_is_all_defaults() {
    let c = parse("");
    assert!(c == Config::default());
    let v = c.video();
    assert_eq!((v.width, v.height, v.framerate), (1920, 1080, 60));
    assert_eq!((v.bitrate_bps, v.idr_period), (12_000_000, 60));
    let a = c.audio();
    assert_eq!(
        (a.sample_rate, a.channels, a.bitrate_bps),
        (48_000, 2, 128_000)
    );
    assert_eq!(c.buffer_window(), Duration::from_secs(30));
    assert_eq!(c.hotkey_trigger(), "CTRL+ALT+R");
    assert!(c.output_dir().is_none());
    assert!(!c.always_prompt());
    assert_eq!(
        (gain_of(c.mic_gain()), gain_of(c.system_gain())),
        (1.0, 1.0)
    );
}

#[test]
fn default_template_matches_defaults() {
    let c = parse(DEFAULT_TEMPLATE);
    assert!(
        c == Config::default(),
        "DEFAULT_TEMPLATE drifted from the defaults"
    );
}

#[test]
fn partial_file_fills_missing_with_defaults() {
    let c = parse("[video]\nwidth = 1280\nframerate = 30\n");
    let v = c.video();
    assert_eq!(v.width, 1280); // set
    assert_eq!(v.framerate, 30); // set
    assert_eq!(v.height, 1080); // default
    assert_eq!(v.bitrate_bps, 12_000_000); // default
}

#[test]
fn reads_audio_gains_and_capture_and_output() {
    let c = parse(
        "[audio]\nmic_gain = 2.5\nsystem_gain = 0.5\n\
         [output]\ndirectory = \"/tmp/clips\"\n\
         [capture]\nalways_prompt = true\n\
         [hotkey]\ntrigger = \"CTRL+ALT+K\"\n\
         [buffer]\nseconds = 30\n",
    );
    assert_eq!(gain_of(c.mic_gain()), 2.5);
    assert_eq!(gain_of(c.system_gain()), 0.5);
    assert_eq!(c.output_dir(), Some("/tmp/clips"));
    assert!(c.always_prompt());
    assert_eq!(c.hotkey_trigger(), "CTRL+ALT+K");
    assert_eq!(c.buffer_window(), Duration::from_secs(30));
}

#[test]
fn mic_flags_default_and_gate_the_separate_track() {
    let c = Config::default();
    assert!(c.mic_enabled(), "the mic records by default");
    assert!(!c.separate_mic_track(), "single mixed track by default");

    let mut c = Config::default();
    c.set_separate_mic_track(true);
    assert!(
        c.separate_mic_track(),
        "separate track on when the mic is enabled"
    );
    // Disabling the mic also disables the separate track (nothing to put on it).
    c.set_mic_enabled(false);
    assert!(!c.mic_enabled());
    assert!(!c.separate_mic_track(), "no separate track without the mic");

    let parsed = parse("[audio]\nmic_enabled = false\nseparate_mic_track = true\n");
    assert!(!parsed.mic_enabled());
    assert!(
        !parsed.separate_mic_track(),
        "gated off by the disabled mic"
    );
}

#[test]
fn config_without_updates_section_defaults_auto_install_on() {
    assert!(parse("").auto_install_updates());
}

#[test]
fn updates_section_without_auto_install_defaults_on() {
    assert!(parse("[updates]\n").auto_install_updates());
}

#[test]
fn video_is_sanitized_to_encodable_values() {
    let c = parse(
        "[video]\nwidth = 1921\nheight = 4\nframerate = 0\nbitrate_bps = 1\nidr_period = 100000\n",
    );
    let v = c.video();
    assert_eq!(v.width, 1920, "odd width rounds down to even");
    assert_eq!(v.height, 16, "tiny height clamps up (and stays even)");
    assert_eq!(v.framerate, 1);
    assert_eq!(v.bitrate_bps, 100_000);
    assert_eq!(v.idr_period, 1000);
    // The stored values survive for the editor round-trip.
    assert_eq!(c.video_stored().width, 1921);
    assert_eq!(c.video_stored().framerate, 0);
}

#[test]
fn audio_is_sanitized_to_opus_values() {
    let c = parse("[audio]\nsample_rate = 44100\nchannels = 6\nbitrate_bps = 1000000\n");
    let a = c.audio();
    assert_eq!(
        a.sample_rate, 48_000,
        "44.1 kHz snaps to the nearest Opus rate"
    );
    assert_eq!(a.channels, 2);
    assert_eq!(a.bitrate_bps, 510_000);
    assert_eq!(
        c.audio_stored().sample_rate,
        44_100,
        "the stored rate survives for the editor round-trip"
    );

    let low = parse("[audio]\nsample_rate = 4000\nchannels = 0\n");
    assert_eq!(
        low.audio().sample_rate,
        8_000,
        "snaps up to the lowest rate"
    );
    assert_eq!(low.audio().channels, 1);
    assert_eq!(
        parse("[audio]\nsample_rate = 10000\n").audio().sample_rate,
        8_000,
        "the lower of two as near"
    );
}

#[test]
fn non_empty_or_trims_and_falls_back() {
    assert_eq!(non_empty_or("  x  ", "d"), "x");
    assert_eq!(non_empty_or("   ", "d"), "d");
    assert_eq!(non_empty_or("", "d"), "d");
}

#[test]
fn upload_defaults_and_key_requirement() {
    let u = parse("").upload();
    assert!(!u.enabled);
    assert_eq!(u.api_url, DEFAULT_UPLOAD_API_URL);
    assert_eq!(u.share_url, DEFAULT_UPLOAD_SHARE_URL);
    assert_eq!(u.visibility, "unlisted");

    // Enabled without a key stays disabled; empty URL falls back to the default.
    let c = parse("[upload]\nenabled = true\napi_url = \"\"\n");
    assert!(!c.upload().enabled, "no key → not enabled");
    assert_eq!(c.upload().api_url, DEFAULT_UPLOAD_API_URL);

    let c = parse(
        "[upload]\nenabled = true\napi_key = \" gtv_k \"\napi_url = \"http://localhost:5050/\"\nvisibility = \"unlisted\"\n",
    );
    let u = c.upload();
    assert!(u.enabled);
    assert_eq!(u.api_key, "gtv_k", "key is trimmed");
    assert_eq!(u.api_url, "http://localhost:5050/");
    assert_eq!(u.visibility, "unlisted");
}

#[test]
fn youtube_defaults_token_requirement_and_visibility_fallback() {
    let y = parse("").youtube();
    assert!(!y.enabled);
    assert_eq!(y.visibility, "unlisted", "empty falls back to [upload]");

    // Enabled without a refresh token stays disabled.
    let c = parse("[youtube]\nenabled = true\n");
    assert!(!c.youtube().enabled, "no token means not enabled");

    let c = parse(
        "[upload]\nvisibility = \"unlisted\"\n\
         [youtube]\nenabled = true\nrefresh_token = \" rt_x \"\nclient_id = \" my.id \"\n",
    );
    let y = c.youtube();
    assert!(y.enabled);
    assert_eq!(y.refresh_token, "rt_x", "token is trimmed");
    assert_eq!(y.client_id, "my.id", "client id is trimmed");
    assert_eq!(y.visibility, "unlisted", "falls back to the [upload] value");

    let own = parse("[upload]\nvisibility = \"unlisted\"\n[youtube]\nvisibility = \"public\"\n");
    assert_eq!(own.youtube().visibility, "public", "own value wins");
}

#[test]
fn youtube_secrets_are_redacted_in_debug() {
    let mut c = Config::default();
    c.set_youtube_client_secret("hushhush".to_owned());
    c.set_youtube_refresh_token("rt_hidden".to_owned());
    let dump = format!("{} {}", c.youtube.redacted(), c.youtube().redacted());
    assert!(
        !dump.contains("hushhush") && !dump.contains("rt_hidden"),
        "{dump}"
    );
    assert_eq!(
        c.youtube().redacted(),
        "YouTubeSettings { enabled: false, client_id: \"\", client_secret: \"***\", \
         refresh_token: \"***\", visibility: \"unlisted\" }"
    );
}

#[test]
fn upload_key_is_redacted() {
    let mut c = Config::default();
    c.set_upload_api_key("gtv_secret".to_owned());
    assert_eq!(
        c.upload().redacted(),
        "UploadSettings { enabled: false, api_url: \"https://api.ganked.tv\", \
         share_url: \"https://ganked.tv\", api_key: \"gtv_***\", visibility: \"unlisted\" }"
    );
    assert!(!c.upload.redacted().contains("secret"));
}

#[test]
fn setters_land_on_their_own_fields() {
    let mut c = Config::default();
    c.set_upload_enabled(true);
    c.set_upload_api_key("gtv_abc".to_owned());
    c.set_upload_api_url("http://localhost:5050".to_owned());
    c.set_upload_share_url("http://localhost:5173".to_owned());
    c.set_upload_visibility("unlisted".to_owned());
    c.set_youtube_enabled(true);
    c.set_youtube_client_id("id.apps.googleusercontent.com".to_owned());
    c.set_youtube_client_secret("cs".to_owned());
    c.set_youtube_refresh_token("rt".to_owned());
    c.set_youtube_visibility("public".to_owned());
    assert!(c.upload_enabled() && c.youtube_enabled());
    assert_eq!(c.upload_api_key(), "gtv_abc");
    assert_eq!(c.upload_api_url(), "http://localhost:5050");
    assert_eq!(c.upload_share_url(), "http://localhost:5173");
    assert_eq!(c.upload_visibility(), "unlisted");
    assert_eq!(c.youtube_client_id(), "id.apps.googleusercontent.com");
    assert_eq!(c.youtube_client_secret(), "cs");
    assert_eq!(c.youtube_refresh_token(), "rt");
    assert_eq!(c.youtube_visibility(), "public");
    c.set_game_folders(false);
    c.set_start_on_boot(true);
    c.set_auto_install_updates(false);
    c.set_capture_desktop(true);
    c.set_microphone(" Blue Yeti ".to_owned());
    c.set_encoder("gpu: RTX".to_owned());
    assert!(!c.game_folders() && c.start_on_boot() && !c.auto_install_updates());
    assert!(c.capture_desktop() && !c.always_prompt());
    assert_eq!(c.microphone().as_deref(), Some("Blue Yeti"));
    assert_eq!(Config::default().microphone(), None);
    assert_eq!(c.encoder_stored(), "gpu: RTX");
    assert_eq!(
        c.encoder_preference(),
        EncoderPreference::Gpu("RTX".to_owned())
    );
}

#[test]
fn zero_buffer_seconds_clamps_to_one() {
    let c = parse("[buffer]\nseconds = 0\n");
    assert_eq!(c.buffer_window(), Duration::from_secs(1));
}

#[test]
fn hotkey_trigger_is_trimmed_with_default_fallback() {
    let c = parse("[hotkey]\ntrigger = \"\"\n");
    assert_eq!(c.hotkey_trigger(), "CTRL+ALT+R");
    let ws = parse("[hotkey]\ntrigger = \"   \"\n");
    assert_eq!(
        ws.hotkey_trigger(),
        "CTRL+ALT+R",
        "whitespace-only → default"
    );
    let padded = parse("[hotkey]\ntrigger = \" CTRL+ALT+K \"\n");
    assert_eq!(padded.hotkey_trigger(), "CTRL+ALT+K", "padding is trimmed");
}

#[test]
fn negative_or_nonfinite_gain_falls_back_to_unity() {
    let c = parse("[audio]\nmic_gain = -1.0\nsystem_gain = 3.0\n");
    assert_eq!(gain_of(c.mic_gain()), 1.0, "negative gain → unity");
    assert_eq!(gain_of(c.system_gain()), 3.0, "positive gain kept");
    let nan = parse("[audio]\nmic_gain = nan\n");
    assert_eq!(gain_of(nan.mic_gain()), 1.0, "NaN gain → unity");
    for (bad, kept) in [(f32::INFINITY, 1.0), (-0.0, -0.0), (0.0, 0.0), (f32::MAX, f32::MAX)] {
        let g = Gain {
            bits: bad.to_bits(),
        };
        assert_eq!(gain_of(g.sanitized()), kept);
    }
}

#[test]
fn env_overrides_take_precedence_over_file() {
    // Every numeric override lands on its own distinct field (guards against a copy-paste
    // mix-up), with a deliberately distinct value each, plus the non-positive/unparseable
    // fallbacks and the output-dir string override.
    let mut c = parse("[video]\nwidth = 1280\n[audio]\nbitrate_bps = 64000\n");
    let env = HashMap::from([
        ("REWYND_WIDTH", "3840"),
        ("REWYND_HEIGHT", "2160"),
        ("REWYND_FPS", "120"),
        ("REWYND_BITRATE_BPS", "25000000"),
        ("REWYND_IDR_PERIOD", "240"),
        ("REWYND_AUDIO_BITRATE_BPS", "0"), // non-positive → ignored
        ("REWYND_OUTPUT_DIR", "/tmp/over"),
        ("REWYND_CAPTURE_DESKTOP", "1"),
    ]);
    c.apply_env_overrides(|k| env.get(k).map(|s| (*s).to_owned()));
    let v = c.video();
    assert_eq!(v.width, 3840, "WIDTH overrides the file value");
    assert_eq!(v.height, 2160, "HEIGHT overrides the default");
    assert_eq!(v.framerate, 120, "FPS overrides the default");
    assert_eq!(
        v.bitrate_bps, 25_000_000,
        "BITRATE_BPS overrides the default"
    );
    assert_eq!(v.idr_period, 240, "IDR_PERIOD overrides the default");
    assert_eq!(
        c.audio().bitrate_bps,
        64_000,
        "zero AUDIO_BITRATE_BPS ignored → file value"
    );
    assert_eq!(c.output_dir(), Some("/tmp/over"));
    assert!(
        c.capture_desktop(),
        "CAPTURE_DESKTOP=1 forces desktop capture"
    );

    // An unparseable numeric override is ignored, leaving the file/default value intact; an
    // unrecognized boolean likewise leaves the desktop-capture flag as the file has it.
    let mut c2 = parse("[video]\nwidth = 1600\n[capture]\ndesktop = true\n");
    let bad = HashMap::from([
        ("REWYND_WIDTH", "not-a-number"),
        ("REWYND_CAPTURE_DESKTOP", "maybe"),
    ]);
    c2.apply_env_overrides(|k| bad.get(k).map(|s| (*s).to_owned()));
    assert!(c2.capture_desktop(), "unrecognized bool → file value kept");
    assert_eq!(
        c2.video().width,
        1600,
        "unparseable override ignored → file value"
    );
}

#[test]
fn text_overrides_ignore_blanks_where_they_must() {
    let mut c = Config::default();
    c.apply_overrides(Overrides {
        encoder: Some(" ".to_owned()),
        microphone: Some(String::new()),
        output_dir: Some(String::new()),
        capture_desktop: Some(" OFF ".to_owned()),
        ..none()
    });
    assert!(c == Config::default());
    c.apply_overrides(Overrides {
        encoder: Some("cpu".to_owned()),
        microphone: Some("mic".to_owned()),
        capture_desktop: Some("Yes".to_owned()),
        ..none()
    });
    assert_eq!(c.encoder_preference(), EncoderPreference::Cpu);
    assert_eq!(c.microphone().as_deref(), Some("mic"));
    assert!(c.capture_desktop());
    let before = c.clone();
    c.apply_overrides(none());
    assert!(c == before, "nothing set, nothing changed");
}

#[test]
fn buffer_seconds_is_clamped_to_the_ceiling() {
    let mut c = Config::default();
    c.set_buffer_seconds(u64::MAX);
    assert_eq!(
        c.buffer_window(),
        Duration::from_secs(MAX_BUFFER_SECONDS),
        "an absurd window is capped, not left to grow the ring buffer unbounded"
    );
}

#[test]
fn load_from_none_is_defaults_plus_env() {
    let mut c = file_config(ConfigSource::Unavailable);
    c.apply_overrides(Overrides {
        width: Some("800".to_owned()),
        ..none()
    });
    assert_eq!(c.video().width, 800);
    assert_eq!(c.video().height, 1080); // default survives
}

#[test]
fn load_from_reads_valid_file_then_env_overrides() {
    let mut c = file_config(source_of("[video]\nwidth = 1280\nheight = 720\n"));
    c.apply_overrides(Overrides {
        width: Some("2560".to_owned()),
        ..none()
    });
    assert_eq!(c.video().width, 2560, "env beats the file");
    assert_eq!(c.video().height, 720, "file beats the default");
}

#[test]
fn load_from_malformed_file_falls_back_to_defaults() {
    let c = file_config(source_of("this = is = not valid toml"));
    assert!(c == Config::default());
}

#[test]
fn load_from_missing_file_is_defaults() {
    assert!(file_config(ConfigSource::Unavailable) == Config::default());
}

#[test]
fn load_from_salvages_valid_sections_around_a_bad_one() {
    let c = file_config(source_of(
        "[video]\nwidth = 1280\n[audio]\nmic_gain = \"loud\"\n[buffer]\nseconds = 45\n",
    ));
    assert_eq!(c.video().width, 1280, "section before the bad one survives");
    assert_eq!(c.buffer_seconds(), 45, "section after the bad one survives");
    assert_eq!(
        gain_of(c.mic_gain()),
        1.0,
        "the bad section falls back to defaults"
    );
}

#[test]
fn load_from_keeps_known_sections_despite_an_unknown_one() {
    let c = file_config(source_of("[video]\nwidth = 1280\n[nonsense]\nx = 1\n"));
    assert_eq!(c.video().width, 1280, "known section survives the stranger");
    assert_eq!(c.audio(), Config::default().audio());
}

#[test]
fn every_known_section_is_salvaged() {
    let c = file_config(source_of(
        "[updates]\nauto_install = false\n[startup]\non_boot = true\n[nonsense]\nx = 1\n",
    ));
    assert!(!c.auto_install_updates());
    assert!(c.start_on_boot());
}

#[test]
fn replacing_the_video_settings_keeps_the_encoder() {
    let mut c = Config::default();
    c.set_encoder("cpu".to_owned());
    c.set_mic_gain(Gain {
        bits: 2.5f32.to_bits(),
    });
    c.set_system_gain(Gain {
        bits: 0.75f32.to_bits(),
    });
    c.set_buffer_seconds(120);
    c.set_output_directory(Some("/tmp/clips".to_owned()));
    c.set_hotkey_trigger("CTRL+ALT+K".to_owned());
    c.set_always_prompt(true);
    let wanted = VideoSettings {
        width: 2560,
        height: 1440,
        framerate: 144,
        bitrate_bps: 25_000_000,
        idr_period: 144,
    };
    c.set_video(wanted);
    assert_eq!(c.video_stored(), wanted);
    assert_eq!(c.video().width, 2560);
    assert_eq!(c.encoder_stored(), "cpu");
    assert_eq!(gain_of(c.mic_gain()), 2.5);
    assert_eq!(gain_of(c.system_gain()), 0.75);
    assert_eq!(c.buffer_seconds(), 120);
    assert_eq!(c.output_directory(), Some("/tmp/clips"));
    assert_eq!(c.hotkey_trigger(), "CTRL+ALT+K");
    assert!(c.always_prompt());
}

#[test]
fn set_output_directory_empty_clears_it() {
    let mut c = Config::default();
    c.set_output_directory(Some(String::new()));
    assert_eq!(c.output_directory(), None, "empty string clears the dir");
}

#[test]
fn a_save_goes_through_a_sibling() {
    assert_eq!(
        save_temp_path("/home/u/.config/rewynd/config.toml").as_deref(),
        Some("/home/u/.config/rewynd/config.toml.tmp")
    );
    assert_eq!(
        save_temp_path("fresh.cfg").as_deref(),
        Some("fresh.toml.tmp")
    );
    assert_eq!(save_temp_path(".hidden").as_deref(), Some(".hidden.toml.tmp"));
    assert_eq!(save_temp_path("/"), None);
}
