//! The config schema: section structs and defaults, the [`Config`] accessors and setters, and
//! how a config file and the `REWYND_*` environment are layered over the defaults.
//!
//! Precedence, low to high: built-in defaults, `config.toml`, environment overrides. Env
//! overrides exist for the video/audio/output settings and desktop capture; the rest is
//! file-only.

use crate::clock::Duration;
use crate::paths::{file_name, file_name_of, renamed, with_file_name};
use crate::text::{
    debug_form, lemma_trim_of_trimmed, lower, lowered, parse_unsigned, parse_up_to, quoted, same,
    string_of, to_chars, to_lower, trim, trimmed,
};
use vstd::prelude::*;

verus! {

/// Default width; the video defaults match the encoder's.
pub const DEFAULT_WIDTH: u32 = 1920;

/// Default height.
pub const DEFAULT_HEIGHT: u32 = 1080;

/// Default framerate.
pub const DEFAULT_FRAMERATE: u32 = 60;

/// Default video bitrate.
pub const DEFAULT_VIDEO_BITRATE_BPS: u32 = 12_000_000;

/// Default IDR period.
pub const DEFAULT_IDR_PERIOD: u32 = 60;

/// Default encoder selection: prefer a GPU that can encode H.264, else the CPU. See
/// [`EncoderPreference`].
pub const DEFAULT_ENCODER: &'static str = "auto";

/// Default sample rate; the audio defaults match the encoder's.
pub const DEFAULT_SAMPLE_RATE: u32 = 48_000;

/// Default channel count.
pub const DEFAULT_CHANNELS: u32 = 2;

/// Default audio bitrate.
pub const DEFAULT_AUDIO_BITRATE_BPS: u32 = 128_000;

/// Default retention window in seconds. 30 s suits most clips; configurable up to the cap below.
pub const DEFAULT_BUFFER_SECONDS: u64 = 30;

/// Upper bound on the retention window (two minutes). The ring buffer holds encoded frames in
/// memory, so the window is capped: a bound keeps a fat-fingered `seconds` from growing it
/// without limit. The settings UI offers the same ceiling, so the slider and the daemon agree.
pub const MAX_BUFFER_SECONDS: u64 = 120;

/// Default preferred global-shortcut trigger; the compositor may rebind it.
pub const DEFAULT_HOTKEY_TRIGGER: &'static str = "CTRL+ALT+R";

/// Default ganked.tv API base for uploads.
pub const DEFAULT_UPLOAD_API_URL: &'static str = "https://api.ganked.tv";

/// Default base for share links (`<share>/c/<code>`).
pub const DEFAULT_UPLOAD_SHARE_URL: &'static str = "https://ganked.tv";

/// A linear gain, as the bits of an IEEE 754 single-precision number.
#[derive(Debug, Clone, Copy, PartialEq, Eq, Structural)]
pub struct Gain {
    /// The bit pattern: sign, eight bits of exponent, 23 of fraction.
    pub bits: u32,
}

/// The bits of 1.0.
pub const UNITY_BITS: u32 = 0x3f80_0000;

impl Gain {
    /// Neither infinite nor NaN: the exponent bits are not all set.
    pub open spec fn finite(self) -> bool {
        (self.bits as nat / 0x80_0000) % 0x100 != 0xff
    }

    /// Not below zero: the sign bit is clear, or the number is negative zero.
    pub open spec fn not_negative(self) -> bool {
        self.bits <= 0x8000_0000
    }

    /// A gain that leaves the samples unchanged.
    pub fn unity() -> (r: Self)
        ensures
            r.bits == UNITY_BITS,
    {
        Gain { bits: UNITY_BITS }
    }

    /// The gain as a usable linear multiplier: non-finite or negative values fall back to unity.
    pub fn sanitized(self) -> (r: Self)
        ensures
            r == if self.finite() && self.not_negative() {
                self
            } else {
                (Gain { bits: UNITY_BITS })
            },
    {
        if (self.bits / 0x80_0000) % 0x100 != 0xff && self.bits <= 0x8000_0000 {
            self
        } else {
            Gain { bits: UNITY_BITS }
        }
    }
}

/// Plain video encode settings (the consumer maps these onto its encoder param type).
#[derive(Debug, Clone, Copy, PartialEq, Eq, Structural)]
pub struct VideoSettings {
    pub width: u32,
    pub height: u32,
    pub framerate: u32,
    pub bitrate_bps: u32,
    pub idr_period: u32,
}

/// Plain audio encode settings (the consumer maps these onto its encoder param type).
#[derive(Debug, Clone, Copy, PartialEq, Eq, Structural)]
pub struct AudioSettings {
    pub sample_rate: u32,
    pub channels: u32,
    pub bitrate_bps: u32,
}

/// Plain ganked.tv upload settings (the consumer maps these onto its client). Not `Debug`: the
/// API key must never reach logs; see [`redacted`](Self::redacted).
#[derive(Clone, PartialEq, Eq)]
pub struct UploadSettings {
    /// Only true when uploads are switched on AND an API key is set.
    pub enabled: bool,
    pub api_url: String,
    pub share_url: String,
    pub api_key: String,
    /// `"public"`, `"unlisted"` or `"private"`. Consumers fail closed: anything else is treated
    /// as private, so a typo can never widen a clip's visibility.
    pub visibility: String,
}

/// Plain YouTube upload settings (the consumer maps these onto its client). Not `Debug`: the
/// refresh token and the client secret must never reach logs; see [`redacted`](Self::redacted).
#[derive(Clone, PartialEq, Eq)]
pub struct YouTubeSettings {
    /// Only true when YouTube uploads are switched on AND a refresh token is stored.
    pub enabled: bool,
    /// OAuth client id override; empty = the compiled-in default.
    pub client_id: String,
    /// OAuth client secret override; empty = the compiled-in default.
    pub client_secret: String,
    pub refresh_token: String,
    /// `"public"`, `"unlisted"` or `"private"`; empty falls back to the `[upload]` visibility.
    /// Consumers fail closed: anything unrecognized is treated as private, so a typo can
    /// never widen a clip's visibility.
    pub visibility: String,
}

/// How a truth value is shown.
pub open spec fn shown(b: bool) -> Seq<char> {
    if b {
        "true"@
    } else {
        "false"@
    }
}

/// The loggable form of upload settings.
pub open spec fn upload_shown(
    name: Seq<char>,
    enabled: bool,
    api_url: Seq<char>,
    share_url: Seq<char>,
    visibility: Seq<char>,
) -> Seq<char> {
    name + " { enabled: "@ + shown(enabled) + ", api_url: "@ + debug_form(api_url)
        + ", share_url: "@ + debug_form(share_url) + ", api_key: \"gtv_***\", visibility: "@
        + debug_form(visibility) + " }"@
}

/// The loggable form of YouTube settings.
pub open spec fn youtube_shown(
    name: Seq<char>,
    enabled: bool,
    client_id: Seq<char>,
    visibility: Seq<char>,
) -> Seq<char> {
    name + " { enabled: "@ + shown(enabled) + ", client_id: "@ + debug_form(client_id)
        + ", client_secret: \"***\", refresh_token: \"***\", visibility: "@ + debug_form(visibility)
        + " }"@
}

fn show_upload(name: &str, enabled: bool, api_url: &str, share_url: &str, visibility: &str) -> (r:
    String)
    ensures
        r@ == upload_shown(name@, enabled, api_url@, share_url@, visibility@),
{
    let mut out = name.to_owned();
    out.append(" { enabled: ");
    out.append(
        if enabled {
            "true"
        } else {
            "false"
        },
    );
    out.append(", api_url: ");
    out.append(quoted(api_url).as_str());
    out.append(", share_url: ");
    out.append(quoted(share_url).as_str());
    out.append(", api_key: \"gtv_***\", visibility: ");
    out.append(quoted(visibility).as_str());
    out.append(" }");
    out
}

fn show_youtube(name: &str, enabled: bool, client_id: &str, visibility: &str) -> (r: String)
    ensures
        r@ == youtube_shown(name@, enabled, client_id@, visibility@),
{
    let mut out = name.to_owned();
    out.append(" { enabled: ");
    out.append(
        if enabled {
            "true"
        } else {
            "false"
        },
    );
    out.append(", client_id: ");
    out.append(quoted(client_id).as_str());
    out.append(", client_secret: \"***\", refresh_token: \"***\", visibility: ");
    out.append(quoted(visibility).as_str());
    out.append(" }");
    out
}

impl UploadSettings {
    /// The settings for a log line: everything but the key.
    pub fn redacted(&self) -> (r: String)
        ensures
            r@ == upload_shown(
                "UploadSettings"@,
                self.enabled,
                self.api_url@,
                self.share_url@,
                self.visibility@,
            ),
    {
        show_upload(
            "UploadSettings",
            self.enabled,
            self.api_url.as_str(),
            self.share_url.as_str(),
            self.visibility.as_str(),
        )
    }
}

impl YouTubeSettings {
    /// The settings for a log line: everything but the secrets.
    pub fn redacted(&self) -> (r: String)
        ensures
            r@ == youtube_shown(
                "YouTubeSettings"@,
                self.enabled,
                self.client_id@,
                self.visibility@,
            ),
    {
        show_youtube(
            "YouTubeSettings",
            self.enabled,
            self.client_id.as_str(),
            self.visibility.as_str(),
        )
    }
}

/// The recorder's encoder selection, parsed from the `[video] encoder` config value.
#[derive(Debug, Clone, PartialEq, Eq)]
pub enum EncoderPreference {
    /// Prefer a GPU that can encode H.264, fall back to the CPU.
    Auto,
    /// Force the software (CPU) encoder.
    Cpu,
    /// Pin a specific GPU by adapter name.
    Gpu(String),
}

impl Default for EncoderPreference {
    fn default() -> (r: Self)
        ensures
            r is Auto,
    {
        EncoderPreference::Auto
    }
}

/// The adapter that a stored encoder value pins: what follows a `gpu:` in any case.
pub open spec fn pinned(value: Seq<char>) -> Option<Seq<char>> {
    let t = trim(value);
    if t.len() >= 4 && lowered(t.take(4)) == "gpu:"@ {
        Some(trim(t.skip(4)))
    } else {
        None
    }
}

/// What a stored encoder value selects.
pub open spec fn selects(value: Seq<char>, pref: EncoderPreference) -> bool {
    match pref {
        EncoderPreference::Gpu(name) => pinned(value) == Some(name@),
        EncoderPreference::Cpu => pinned(value) is None && lowered(trim(value)) == "cpu"@,
        EncoderPreference::Auto => pinned(value) is None && lowered(trim(value)) != "cpu"@,
    }
}

/// The canonical config string for a preference.
pub open spec fn config_value(pref: EncoderPreference) -> Seq<char> {
    match pref {
        EncoderPreference::Auto => "auto"@,
        EncoderPreference::Cpu => "cpu"@,
        EncoderPreference::Gpu(name) => "gpu:"@ + name@,
    }
}

impl EncoderPreference {
    /// Parse the stored config string. Unknown values fall back to [`Auto`](Self::Auto).
    /// `"auto"` / `"cpu"` are case-insensitive; the adapter name in `"gpu:<name>"` keeps its case
    /// (it must match the reported adapter name exactly).
    pub fn parse(value: &str) -> (r: Self)
        ensures
            selects(value@, r),
    {
        let text = trimmed(value);
        let chars = to_chars(text.as_str());
        if chars.len() >= 4 {
            let head = string_of(&chars, 0, 4);
            proof {
                assert(chars@.subrange(0, 4) =~= trim(value@).take(4));
            }
            if same(to_lower(head.as_str()).as_str(), "gpu:") {
                let name = string_of(&chars, 4, chars.len());
                proof {
                    assert(chars@.subrange(4, chars@.len() as int) =~= trim(value@).skip(4));
                }
                return EncoderPreference::Gpu(trimmed(name.as_str()));
            }
        }
        if same(to_lower(text.as_str()).as_str(), "cpu") {
            EncoderPreference::Cpu
        } else {
            EncoderPreference::Auto
        }
    }

    /// The canonical config string for this preference.
    pub fn as_config_value(&self) -> (r: String)
        ensures
            r@ == config_value(*self),
    {
        match self {
            EncoderPreference::Auto => "auto".to_owned(),
            EncoderPreference::Cpu => "cpu".to_owned(),
            EncoderPreference::Gpu(name) => "gpu:".to_owned().concat(name.as_str()),
        }
    }
}

/// The canonical string of a preference selects that preference again, for every adapter name
/// without whitespace at its ends.
pub proof fn law_encoder_value_reads_back(pref: EncoderPreference)
    requires
        pref matches EncoderPreference::Gpu(name) ==> trim(name@) == name@,
    ensures
        selects(config_value(pref), pref),
{
    reveal_strlit("auto");
    reveal_strlit("cpu");
    reveal_strlit("gpu:");
    let value = config_value(pref);
    match pref {
        EncoderPreference::Gpu(name) => {
            crate::text::lemma_trim_ends(name@);
            assert(value[0] == 'g');
            assert(value.last() == if name@.len() > 0 {
                name@.last()
            } else {
                ':'
            });
            lemma_trim_of_trimmed(value);
            assert(value.skip(4) =~= name@);
            assert(lowered(value.take(4)) =~= "gpu:"@);
        },
        EncoderPreference::Cpu => {
            lemma_trim_of_trimmed(value);
            assert(lowered(value) =~= "cpu"@);
        },
        EncoderPreference::Auto => {
            lemma_trim_of_trimmed(value);
            assert(lowered(value)[0] == 'a');
            assert(lowered(value.take(4))[0] == 'a');
            assert("gpu:"@[0] == 'g');
            assert("cpu"@[0] == 'c');
        },
    }
}

/// `value` trimmed, or `default` when the trim leaves nothing.
pub open spec fn or_default(value: Seq<char>, default: Seq<char>) -> Seq<char> {
    if trim(value).len() == 0 {
        default
    } else {
        trim(value)
    }
}

/// `value` trimmed, or `default` when the trim leaves nothing.
pub fn non_empty_or(value: &str, default: &str) -> (r: String)
    ensures
        r@ == or_default(value@, default@),
{
    let text = trimmed(value);
    if text.as_str().is_empty() {
        default.to_owned()
    } else {
        text
    }
}

/// Video encode settings as stored, defaulting to the built-ins.
#[derive(Debug, Clone, PartialEq, Eq)]
pub struct VideoConfig {
    pub width: u32,
    pub height: u32,
    pub framerate: u32,
    pub bitrate_bps: u32,
    pub idr_period: u32,
    /// Which encoder records: `"auto"`, `"cpu"`, or `"gpu:<adapter name>"`. Parsed by
    /// [`EncoderPreference::parse`]; not part of [`VideoSettings`] (it selects a backend, it
    /// isn't an encode parameter).
    pub encoder: String,
}

impl VideoConfig {
    /// Whether these are the built-in values.
    pub open spec fn is_default(self) -> bool {
        &&& self.width == DEFAULT_WIDTH
        &&& self.height == DEFAULT_HEIGHT
        &&& self.framerate == DEFAULT_FRAMERATE
        &&& self.bitrate_bps == DEFAULT_VIDEO_BITRATE_BPS
        &&& self.idr_period == DEFAULT_IDR_PERIOD
        &&& self.encoder@ == DEFAULT_ENCODER@
    }
}

impl Default for VideoConfig {
    fn default() -> (r: Self)
        ensures
            r.is_default(),
    {
        VideoConfig {
            width: DEFAULT_WIDTH,
            height: DEFAULT_HEIGHT,
            framerate: DEFAULT_FRAMERATE,
            bitrate_bps: DEFAULT_VIDEO_BITRATE_BPS,
            idr_period: DEFAULT_IDR_PERIOD,
            encoder: DEFAULT_ENCODER.to_owned(),
        }
    }
}

/// Audio settings: the Opus encode params plus per-source linear mix gains.
#[derive(Debug, Clone, PartialEq, Eq)]
pub struct AudioConfig {
    pub sample_rate: u32,
    pub channels: u32,
    pub bitrate_bps: u32,
    /// Linear gain applied to the microphone before mixing (raise for a quiet mic).
    pub mic_gain: Gain,
    /// Linear gain applied to system audio before mixing.
    pub system_gain: Gain,
    /// Capture this microphone instead of the system default. Empty = default. Matched
    /// case-insensitively against the device's name (a substring is enough on Windows;
    /// the PipeWire node name on Linux).
    pub microphone: String,
    /// Record the microphone at all. Off = no mic stream is even opened (privacy) and clips carry
    /// only system audio.
    pub mic_enabled: bool,
    /// Keep the microphone on its own second audio track (in addition to the system+mic mix), so
    /// editors can separate voice from game audio. Off = the single mixed track.
    pub separate_mic_track: bool,
}

impl AudioConfig {
    /// Whether these are the built-in values.
    pub open spec fn is_default(self) -> bool {
        &&& self.sample_rate == DEFAULT_SAMPLE_RATE
        &&& self.channels == DEFAULT_CHANNELS
        &&& self.bitrate_bps == DEFAULT_AUDIO_BITRATE_BPS
        &&& self.mic_gain.bits == UNITY_BITS
        &&& self.system_gain.bits == UNITY_BITS
        &&& self.microphone@.len() == 0
        &&& self.mic_enabled
        &&& !self.separate_mic_track
    }
}

impl Default for AudioConfig {
    fn default() -> (r: Self)
        ensures
            r.is_default(),
    {
        AudioConfig {
            sample_rate: DEFAULT_SAMPLE_RATE,
            channels: DEFAULT_CHANNELS,
            bitrate_bps: DEFAULT_AUDIO_BITRATE_BPS,
            mic_gain: Gain::unity(),
            system_gain: Gain::unity(),
            microphone: String::new(),
            mic_enabled: true,
            separate_mic_track: false,
        }
    }
}

/// Ring-buffer retention.
#[derive(Debug, Clone, Copy, PartialEq, Eq, Structural)]
pub struct BufferConfig {
    pub seconds: u64,
}

impl Default for BufferConfig {
    fn default() -> (r: Self)
        ensures
            r.seconds == DEFAULT_BUFFER_SECONDS,
    {
        BufferConfig { seconds: DEFAULT_BUFFER_SECONDS }
    }
}

/// Where saved clips are written (`None` → the caller's default, e.g. the temp dir).
#[derive(Debug, Clone, PartialEq, Eq)]
pub struct OutputConfig {
    /// Omitted from the serialized file when unset.
    pub directory: Option<String>,
    /// Sort clips into a per-game subfolder (ShadowPlay-style) when game detection
    /// knows which game the buffer holds.
    pub game_folders: bool,
}

impl Default for OutputConfig {
    fn default() -> (r: Self)
        ensures
            r.directory is None,
            r.game_folders,
    {
        OutputConfig { directory: None, game_folders: true }
    }
}

/// Global-shortcut preference.
#[derive(Debug, Clone, PartialEq, Eq)]
pub struct HotkeyConfig {
    pub trigger: String,
}

impl Default for HotkeyConfig {
    fn default() -> (r: Self)
        ensures
            r.trigger@ == DEFAULT_HOTKEY_TRIGGER@,
    {
        HotkeyConfig { trigger: DEFAULT_HOTKEY_TRIGGER.to_owned() }
    }
}

/// Capture options.
#[derive(Debug, Clone, Copy, PartialEq, Eq, Structural)]
pub struct CaptureConfig {
    /// Re-show the ScreenCast monitor picker each launch (ignore the saved restore token),
    /// so a different monitor can be chosen; `false` reuses the saved selection.
    pub always_prompt: bool,
    /// Capture the whole desktop instead of only the active game. Off by default:
    /// recording everything can catch private content, and game-only is what an
    /// instant-replay tool is expected to do.
    pub desktop: bool,
}

impl Default for CaptureConfig {
    fn default() -> (r: Self)
        ensures
            !r.always_prompt,
            !r.desktop,
    {
        CaptureConfig { always_prompt: false, desktop: false }
    }
}

/// Desktop-session startup behaviour.
#[derive(Debug, Clone, Copy, PartialEq, Eq, Structural)]
pub struct StartupConfig {
    /// Start the recorder automatically at login.
    pub on_boot: bool,
}

impl Default for StartupConfig {
    fn default() -> (r: Self)
        ensures
            !r.on_boot,
    {
        StartupConfig { on_boot: false }
    }
}

/// Automatic update behaviour. Only meaningful in a Velopack install; package-manager
/// installs have no receipt and never self-update regardless of this setting.
#[derive(Debug, Clone, Copy, PartialEq, Eq, Structural)]
pub struct UpdatesConfig {
    /// Download updates in the background and install them at the next recorder start.
    /// The settings window's manual check works either way.
    pub auto_install: bool,
}

impl Default for UpdatesConfig {
    fn default() -> (r: Self)
        ensures
            r.auto_install,
    {
        UpdatesConfig { auto_install: true }
    }
}

/// ganked.tv upload settings. `api_key` is a secret, so the type is not `Debug`.
#[derive(Clone, PartialEq, Eq)]
pub struct UploadConfig {
    pub enabled: bool,
    pub api_url: String,
    pub share_url: String,
    pub api_key: String,
    pub visibility: String,
}

impl UploadConfig {
    /// Whether these are the built-in values.
    pub open spec fn is_default(self) -> bool {
        &&& !self.enabled
        &&& self.api_url@ == DEFAULT_UPLOAD_API_URL@
        &&& self.share_url@ == DEFAULT_UPLOAD_SHARE_URL@
        &&& self.api_key@.len() == 0
        &&& self.visibility@ == "unlisted"@
    }

    /// The settings for a log line: everything but the key.
    pub fn redacted(&self) -> (r: String)
        ensures
            r@ == upload_shown(
                "UploadConfig"@,
                self.enabled,
                self.api_url@,
                self.share_url@,
                self.visibility@,
            ),
    {
        show_upload(
            "UploadConfig",
            self.enabled,
            self.api_url.as_str(),
            self.share_url.as_str(),
            self.visibility.as_str(),
        )
    }
}

impl Default for UploadConfig {
    fn default() -> (r: Self)
        ensures
            r.is_default(),
    {
        UploadConfig {
            enabled: false,
            api_url: DEFAULT_UPLOAD_API_URL.to_owned(),
            share_url: DEFAULT_UPLOAD_SHARE_URL.to_owned(),
            api_key: String::new(),
            visibility: "unlisted".to_owned(),
        }
    }
}

/// YouTube upload settings. `refresh_token` and `client_secret` are secrets, so the type is not
/// `Debug`.
#[derive(Clone, PartialEq, Eq)]
pub struct YouTubeConfig {
    pub enabled: bool,
    pub client_id: String,
    pub client_secret: String,
    pub refresh_token: String,
    pub visibility: String,
}

impl YouTubeConfig {
    /// Whether these are the built-in values.
    pub open spec fn is_default(self) -> bool {
        &&& !self.enabled
        &&& self.client_id@.len() == 0
        &&& self.client_secret@.len() == 0
        &&& self.refresh_token@.len() == 0
        &&& self.visibility@.len() == 0
    }

    /// The settings for a log line: everything but the secrets.
    pub fn redacted(&self) -> (r: String)
        ensures
            r@ == youtube_shown(
                "YouTubeConfig"@,
                self.enabled,
                self.client_id@,
                self.visibility@,
            ),
    {
        show_youtube(
            "YouTubeConfig",
            self.enabled,
            self.client_id.as_str(),
            self.visibility.as_str(),
        )
    }
}

impl Default for YouTubeConfig {
    fn default() -> (r: Self)
        ensures
            r.is_default(),
    {
        YouTubeConfig {
            enabled: false,
            client_id: String::new(),
            client_secret: String::new(),
            refresh_token: String::new(),
            visibility: String::new(),
        }
    }
}

/// The layered configuration: the stored values, section by section. Read it through the
/// accessors, which sanitize at use; the stored values stay untouched, so an editor round-trip
/// doesn't rewrite the file.
#[derive(Clone, PartialEq, Eq)]
pub struct Config {
    pub video: VideoConfig,
    pub audio: AudioConfig,
    pub buffer: BufferConfig,
    pub output: OutputConfig,
    pub hotkey: HotkeyConfig,
    pub capture: CaptureConfig,
    pub startup: StartupConfig,
    pub updates: UpdatesConfig,
    pub upload: UploadConfig,
    pub youtube: YouTubeConfig,
}

impl Default for Config {
    fn default() -> (r: Self)
        ensures
            r.is_default(),
    {
        Config {
            video: VideoConfig::default(),
            audio: AudioConfig::default(),
            buffer: BufferConfig::default(),
            output: OutputConfig::default(),
            hotkey: HotkeyConfig::default(),
            capture: CaptureConfig::default(),
            startup: StartupConfig::default(),
            updates: UpdatesConfig::default(),
            upload: UploadConfig::default(),
            youtube: YouTubeConfig::default(),
        }
    }
}

/// `x`, or the nearer end of `low..=high` where it lies outside.
pub open spec fn clamped(x: nat, low: nat, high: nat) -> nat {
    if x < low {
        low
    } else if x > high {
        high
    } else {
        x
    }
}

fn clamp(x: u32, low: u32, high: u32) -> (r: u32)
    requires
        low <= high,
    ensures
        r == clamped(x as nat, low as nat, high as nat),
{
    if x < low {
        low
    } else if x > high {
        high
    } else {
        x
    }
}

/// The encodable form of video settings: dimensions in `[16, 7680]` and even (4:2:0
/// subsampling), framerate in `[1, 240]`, bitrate in `[100 kbps, 100 Mbps]`, IDR period in
/// `[1, 1000]`.
pub open spec fn encodable(raw: VideoSettings, v: VideoSettings) -> bool {
    &&& v.width == clamped(raw.width as nat, 16, 7680) / 2 * 2
    &&& v.height == clamped(raw.height as nat, 16, 7680) / 2 * 2
    &&& v.framerate == clamped(raw.framerate as nat, 1, 240)
    &&& v.bitrate_bps == clamped(raw.bitrate_bps as nat, 100_000, 100_000_000)
    &&& v.idr_period == clamped(raw.idr_period as nat, 1, 1000)
}

/// Whether Opus takes this sample rate.
pub open spec fn opus_rate(rate: u32) -> bool {
    rate == 8_000 || rate == 12_000 || rate == 16_000 || rate == 24_000 || rate == 48_000
}

/// How far apart two rates are.
pub open spec fn apart(a: u32, b: u32) -> nat {
    if a < b {
        (b - a) as nat
    } else {
        (a - b) as nat
    }
}

/// Whether `rate` is the supported rate nearest to `raw`, the lower of two as near.
pub open spec fn nearest_rate(raw: u32, rate: u32) -> bool {
    &&& opus_rate(rate)
    &&& forall|other: u32|
        #[trigger] opus_rate(other) ==> apart(rate, raw) < apart(other, raw) || (apart(rate, raw)
            == apart(other, raw) && rate <= other)
}

fn gap(a: u32, b: u32) -> (r: u32)
    ensures
        r == apart(a, b),
{
    if a < b {
        b - a
    } else {
        a - b
    }
}

fn snap_rate(raw: u32) -> (r: u32)
    ensures
        nearest_rate(raw, r),
{
    let mut best: u32 = 8_000;
    if gap(12_000, raw) < gap(best, raw) {
        best = 12_000;
    }
    if gap(16_000, raw) < gap(best, raw) {
        best = 16_000;
    }
    if gap(24_000, raw) < gap(best, raw) {
        best = 24_000;
    }
    if gap(48_000, raw) < gap(best, raw) {
        best = 48_000;
    }
    best
}

/// The Opus-valid form of audio settings: the nearest supported rate, one or two channels, and
/// 6 to 510 kbps.
pub open spec fn opus_valid(raw: AudioSettings, a: AudioSettings) -> bool {
    &&& nearest_rate(raw.sample_rate, a.sample_rate)
    &&& a.channels == clamped(raw.channels as nat, 1, 2)
    &&& a.bitrate_bps == clamped(raw.bitrate_bps as nat, 6_000, 510_000)
}

/// What sanitizing gives is always encodable, and sanitizing it again changes nothing.
pub proof fn law_sanitized_video_is_stable(raw: VideoSettings, v: VideoSettings)
    requires
        encodable(raw, v),
    ensures
        v.width % 2 == 0 && 16 <= v.width <= 7680,
        v.height % 2 == 0 && 16 <= v.height <= 7680,
        1 <= v.framerate <= 240,
        encodable(v, v),
{
}

/// What sanitizing gives is always accepted by Opus, and sanitizing it again changes nothing.
pub proof fn law_sanitized_audio_is_stable(raw: AudioSettings, a: AudioSettings)
    requires
        opus_valid(raw, a),
    ensures
        opus_rate(a.sample_rate),
        1 <= a.channels <= 2,
        opus_valid(a, a),
{
    assert forall|other: u32| #[trigger] opus_rate(other) implies apart(
        a.sample_rate,
        a.sample_rate,
    ) < apart(other, a.sample_rate) || (apart(a.sample_rate, a.sample_rate) == apart(
        other,
        a.sample_rate,
    ) && a.sample_rate <= other) by {}
}

impl Config {
    /// Whether every section has its built-in values.
    pub open spec fn is_default(self) -> bool {
        &&& self.video.is_default()
        &&& self.audio.is_default()
        &&& self.buffer.seconds == DEFAULT_BUFFER_SECONDS
        &&& self.output.directory is None && self.output.game_folders
        &&& self.hotkey.trigger@ == DEFAULT_HOTKEY_TRIGGER@
        &&& !self.capture.always_prompt && !self.capture.desktop
        &&& !self.startup.on_boot
        &&& self.updates.auto_install
        &&& self.upload.is_default()
        &&& self.youtube.is_default()
    }

    /// The stored video settings.
    pub open spec fn stored_video(self) -> VideoSettings {
        VideoSettings {
            width: self.video.width,
            height: self.video.height,
            framerate: self.video.framerate,
            bitrate_bps: self.video.bitrate_bps,
            idr_period: self.video.idr_period,
        }
    }

    /// The stored audio settings.
    pub open spec fn stored_audio(self) -> AudioSettings {
        AudioSettings {
            sample_rate: self.audio.sample_rate,
            channels: self.audio.channels,
            bitrate_bps: self.audio.bitrate_bps,
        }
    }

    /// The video encode settings, sanitized to encodable values. The stored values stay
    /// untouched, so an editor round-trip doesn't rewrite the file.
    pub fn video(&self) -> (r: VideoSettings)
        ensures
            encodable(self.stored_video(), r),
    {
        VideoSettings {
            width: clamp(self.video.width, 16, 7680) / 2 * 2,
            height: clamp(self.video.height, 16, 7680) / 2 * 2,
            framerate: clamp(self.video.framerate, 1, 240),
            bitrate_bps: clamp(self.video.bitrate_bps, 100_000, 100_000_000),
            idr_period: clamp(self.video.idr_period, 1, 1000),
        }
    }

    /// The audio encode settings, sanitized to what Opus accepts. The stored values stay
    /// untouched, so an editor round-trip doesn't rewrite the file.
    pub fn audio(&self) -> (r: AudioSettings)
        ensures
            opus_valid(self.stored_audio(), r),
    {
        AudioSettings {
            sample_rate: snap_rate(self.audio.sample_rate),
            channels: clamp(self.audio.channels, 1, 2),
            bitrate_bps: clamp(self.audio.bitrate_bps, 6_000, 510_000),
        }
    }

    /// The video settings exactly as stored (no sanitizing) — for the settings editor, so an
    /// edit-and-save round-trip never rewrites values the daemon merely clamps at use.
    pub fn video_stored(&self) -> (r: VideoSettings)
        ensures
            r == self.stored_video(),
    {
        VideoSettings {
            width: self.video.width,
            height: self.video.height,
            framerate: self.video.framerate,
            bitrate_bps: self.video.bitrate_bps,
            idr_period: self.video.idr_period,
        }
    }

    /// The audio settings exactly as stored (no sanitizing) — the editor-side twin of
    /// [`video_stored`](Self::video_stored).
    pub fn audio_stored(&self) -> (r: AudioSettings)
        ensures
            r == self.stored_audio(),
    {
        AudioSettings {
            sample_rate: self.audio.sample_rate,
            channels: self.audio.channels,
            bitrate_bps: self.audio.bitrate_bps,
        }
    }

    /// Linear gain for the microphone before mixing (sanitized to a finite, non-negative value).
    pub fn mic_gain(&self) -> (r: Gain)
        ensures
            r == if self.audio.mic_gain.finite() && self.audio.mic_gain.not_negative() {
                self.audio.mic_gain
            } else {
                (Gain { bits: UNITY_BITS })
            },
    {
        self.audio.mic_gain.sanitized()
    }

    /// Linear gain for system audio before mixing.
    pub fn system_gain(&self) -> (r: Gain)
        ensures
            r == if self.audio.system_gain.finite() && self.audio.system_gain.not_negative() {
                self.audio.system_gain
            } else {
                (Gain { bits: UNITY_BITS })
            },
    {
        self.audio.system_gain.sanitized()
    }

    /// The microphone to capture instead of the system default, if one is configured
    /// (trimmed; empty = default).
    pub fn microphone(&self) -> (r: Option<String>)
        ensures
            match r {
                Some(mic) => mic@.len() > 0 && mic@ == trim(self.audio.microphone@),
                None => trim(self.audio.microphone@).len() == 0,
            },
    {
        let mic = trimmed(self.audio.microphone.as_str());
        if mic.as_str().is_empty() {
            None
        } else {
            Some(mic)
        }
    }

    /// Whether the microphone gets its own second audio track in the clip (in addition to the
    /// system+mic mix). Only meaningful while the mic is enabled.
    pub fn separate_mic_track(&self) -> (r: bool)
        ensures
            r == (self.audio.mic_enabled && self.audio.separate_mic_track),
    {
        self.audio.mic_enabled && self.audio.separate_mic_track
    }

    /// Retention window, clamped to `[1, MAX_BUFFER_SECONDS]`: a zero window would keep
    /// nothing, and an unbounded one would grow the in-memory ring buffer until it OOMs.
    pub fn buffer_window(&self) -> (r: Duration)
        ensures
            r@ == clamped(self.buffer.seconds as nat, 1, MAX_BUFFER_SECONDS as nat) * 1_000_000_000,
    {
        let seconds: u64 = if self.buffer.seconds < 1 {
            1
        } else if self.buffer.seconds > MAX_BUFFER_SECONDS {
            MAX_BUFFER_SECONDS
        } else {
            self.buffer.seconds
        };
        Duration::from_secs(seconds)
    }

    /// The configured output directory, if any (else the caller picks a default).
    pub fn output_dir(&self) -> (r: Option<&str>)
        ensures
            match self.output.directory {
                Some(dir) => match r {
                    Some(path) => dir@.len() > 0 && path@ == dir@,
                    None => dir@.len() == 0,
                },
                None => r is None,
            },
    {
        match &self.output.directory {
            Some(dir) => if dir.as_str().is_empty() {
                None
            } else {
                Some(dir.as_str())
            },
            None => None,
        }
    }

    /// The preferred global-shortcut trigger hint (trimmed; never empty).
    pub fn hotkey_trigger(&self) -> (r: String)
        ensures
            r@ == or_default(self.hotkey.trigger@, DEFAULT_HOTKEY_TRIGGER@),
            r@.len() > 0,
    {
        proof {
            reveal_strlit("CTRL+ALT+R");
        }
        non_empty_or(self.hotkey.trigger.as_str(), DEFAULT_HOTKEY_TRIGGER)
    }

    /// The parsed encoder selection (`auto` / `cpu` / a pinned GPU).
    pub fn encoder_preference(&self) -> (r: EncoderPreference)
        ensures
            selects(self.video.encoder@, r),
    {
        EncoderPreference::parse(self.video.encoder.as_str())
    }

    /// The validated upload settings: `enabled` requires an API key (fail closed), and empty
    /// URLs fall back to the ganked.tv defaults.
    pub fn upload(&self) -> (r: UploadSettings)
        ensures
            r.enabled == (self.upload.enabled && trim(self.upload.api_key@).len() > 0),
            r.api_url@ == or_default(self.upload.api_url@, DEFAULT_UPLOAD_API_URL@),
            r.share_url@ == or_default(self.upload.share_url@, DEFAULT_UPLOAD_SHARE_URL@),
            r.api_key@ == trim(self.upload.api_key@),
            r.visibility@ == self.upload.visibility@,
    {
        let key = trimmed(self.upload.api_key.as_str());
        UploadSettings {
            enabled: self.upload.enabled && !key.as_str().is_empty(),
            api_url: non_empty_or(self.upload.api_url.as_str(), DEFAULT_UPLOAD_API_URL),
            share_url: non_empty_or(self.upload.share_url.as_str(), DEFAULT_UPLOAD_SHARE_URL),
            api_key: key,
            visibility: self.upload.visibility.clone(),
        }
    }

    /// The validated YouTube settings: `enabled` requires a refresh token (fail closed), and an
    /// empty visibility falls back to the shared `[upload]` default.
    pub fn youtube(&self) -> (r: YouTubeSettings)
        ensures
            r.enabled == (self.youtube.enabled && trim(self.youtube.refresh_token@).len() > 0),
            r.client_id@ == trim(self.youtube.client_id@),
            r.client_secret@ == trim(self.youtube.client_secret@),
            r.refresh_token@ == trim(self.youtube.refresh_token@),
            r.visibility@ == or_default(self.youtube.visibility@, self.upload.visibility@),
    {
        let token = trimmed(self.youtube.refresh_token.as_str());
        YouTubeSettings {
            enabled: self.youtube.enabled && !token.as_str().is_empty(),
            client_id: trimmed(self.youtube.client_id.as_str()),
            client_secret: trimmed(self.youtube.client_secret.as_str()),
            refresh_token: token,
            visibility: non_empty_or(
                self.youtube.visibility.as_str(),
                self.upload.visibility.as_str(),
            ),
        }
    }

    /// The configured output directory string, as stored (before
    /// [`output_dir`](Self::output_dir)'s empty filter).
    pub fn output_directory(&self) -> (r: Option<&str>)
        ensures
            match self.output.directory {
                Some(dir) => r matches Some(path) && path@ == dir@,
                None => r is None,
            },
    {
        match &self.output.directory {
            Some(dir) => Some(dir.as_str()),
            None => None,
        }
    }

    /// Replace the video settings. The encoder selection is preserved (it isn't part of
    /// [`VideoSettings`]).
    pub fn set_video(&mut self, v: VideoSettings)
        ensures
            *final(self) == (Config {
                video: VideoConfig {
                    width: v.width,
                    height: v.height,
                    framerate: v.framerate,
                    bitrate_bps: v.bitrate_bps,
                    idr_period: v.idr_period,
                    encoder: old(self).video.encoder,
                },
                ..*old(self)
            }),
    {
        self.video.width = v.width;
        self.video.height = v.height;
        self.video.framerate = v.framerate;
        self.video.bitrate_bps = v.bitrate_bps;
        self.video.idr_period = v.idr_period;
    }

    /// Set the output directory; an empty string clears it (back to the caller's default).
    pub fn set_output_directory(&mut self, dir: Option<String>)
        ensures
            *final(self) == (Config {
                output: OutputConfig {
                    directory: match dir {
                        Some(d) => if d@.len() == 0 {
                            None
                        } else {
                            Some(d)
                        },
                        None => None,
                    },
                    ..old(self).output
                },
                ..*old(self)
            }),
    {
        self.output.directory = match dir {
            Some(d) => if d.as_str().is_empty() {
                None
            } else {
                Some(d)
            },
            None => None,
        };
    }

    /// Whether to record the microphone at all (off = no mic stream is opened).
    pub fn mic_enabled(&self) -> (r: bool)
        ensures
            r == self.audio.mic_enabled,
    {
        self.audio.mic_enabled
    }

    /// Whether to re-show the ScreenCast monitor picker each launch.
    pub fn always_prompt(&self) -> (r: bool)
        ensures
            r == self.capture.always_prompt,
    {
        self.capture.always_prompt
    }

    /// Whether to capture the whole desktop instead of only the active game.
    pub fn capture_desktop(&self) -> (r: bool)
        ensures
            r == self.capture.desktop,
    {
        self.capture.desktop
    }

    /// The raw stored encoder value, for the settings editor's dropdown state.
    pub fn encoder_stored(&self) -> (r: &str)
        ensures
            r@ == self.video.encoder@,
    {
        self.video.encoder.as_str()
    }

    /// Whether the recorder should start automatically at login.
    pub fn start_on_boot(&self) -> (r: bool)
        ensures
            r == self.startup.on_boot,
    {
        self.startup.on_boot
    }

    /// Whether downloaded updates install automatically at the next recorder start.
    pub fn auto_install_updates(&self) -> (r: bool)
        ensures
            r == self.updates.auto_install,
    {
        self.updates.auto_install
    }

    /// The configured retention window in seconds, as stored (before the window's clamp).
    pub fn buffer_seconds(&self) -> (r: u64)
        ensures
            r == self.buffer.seconds,
    {
        self.buffer.seconds
    }

    /// Whether clips sort into per-game subfolders when the running game is known.
    pub fn game_folders(&self) -> (r: bool)
        ensures
            r == self.output.game_folders,
    {
        self.output.game_folders
    }

    /// The upload toggle as stored (before [`upload`](Self::upload)'s has-a-key requirement).
    pub fn upload_enabled(&self) -> (r: bool)
        ensures
            r == self.upload.enabled,
    {
        self.upload.enabled
    }

    /// The API key as stored.
    pub fn upload_api_key(&self) -> (r: &str)
        ensures
            r@ == self.upload.api_key@,
    {
        self.upload.api_key.as_str()
    }

    /// The API base URL as stored (before [`upload`](Self::upload)'s empty fallback).
    pub fn upload_api_url(&self) -> (r: &str)
        ensures
            r@ == self.upload.api_url@,
    {
        self.upload.api_url.as_str()
    }

    /// The share-link base URL as stored (before [`upload`](Self::upload)'s empty fallback).
    pub fn upload_share_url(&self) -> (r: &str)
        ensures
            r@ == self.upload.share_url@,
    {
        self.upload.share_url.as_str()
    }

    /// The visibility string as stored.
    pub fn upload_visibility(&self) -> (r: &str)
        ensures
            r@ == self.upload.visibility@,
    {
        self.upload.visibility.as_str()
    }

    /// The YouTube toggle as stored (before [`youtube`](Self::youtube)'s has-a-token requirement).
    pub fn youtube_enabled(&self) -> (r: bool)
        ensures
            r == self.youtube.enabled,
    {
        self.youtube.enabled
    }

    /// The YouTube OAuth client id as stored (before the trim; empty = compiled-in default).
    pub fn youtube_client_id(&self) -> (r: &str)
        ensures
            r@ == self.youtube.client_id@,
    {
        self.youtube.client_id.as_str()
    }

    /// The YouTube OAuth client secret as stored.
    pub fn youtube_client_secret(&self) -> (r: &str)
        ensures
            r@ == self.youtube.client_secret@,
    {
        self.youtube.client_secret.as_str()
    }

    /// The YouTube refresh token as stored.
    pub fn youtube_refresh_token(&self) -> (r: &str)
        ensures
            r@ == self.youtube.refresh_token@,
    {
        self.youtube.refresh_token.as_str()
    }

    /// The YouTube visibility string as stored (before the `[upload]` fallback).
    pub fn youtube_visibility(&self) -> (r: &str)
        ensures
            r@ == self.youtube.visibility@,
    {
        self.youtube.visibility.as_str()
    }

    /// Set the encoder selection (a raw config value such as `"auto"` or `"gpu:<name>"`).
    pub fn set_encoder(&mut self, encoder: String)
        ensures
            *final(self) == (Config {
                video: VideoConfig { encoder: encoder, ..old(self).video },
                ..*old(self)
            }),
    {
        self.video.encoder = encoder;
    }

    /// Set whether the recorder starts automatically at login.
    pub fn set_start_on_boot(&mut self, on_boot: bool)
        ensures
            *final(self) == (Config {
                startup: StartupConfig { on_boot: on_boot, ..old(self).startup },
                ..*old(self)
            }),
    {
        self.startup.on_boot = on_boot;
    }

    /// Set whether downloaded updates install automatically at the next recorder start.
    pub fn set_auto_install_updates(&mut self, auto_install: bool)
        ensures
            *final(self) == (Config {
                updates: UpdatesConfig { auto_install: auto_install, ..old(self).updates },
                ..*old(self)
            }),
    {
        self.updates.auto_install = auto_install;
    }

    /// Set the microphone mix gain.
    pub fn set_mic_gain(&mut self, mic_gain: Gain)
        ensures
            *final(self) == (Config {
                audio: AudioConfig { mic_gain: mic_gain, ..old(self).audio },
                ..*old(self)
            }),
    {
        self.audio.mic_gain = mic_gain;
    }

    /// Set the system-audio mix gain.
    pub fn set_system_gain(&mut self, system_gain: Gain)
        ensures
            *final(self) == (Config {
                audio: AudioConfig { system_gain: system_gain, ..old(self).audio },
                ..*old(self)
            }),
    {
        self.audio.system_gain = system_gain;
    }

    /// Set whether to record the microphone at all.
    pub fn set_mic_enabled(&mut self, mic_enabled: bool)
        ensures
            *final(self) == (Config {
                audio: AudioConfig { mic_enabled: mic_enabled, ..old(self).audio },
                ..*old(self)
            }),
    {
        self.audio.mic_enabled = mic_enabled;
    }

    /// Set whether the microphone gets its own second audio track.
    pub fn set_separate_mic_track(&mut self, separate_mic_track: bool)
        ensures
            *final(self) == (Config {
                audio: AudioConfig { separate_mic_track: separate_mic_track, ..old(self).audio },
                ..*old(self)
            }),
    {
        self.audio.separate_mic_track = separate_mic_track;
    }

    /// Set the microphone to capture (empty = the system default).
    pub fn set_microphone(&mut self, microphone: String)
        ensures
            *final(self) == (Config {
                audio: AudioConfig { microphone: microphone, ..old(self).audio },
                ..*old(self)
            }),
    {
        self.audio.microphone = microphone;
    }

    /// Set the retention window in seconds (stored as-is; clamped on read).
    pub fn set_buffer_seconds(&mut self, seconds: u64)
        ensures
            *final(self) == (Config {
                buffer: BufferConfig { seconds: seconds, ..old(self).buffer },
                ..*old(self)
            }),
    {
        self.buffer.seconds = seconds;
    }

    /// Set whether clips sort into per-game subfolders.
    pub fn set_game_folders(&mut self, game_folders: bool)
        ensures
            *final(self) == (Config {
                output: OutputConfig { game_folders: game_folders, ..old(self).output },
                ..*old(self)
            }),
    {
        self.output.game_folders = game_folders;
    }

    /// Set the preferred global-shortcut trigger.
    pub fn set_hotkey_trigger(&mut self, trigger: String)
        ensures
            *final(self) == (Config {
                hotkey: HotkeyConfig { trigger: trigger, ..old(self).hotkey },
                ..*old(self)
            }),
    {
        self.hotkey.trigger = trigger;
    }

    /// Set whether to re-show the monitor picker each launch.
    pub fn set_always_prompt(&mut self, always_prompt: bool)
        ensures
            *final(self) == (Config {
                capture: CaptureConfig { always_prompt: always_prompt, ..old(self).capture },
                ..*old(self)
            }),
    {
        self.capture.always_prompt = always_prompt;
    }

    /// Set whether to capture the whole desktop instead of only the active game.
    pub fn set_capture_desktop(&mut self, desktop: bool)
        ensures
            *final(self) == (Config {
                capture: CaptureConfig { desktop: desktop, ..old(self).capture },
                ..*old(self)
            }),
    {
        self.capture.desktop = desktop;
    }

    /// Switch uploads on/off (takes effect only once a key is set — see [`upload`](Self::upload)).
    pub fn set_upload_enabled(&mut self, enabled: bool)
        ensures
            *final(self) == (Config {
                upload: UploadConfig { enabled: enabled, ..old(self).upload },
                ..*old(self)
            }),
    {
        self.upload.enabled = enabled;
    }

    /// Set the ganked.tv API key.
    pub fn set_upload_api_key(&mut self, api_key: String)
        ensures
            *final(self) == (Config {
                upload: UploadConfig { api_key: api_key, ..old(self).upload },
                ..*old(self)
            }),
    {
        self.upload.api_key = api_key;
    }

    /// Set the API base URL; an empty string means "use the default".
    pub fn set_upload_api_url(&mut self, api_url: String)
        ensures
            *final(self) == (Config {
                upload: UploadConfig { api_url: api_url, ..old(self).upload },
                ..*old(self)
            }),
    {
        self.upload.api_url = api_url;
    }

    /// Set the share-link base URL; an empty string means "use the default".
    pub fn set_upload_share_url(&mut self, share_url: String)
        ensures
            *final(self) == (Config {
                upload: UploadConfig { share_url: share_url, ..old(self).upload },
                ..*old(self)
            }),
    {
        self.upload.share_url = share_url;
    }

    /// Set the upload visibility string.
    pub fn set_upload_visibility(&mut self, visibility: String)
        ensures
            *final(self) == (Config {
                upload: UploadConfig { visibility: visibility, ..old(self).upload },
                ..*old(self)
            }),
    {
        self.upload.visibility = visibility;
    }

    /// Switch YouTube uploads on/off (takes effect only once a refresh token is stored).
    pub fn set_youtube_enabled(&mut self, enabled: bool)
        ensures
            *final(self) == (Config {
                youtube: YouTubeConfig { enabled: enabled, ..old(self).youtube },
                ..*old(self)
            }),
    {
        self.youtube.enabled = enabled;
    }

    /// Set the YouTube OAuth client id; an empty string means "use the compiled-in default".
    pub fn set_youtube_client_id(&mut self, client_id: String)
        ensures
            *final(self) == (Config {
                youtube: YouTubeConfig { client_id: client_id, ..old(self).youtube },
                ..*old(self)
            }),
    {
        self.youtube.client_id = client_id;
    }

    /// Set the YouTube OAuth client secret; an empty string means "use the compiled-in default".
    pub fn set_youtube_client_secret(&mut self, client_secret: String)
        ensures
            *final(self) == (Config {
                youtube: YouTubeConfig { client_secret: client_secret, ..old(self).youtube },
                ..*old(self)
            }),
    {
        self.youtube.client_secret = client_secret;
    }

    /// Set the YouTube refresh token; an empty string logs out.
    pub fn set_youtube_refresh_token(&mut self, refresh_token: String)
        ensures
            *final(self) == (Config {
                youtube: YouTubeConfig { refresh_token: refresh_token, ..old(self).youtube },
                ..*old(self)
            }),
    {
        self.youtube.refresh_token = refresh_token;
    }

    /// Set the YouTube visibility string; empty falls back to the `[upload]` visibility.
    pub fn set_youtube_visibility(&mut self, visibility: String)
        ensures
            *final(self) == (Config {
                youtube: YouTubeConfig { visibility: visibility, ..old(self).youtube },
                ..*old(self)
            }),
    {
        self.youtube.visibility = visibility;
    }
}

/// The values of the `REWYND_*` environment variables, where they are set.
#[derive(Debug, Clone, PartialEq, Eq)]
pub struct Overrides {
    /// `REWYND_WIDTH`.
    pub width: Option<String>,
    /// `REWYND_HEIGHT`.
    pub height: Option<String>,
    /// `REWYND_FPS`.
    pub fps: Option<String>,
    /// `REWYND_BITRATE_BPS`.
    pub bitrate_bps: Option<String>,
    /// `REWYND_IDR_PERIOD`.
    pub idr_period: Option<String>,
    /// `REWYND_ENCODER`.
    pub encoder: Option<String>,
    /// `REWYND_AUDIO_BITRATE_BPS`.
    pub audio_bitrate_bps: Option<String>,
    /// `REWYND_MICROPHONE`.
    pub microphone: Option<String>,
    /// `REWYND_OUTPUT_DIR`.
    pub output_dir: Option<String>,
    /// `REWYND_CAPTURE_DESKTOP`.
    pub capture_desktop: Option<String>,
}

impl Overrides {
    /// Whether no variable is set.
    pub open spec fn none(self) -> bool {
        &&& self.width is None
        &&& self.height is None
        &&& self.fps is None
        &&& self.bitrate_bps is None
        &&& self.idr_period is None
        &&& self.encoder is None
        &&& self.audio_bitrate_bps is None
        &&& self.microphone is None
        &&& self.output_dir is None
        &&& self.capture_desktop is None
    }
}

/// A numeric override: a positive decimal number, else the value that was there.
pub open spec fn number_over(value: Option<String>, was: u32) -> u32 {
    match value {
        Some(text) => match parse_unsigned(text@, u32::MAX as nat) {
            Some(n) => if n > 0 {
                n as u32
            } else {
                was
            },
            None => was,
        },
        None => was,
    }
}

/// A truth value in words, in any case.
pub open spec fn truth(text: Seq<char>) -> Option<bool> {
    let word = lowered(trim(text));
    if word == "1"@ || word == "true"@ || word == "yes"@ || word == "on"@ {
        Some(true)
    } else if word == "0"@ || word == "false"@ || word == "no"@ || word == "off"@ {
        Some(false)
    } else {
        None
    }
}

/// A boolean override: unrecognized values are ignored.
pub open spec fn truth_over(value: Option<String>, was: bool) -> bool {
    match value {
        Some(text) => match truth(text@) {
            Some(b) => b,
            None => was,
        },
        None => was,
    }
}

/// An encoder override: a blank one is ignored.
pub open spec fn encoder_over(value: Option<String>, was: String) -> String {
    match value {
        Some(text) => if trim(text@).len() > 0 {
            text
        } else {
            was
        },
        None => was,
    }
}

/// A directory override: an empty one is ignored.
pub open spec fn directory_over(value: Option<String>, was: Option<String>) -> Option<String> {
    match value {
        Some(text) => if text@.len() > 0 {
            Some(text)
        } else {
            was
        },
        None => was,
    }
}

/// A config with the environment layered over it.
pub open spec fn overridden(c: Config, o: Overrides) -> Config {
    Config {
        video: VideoConfig {
            width: number_over(o.width, c.video.width),
            height: number_over(o.height, c.video.height),
            framerate: number_over(o.fps, c.video.framerate),
            bitrate_bps: number_over(o.bitrate_bps, c.video.bitrate_bps),
            idr_period: number_over(o.idr_period, c.video.idr_period),
            encoder: encoder_over(o.encoder, c.video.encoder),
        },
        audio: AudioConfig {
            bitrate_bps: number_over(o.audio_bitrate_bps, c.audio.bitrate_bps),
            microphone: match o.microphone {
                Some(mic) => mic,
                None => c.audio.microphone,
            },
            ..c.audio
        },
        output: OutputConfig {
            directory: directory_over(o.output_dir, c.output.directory),
            ..c.output
        },
        capture: CaptureConfig {
            desktop: truth_over(o.capture_desktop, c.capture.desktop),
            ..c.capture
        },
        ..c
    }
}

/// Without overrides a config is what the file says.
pub proof fn law_no_overrides_changes_nothing(c: Config, o: Overrides)
    requires
        o.none(),
    ensures
        overridden(c, o) == c,
{
}

/// Layering the same environment twice is layering it once.
pub proof fn law_overrides_are_idempotent(c: Config, o: Overrides)
    ensures
        overridden(overridden(c, o), o) == overridden(c, o),
{
}

/// What goes to the logs is the same whatever the secrets are.
pub proof fn law_redacted_text_hides_secrets(
    u: UploadSettings,
    v: UploadSettings,
    y: YouTubeSettings,
    z: YouTubeSettings,
    upload_text: String,
    other_upload_text: String,
    youtube_text: String,
    other_youtube_text: String,
)
    requires
        u == (UploadSettings { api_key: u.api_key, ..v }),
        y == (YouTubeSettings {
            client_secret: y.client_secret,
            refresh_token: y.refresh_token,
            ..z
        }),
        call_ensures(UploadSettings::redacted, (&u,), upload_text),
        call_ensures(UploadSettings::redacted, (&v,), other_upload_text),
        call_ensures(YouTubeSettings::redacted, (&y,), youtube_text),
        call_ensures(YouTubeSettings::redacted, (&z,), other_youtube_text),
    ensures
        upload_text@ == other_upload_text@,
        youtube_text@ == other_youtube_text@,
{
}

fn override_number(value: &Option<String>, was: u32) -> (r: u32)
    ensures
        r == number_over(*value, was),
{
    match value {
        Some(text) => {
            let chars = to_chars(text.as_str());
            proof {
                assert(chars@.subrange(0, chars@.len() as int) =~= text@);
            }
            match parse_up_to(&chars, 0, chars.len(), u32::MAX as u64) {
                Some(n) => if n > 0 {
                    n as u32
                } else {
                    was
                },
                None => was,
            }
        },
        None => was,
    }
}

fn override_truth(value: &Option<String>, was: bool) -> (r: bool)
    ensures
        r == truth_over(*value, was),
{
    match value {
        Some(text) => {
            let lower = to_lower(trimmed(text.as_str()).as_str());
            let word = lower.as_str();
            if same(word, "1") || same(word, "true") || same(word, "yes") || same(word, "on") {
                true
            } else if same(word, "0") || same(word, "false") || same(word, "no") || same(
                word,
                "off",
            ) {
                false
            } else {
                was
            }
        },
        None => was,
    }
}

/// Whether `get` may answer with these values.
pub open spec fn answers<F: Fn(&'static str) -> Option<String>>(get: F, o: Overrides) -> bool {
    &&& call_ensures(get, ("REWYND_WIDTH",), o.width)
    &&& call_ensures(get, ("REWYND_HEIGHT",), o.height)
    &&& call_ensures(get, ("REWYND_FPS",), o.fps)
    &&& call_ensures(get, ("REWYND_BITRATE_BPS",), o.bitrate_bps)
    &&& call_ensures(get, ("REWYND_IDR_PERIOD",), o.idr_period)
    &&& call_ensures(get, ("REWYND_ENCODER",), o.encoder)
    &&& call_ensures(get, ("REWYND_AUDIO_BITRATE_BPS",), o.audio_bitrate_bps)
    &&& call_ensures(get, ("REWYND_MICROPHONE",), o.microphone)
    &&& call_ensures(get, ("REWYND_OUTPUT_DIR",), o.output_dir)
    &&& call_ensures(get, ("REWYND_CAPTURE_DESKTOP",), o.capture_desktop)
}

/// Ask `get` for the value of each variable.
pub fn read_overrides<F: Fn(&'static str) -> Option<String>>(get: F) -> (r: Overrides)
    requires
        forall|key: &'static str| #[trigger] call_requires(get, (key,)),
    ensures
        answers(get, r),
{
    Overrides {
        width: get("REWYND_WIDTH"),
        height: get("REWYND_HEIGHT"),
        fps: get("REWYND_FPS"),
        bitrate_bps: get("REWYND_BITRATE_BPS"),
        idr_period: get("REWYND_IDR_PERIOD"),
        encoder: get("REWYND_ENCODER"),
        audio_bitrate_bps: get("REWYND_AUDIO_BITRATE_BPS"),
        microphone: get("REWYND_MICROPHONE"),
        output_dir: get("REWYND_OUTPUT_DIR"),
        capture_desktop: get("REWYND_CAPTURE_DESKTOP"),
    }
}

impl Config {
    /// Layer `REWYND_*` environment overrides over the config (highest precedence). A
    /// non-positive or unparseable numeric override is ignored, falling back to the value that
    /// was there.
    pub fn apply_overrides(&mut self, o: Overrides)
        ensures
            *final(self) == overridden(*old(self), o),
    {
        self.video.width = override_number(&o.width, self.video.width);
        self.video.height = override_number(&o.height, self.video.height);
        self.video.framerate = override_number(&o.fps, self.video.framerate);
        self.video.bitrate_bps = override_number(&o.bitrate_bps, self.video.bitrate_bps);
        self.video.idr_period = override_number(&o.idr_period, self.video.idr_period);
        match o.encoder {
            Some(text) => if !trimmed(text.as_str()).as_str().is_empty() {
                self.video.encoder = text;
            },
            None => {},
        }
        self.audio.bitrate_bps = override_number(&o.audio_bitrate_bps, self.audio.bitrate_bps);
        match o.microphone {
            Some(mic) => {
                self.audio.microphone = mic;
            },
            None => {},
        }
        match o.output_dir {
            Some(dir) => if !dir.as_str().is_empty() {
                self.output.directory = Some(dir);
            },
            None => {},
        }
        // Desktop capture can be forced regardless of the file's setting — the onboarding wizard
        // uses this to make its test clip work while the user is on the desktop.
        self.capture.desktop = override_truth(&o.capture_desktop, self.capture.desktop);
    }

    /// [`apply_overrides`](Self::apply_overrides) with what `get` answers for each variable.
    pub fn apply_env_overrides<F: Fn(&'static str) -> Option<String>>(&mut self, get: F)
        requires
            forall|key: &'static str| #[trigger] call_requires(get, (key,)),
        ensures
            exists|o: Overrides|
                #[trigger] answers(get, o) && *final(self) == overridden(*old(self), o),
    {
        let o = read_overrides(get);
        let ghost read = o;
        self.apply_overrides(o);
        proof {
            assert(answers(get, read) && *self == overridden(*old(self), read));
        }
    }
}

/// The sections of a config file, each where it is there and well-formed.
#[derive(Clone, PartialEq, Eq)]
pub struct Sections {
    pub video: Option<VideoConfig>,
    pub audio: Option<AudioConfig>,
    pub buffer: Option<BufferConfig>,
    pub output: Option<OutputConfig>,
    pub hotkey: Option<HotkeyConfig>,
    pub capture: Option<CaptureConfig>,
    pub startup: Option<StartupConfig>,
    pub updates: Option<UpdatesConfig>,
    pub upload: Option<UploadConfig>,
    pub youtube: Option<YouTubeConfig>,
}

/// Whether a config takes each section that is there, and the defaults for the others.
pub open spec fn salvaged(s: Sections, c: Config) -> bool {
    &&& match s.video {
        Some(v) => c.video == v,
        None => c.video.is_default(),
    }
    &&& match s.audio {
        Some(v) => c.audio == v,
        None => c.audio.is_default(),
    }
    &&& match s.buffer {
        Some(v) => c.buffer == v,
        None => c.buffer.seconds == DEFAULT_BUFFER_SECONDS,
    }
    &&& match s.output {
        Some(v) => c.output == v,
        None => c.output.directory is None && c.output.game_folders,
    }
    &&& match s.hotkey {
        Some(v) => c.hotkey == v,
        None => c.hotkey.trigger@ == DEFAULT_HOTKEY_TRIGGER@,
    }
    &&& match s.capture {
        Some(v) => c.capture == v,
        None => !c.capture.always_prompt && !c.capture.desktop,
    }
    &&& match s.startup {
        Some(v) => c.startup == v,
        None => !c.startup.on_boot,
    }
    &&& match s.updates {
        Some(v) => c.updates == v,
        None => c.updates.auto_install,
    }
    &&& match s.upload {
        Some(v) => c.upload == v,
        None => c.upload.is_default(),
    }
    &&& match s.youtube {
        Some(v) => c.youtube == v,
        None => c.youtube.is_default(),
    }
}

/// Per-section salvage for a file that fails the strict parse: each known section that still
/// deserializes overrides the defaults; bad or unknown sections are skipped. A file that isn't
/// even valid TOML has no sections and degrades to all defaults.
pub fn salvage_sections(s: Sections) -> (r: Config)
    ensures
        salvaged(s, r),
{
    let mut config = Config::default();
    if let Some(v) = s.video {
        config.video = v;
    }
    if let Some(v) = s.audio {
        config.audio = v;
    }
    if let Some(v) = s.buffer {
        config.buffer = v;
    }
    if let Some(v) = s.output {
        config.output = v;
    }
    if let Some(v) = s.hotkey {
        config.hotkey = v;
    }
    if let Some(v) = s.capture {
        config.capture = v;
    }
    if let Some(v) = s.startup {
        config.startup = v;
    }
    if let Some(v) = s.updates {
        config.updates = v;
    }
    if let Some(v) = s.upload {
        config.upload = v;
    }
    if let Some(v) = s.youtube {
        config.youtube = v;
    }
    config
}

/// What became of reading the config file.
pub enum ConfigSource {
    /// There is no path to read, no file at it, or the file can't be read.
    Unavailable,
    /// The whole file is a valid config.
    Parsed(Config),
    /// The file is not a valid config; these sections of it are.
    Malformed(Sections),
}

/// The config that reading the file gives: defaults where it is unavailable, and whatever
/// sections still parse where it is malformed. Never fails — a missing or bad config degrades to
/// defaults rather than blocking startup.
pub fn file_config(source: ConfigSource) -> (r: Config)
    ensures
        match source {
            ConfigSource::Unavailable => r.is_default(),
            ConfigSource::Parsed(c) => r == c,
            ConfigSource::Malformed(s) => salvaged(s, r),
        },
{
    match source {
        ConfigSource::Unavailable => Config::default(),
        ConfigSource::Parsed(c) => c,
        ConfigSource::Malformed(s) => salvage_sections(s),
    }
}

/// Without any valid section a malformed file gives the defaults.
pub proof fn law_nothing_salvaged_is_default(s: Sections, c: Config)
    requires
        salvaged(s, c),
        s.video is None && s.audio is None && s.buffer is None && s.output is None,
        s.hotkey is None && s.capture is None && s.startup is None && s.updates is None,
        s.upload is None && s.youtube is None,
    ensures
        c.is_default(),
{
}

/// The place of the last dot of a file name that has something before it, or its length.
pub open spec fn extension_dot(name: Seq<char>, k: int) -> int
    decreases k,
{
    if k <= 0 {
        name.len() as int
    } else if name[k] == '.' {
        k
    } else {
        extension_dot(name, k - 1)
    }
}

/// A file name without its extension.
pub open spec fn file_stem(name: Seq<char>) -> Seq<char> {
    name.take(extension_dot(name, name.len() - 1))
}

/// The temp file that a save of the config at `path` goes to first: the extension replaced by
/// `toml.tmp`, so the rename onto `path` is atomic. `None` where `path` names no file.
pub fn save_temp_path(path: &str) -> (r: Option<String>)
    ensures
        match r {
            Some(temp) => file_name(path@) is Some && temp@ == renamed(
                path@,
                file_stem(file_name(path@)->0) + ".toml.tmp"@,
            ),
            None => file_name(path@) is None,
        },
{
    let name = match file_name_of(path) {
        Some(name) => name,
        None => {
            return None;
        },
    };
    let chars = to_chars(name.as_str());
    let n: usize = chars.len();
    let mut k: usize = if n == 0 {
        0
    } else {
        n - 1
    };
    while k > 0 && chars[k] != '.'
        invariant
            n == chars@.len(),
            k < n || n == 0,
            n == 0 ==> k == 0,
            chars@ == name@,
            extension_dot(name@, k as int) == extension_dot(name@, n - 1),
        decreases k,
    {
        k = k - 1;
    }
    let end: usize = if k == 0 {
        n
    } else {
        k
    };
    let mut temp = string_of(&chars, 0, end);
    proof {
        assert(chars@.subrange(0, end as int) =~= file_stem(name@));
    }
    temp.append(".toml.tmp");
    Some(with_file_name(path, temp.as_str()))
}

/// A commented `config.toml` matching the built-in defaults, written on first run for
/// discoverability.
pub const DEFAULT_TEMPLATE: &'static str = "\
# rewynd configuration. Values shown are the defaults; uncomment and edit to change.
# Precedence: these settings override the built-in defaults, and REWYND_* environment
# variables override the video/audio/output settings.

[video]
width = 1920
height = 1080
framerate = 60
bitrate_bps = 12000000
idr_period = 60
# Which encoder records: \"auto\" (the GPU when it can encode H.264, else the CPU), \"cpu\",
# or \"gpu:<adapter name>\" to pin a specific GPU. The CPU path is slower but works anywhere.
encoder = \"auto\"

[audio]
sample_rate = 48000
channels = 2
bitrate_bps = 128000
# Linear gain applied before mixing. 1.0 = unchanged, 2.0 = +6 dB. Raise mic_gain if your
# microphone is quiet; the mix is clamped so it can't overflow.
mic_gain = 1.0
system_gain = 1.0
# Capture a specific microphone instead of the system default. Case-insensitive; on
# Windows a part of the device name is enough, on Linux use the PipeWire node name.
microphone = \"\"
# Record the microphone at all. false = no mic stream is opened; clips carry only system audio.
mic_enabled = true
# Keep the microphone on its own second audio track (as well as the system+mic mix), so editors
# can separate voice from game sound.
separate_mic_track = false

[buffer]
# How many seconds of footage to keep for a clip.
seconds = 30

[output]
# Directory for saved clips. Unset = your Videos folder (or a private temp dir).
# directory = \"/home/you/Videos/rewynd\"
# Sort clips into a folder per game (like ShadowPlay) when the game is known.
game_folders = true

[hotkey]
# Preferred trigger; the desktop may let you rebind it in its shortcut settings.
trigger = \"CTRL+ALT+R\"

[capture]
# Re-show the monitor picker each launch (so you can pick a different screen).
always_prompt = false
# Record the whole desktop instead of only the active fullscreen game.
# Off keeps private windows out of clips.
desktop = false

[startup]
# Start rewynd automatically when you log in.
on_boot = false

[upload]
# Upload saved clips to ganked.tv from the tray (\"Upload last clip\"). Create an API key at
# ganked.tv/settings/api-keys and paste it here.
enabled = false
api_url = \"https://api.ganked.tv\"
share_url = \"https://ganked.tv\"
api_key = \"\"
# \"public\" (in feeds), \"unlisted\" (link only) or \"private\" (only you)
visibility = \"unlisted\"

[youtube]
# Upload saved clips to YouTube from the tray (\"Upload last clip to YouTube\"). The easy way
# is the settings window's \"Log in with YouTube\", which fills refresh_token for you.
enabled = false
# Override the built-in Google OAuth client (advanced; e.g. your own Google Cloud project).
client_id = \"\"
client_secret = \"\"
refresh_token = \"\"
# \"public\", \"unlisted\" or \"private\"; empty uses the [upload] visibility above.
visibility = \"\"
";

/// Video settings that can be encoded are used as they are stored; any other value gives way to
/// the nearest one that can, of an odd dimension the even one below.
pub proof fn law_encodable_video_is_kept(c: Config, r: VideoSettings)
    requires
        call_ensures(Config::video, (&c,), r),
    ensures
        16 <= c.video.width <= 7680 ==> r.width == c.video.width - c.video.width as int % 2,
        c.video.width < 16 ==> r.width == 16,
        c.video.width > 7680 ==> r.width == 7680,
        16 <= c.video.height <= 7680 ==> r.height == c.video.height - c.video.height as int % 2,
        c.video.height < 16 ==> r.height == 16,
        c.video.height > 7680 ==> r.height == 7680,
        1 <= c.video.framerate <= 240 ==> r.framerate == c.video.framerate,
        c.video.framerate < 1 ==> r.framerate == 1,
        c.video.framerate > 240 ==> r.framerate == 240,
        100_000 <= c.video.bitrate_bps <= 100_000_000 ==> r.bitrate_bps == c.video.bitrate_bps,
        c.video.bitrate_bps < 100_000 ==> r.bitrate_bps == 100_000,
        c.video.bitrate_bps > 100_000_000 ==> r.bitrate_bps == 100_000_000,
        1 <= c.video.idr_period <= 1000 ==> r.idr_period == c.video.idr_period,
        c.video.idr_period < 1 ==> r.idr_period == 1,
        c.video.idr_period > 1000 ==> r.idr_period == 1000,
{
}

/// Audio settings that Opus takes are used as they are stored; of any other sample rate none
/// that Opus takes is nearer than the one used.
pub proof fn law_opus_audio_is_kept(c: Config, r: AudioSettings, other: u32)
    requires
        call_ensures(Config::audio, (&c,), r),
        other == 8_000 || other == 12_000 || other == 16_000 || other == 24_000 || other == 48_000,
    ensures
        c.audio.sample_rate == other ==> r.sample_rate == other,
        r.sample_rate == 8_000 || r.sample_rate == 12_000 || r.sample_rate == 16_000
            || r.sample_rate == 24_000 || r.sample_rate == 48_000,
        vstd::math::abs(r.sample_rate - c.audio.sample_rate) <= vstd::math::abs(
            other - c.audio.sample_rate,
        ),
        1 <= c.audio.channels <= 2 ==> r.channels == c.audio.channels,
        c.audio.channels < 1 ==> r.channels == 1,
        c.audio.channels > 2 ==> r.channels == 2,
        6_000 <= c.audio.bitrate_bps <= 510_000 ==> r.bitrate_bps == c.audio.bitrate_bps,
        c.audio.bitrate_bps < 6_000 ==> r.bitrate_bps == 6_000,
        c.audio.bitrate_bps > 510_000 ==> r.bitrate_bps == 510_000,
{
    assert(opus_rate(other));
}

/// A gain that is a number and not below zero is used as it is stored; what is infinite, not a
/// number or below zero leaves the samples unchanged.
pub proof fn law_usable_gain_is_kept(c: Config, mic: Gain, system: Gain)
    requires
        call_ensures(Config::mic_gain, (&c,), mic),
        call_ensures(Config::system_gain, (&c,), system),
    ensures
        c.audio.mic_gain.bits < 0x7f80_0000 || c.audio.mic_gain.bits == 0x8000_0000 ==> mic
            == c.audio.mic_gain,
        0x7f80_0000 <= c.audio.mic_gain.bits < 0x8000_0000 || c.audio.mic_gain.bits > 0x8000_0000
            ==> mic.bits == 0x3f80_0000,
        c.audio.system_gain.bits < 0x7f80_0000 || c.audio.system_gain.bits == 0x8000_0000 ==> system
            == c.audio.system_gain,
        0x7f80_0000 <= c.audio.system_gain.bits < 0x8000_0000 || c.audio.system_gain.bits
            > 0x8000_0000 ==> system.bits == 0x3f80_0000,
{
}

/// The window is as long as was asked for, from a second to two minutes.
pub proof fn law_window_is_bounded(c: Config, r: Duration)
    requires
        call_ensures(Config::buffer_window, (&c,), r),
    ensures
        1_000_000_000 <= r@ <= 120_000_000_000,
        1 <= c.buffer.seconds <= 120 ==> r@ == c.buffer.seconds * 1_000_000_000,
        c.buffer.seconds > 120 ==> r@ == 120_000_000_000,
{
}

/// A text that is not blank is used, without the whitespace around it; a blank one gives way to
/// the default.
pub proof fn law_blank_gives_way(value: &str, default: &str, r: String, i: int) -> (at: (int, int))
    requires
        call_ensures(non_empty_or, (value, default), r),
        0 <= i < value@.len() || forall|k: int|
            0 <= k < value@.len() ==> crate::text::white(#[trigger] value@[k]),
    ensures
        0 <= at.0 <= at.1 <= value@.len(),
        0 <= i < value@.len() && !crate::text::white(value@[i]) ==> r@ == value@.subrange(
            at.0,
            at.1,
        ) && at.0 <= i < at.1,
        forall|k: int| 0 <= k < at.0 ==> crate::text::white(#[trigger] value@[k]),
        forall|k: int| at.1 <= k < value@.len() ==> crate::text::white(#[trigger] value@[k]),
        (forall|k: int| 0 <= k < value@.len() ==> crate::text::white(#[trigger] value@[k])) ==> r@
            == default@,
{
    let at = crate::text::law_trim_cuts_only_whitespace(value@);
    if 0 <= i < value@.len() && !crate::text::white(value@[i]) {
        if i < at.0 {
            assert(crate::text::white(value@[i]));
        }
        if i >= at.1 {
            assert(crate::text::white(value@[i]));
        }
    }
    at
}

/// Whether a text holds anything but whitespace.
pub open spec fn says_something(s: Seq<char>) -> bool {
    exists|i: int| 0 <= i < s.len() && !crate::text::white(#[trigger] s[i])
}

proof fn lemma_blank(s: Seq<char>)
    ensures
        says_something(s) == (trim(s).len() > 0),
{
    let at = crate::text::law_trim_cuts_only_whitespace(s);
    if says_something(s) {
        let i = choose|i: int| 0 <= i < s.len() && !crate::text::white(#[trigger] s[i]);
        if i < at.0 {
            assert(crate::text::white(s[i]));
        }
        if i >= at.1 {
            assert(crate::text::white(s[i]));
        }
    } else if at.0 < at.1 {
        assert(!crate::text::white(s[at.0]));
    }
}

/// Uploads are on exactly where they are switched on and the secret they need is there; without
/// it they are off whatever the switch says. A visibility of its own is kept.
pub proof fn law_uploads_fail_closed(c: Config, u: UploadSettings, y: YouTubeSettings)
    requires
        call_ensures(Config::upload, (&c,), u),
        call_ensures(Config::youtube, (&c,), y),
    ensures
        u.enabled == (c.upload.enabled && says_something(c.upload.api_key@)),
        y.enabled == (c.youtube.enabled && says_something(c.youtube.refresh_token@)),
        u.visibility@ == c.upload.visibility@,
        !says_something(c.youtube.visibility@) ==> y.visibility@ == c.upload.visibility@,
        says_something(c.youtube.visibility@) ==> y.visibility@ == trim(c.youtube.visibility@),
        !says_something(c.upload.api_url@) ==> u.api_url@ == DEFAULT_UPLOAD_API_URL@,
        says_something(c.upload.api_url@) ==> u.api_url@ == trim(c.upload.api_url@),
        !says_something(c.upload.share_url@) ==> u.share_url@ == DEFAULT_UPLOAD_SHARE_URL@,
        says_something(c.upload.share_url@) ==> u.share_url@ == trim(c.upload.share_url@),
{
    lemma_blank(c.upload.api_key@);
    lemma_blank(c.youtube.refresh_token@);
    lemma_blank(c.youtube.visibility@);
    lemma_blank(c.upload.api_url@);
    lemma_blank(c.upload.share_url@);
}

/// The trigger is the configured one wherever that says anything.
pub proof fn law_trigger_is_kept(c: Config, r: String)
    requires
        call_ensures(Config::hotkey_trigger, (&c,), r),
    ensures
        says_something(c.hotkey.trigger@) ==> r@ == trim(c.hotkey.trigger@),
        !says_something(c.hotkey.trigger@) ==> r@ == "CTRL+ALT+R"@,
{
    lemma_blank(c.hotkey.trigger@);
}

/// What follows a `gpu:`, in any case, is the adapter, its own case kept; a value that neither
/// pins an adapter nor is `cpu` leaves the choice open.
pub proof fn law_encoder_value_is_read(
    prefix: Seq<char>,
    name: Seq<char>,
    value: &str,
    r: EncoderPreference,
    other: &str,
    s: EncoderPreference,
)
    requires
        prefix.len() == 4,
        prefix[0] == 'g' || prefix[0] == 'G',
        prefix[1] == 'p' || prefix[1] == 'P',
        prefix[2] == 'u' || prefix[2] == 'U',
        prefix[3] == ':',
        trim(name) == name,
        value@ == prefix + name,
        call_ensures(EncoderPreference::parse, (value,), r),
        call_ensures(EncoderPreference::parse, (other,), s),
        forall|i: int| 0 <= i < other@.len() ==> #[trigger] other@[i] != ':',
    ensures
        r matches EncoderPreference::Gpu(adapter) && adapter@ == name,
        !(s is Gpu),
        trim(other@).len() != 3 ==> s is Auto,
        s is Cpu ==> lowered(trim(other@)) == "cpu"@,
        lowered(trim(other@)) == "cpu"@ ==> s is Cpu,
{
    reveal_strlit("gpu:");
    reveal_strlit("cpu");
    crate::text::lemma_trim_ends(name);
    assert(value@[0] == prefix[0]);
    assert(value@.last() == if name.len() > 0 {
        name.last()
    } else {
        ':'
    });
    lemma_trim_of_trimmed(value@);
    assert(value@.skip(4) =~= name);
    assert(value@.take(4) =~= prefix);
    assert(lowered(prefix) =~= "gpu:"@);
    let at = crate::text::law_trim_cuts_only_whitespace(other@);
    let t = trim(other@);
    if t.len() >= 4 && lowered(t.take(4)) == "gpu:"@ {
        assert(lowered(t.take(4))[3] == lower(t[3]));
        assert(t[3] == other@[at.0 + 3]);
    }
    if lowered(t) == "cpu"@ {
        assert(lowered(t).len() == t.len());
    }
}

/// A positive number in a variable is what the setting becomes; zero, what is no number and a
/// variable that is not set leave the setting as the file has it. No variable touches another
/// setting.
pub proof fn law_overrides_take_precedence(c: Config, o: Overrides, n: nat)
    requires
        0 < n <= u32::MAX,
    ensures
        ({
            let r = overridden(c, o);
            let set = |v: Option<String>| v is Some && v->0@ == crate::text::decimal(n);
            let idle = |v: Option<String>|
                v is None || v->0@.len() == 0 || v->0@[0] == '-' || v->0@ == crate::text::decimal(0);
            &&& set(o.width) ==> r.video.width == n
            &&& idle(o.width) ==> r.video.width == c.video.width
            &&& set(o.height) ==> r.video.height == n
            &&& idle(o.height) ==> r.video.height == c.video.height
            &&& set(o.fps) ==> r.video.framerate == n
            &&& idle(o.fps) ==> r.video.framerate == c.video.framerate
            &&& set(o.bitrate_bps) ==> r.video.bitrate_bps == n
            &&& idle(o.bitrate_bps) ==> r.video.bitrate_bps == c.video.bitrate_bps
            &&& set(o.idr_period) ==> r.video.idr_period == n
            &&& idle(o.idr_period) ==> r.video.idr_period == c.video.idr_period
            &&& set(o.audio_bitrate_bps) ==> r.audio.bitrate_bps == n
            &&& idle(o.audio_bitrate_bps) ==> r.audio.bitrate_bps == c.audio.bitrate_bps
            &&& o.encoder is Some && says_something(o.encoder->0@) ==> r.video.encoder
                == o.encoder->0
            &&& o.encoder is None || !says_something(o.encoder->0@) ==> r.video.encoder
                == c.video.encoder
            &&& o.microphone is Some ==> r.audio.microphone == o.microphone->0
            &&& o.microphone is None ==> r.audio.microphone == c.audio.microphone
            &&& o.output_dir is Some && o.output_dir->0@.len() > 0 ==> r.output.directory
                == o.output_dir
            &&& o.output_dir is None || o.output_dir->0@.len() == 0 ==> r.output.directory
                == c.output.directory
            &&& o.capture_desktop is None ==> r.capture.desktop == c.capture.desktop
            &&& r.audio.sample_rate == c.audio.sample_rate
            &&& r.audio.channels == c.audio.channels
            &&& r.audio.mic_gain == c.audio.mic_gain
            &&& r.audio.system_gain == c.audio.system_gain
            &&& r.audio.mic_enabled == c.audio.mic_enabled
            &&& r.audio.separate_mic_track == c.audio.separate_mic_track
            &&& r.output.game_folders == c.output.game_folders
            &&& r.capture.always_prompt == c.capture.always_prompt
            &&& r.buffer == c.buffer
            &&& r.hotkey == c.hotkey
            &&& r.startup == c.startup
            &&& r.updates == c.updates
            &&& r.upload == c.upload
            &&& r.youtube == c.youtube
        }),
{
    crate::text::law_parse_decimal(n, u32::MAX as nat);
    crate::text::law_parse_decimal(0, u32::MAX as nat);
    lemma_minus_is_no_number(o.width);
    lemma_minus_is_no_number(o.height);
    lemma_minus_is_no_number(o.fps);
    lemma_minus_is_no_number(o.bitrate_bps);
    lemma_minus_is_no_number(o.idr_period);
    lemma_minus_is_no_number(o.audio_bitrate_bps);
    if o.encoder is Some {
        lemma_blank(o.encoder->0@);
    }
}

proof fn lemma_minus_is_no_number(v: Option<String>)
    ensures
        v is Some && (v->0@.len() == 0 || v->0@[0] == '-') ==> parse_unsigned(
            v->0@,
            u32::MAX as nat,
        ) is None,
{
    if v is Some && (v->0@.len() == 0 || v->0@[0] == '-') {
        crate::text::law_only_digits_are_a_number(v->0@, 0, u32::MAX as nat);
    }
}

/// Desktop capture is forced on by `1`, `true`, `yes` and `on` and off by `0`, `false`, `no` and
/// `off`, in any case and with whitespace around; any other word leaves it as the file has it.
pub proof fn law_truth_words_decide(c: Config, o: Overrides, word: Seq<char>)
    requires
        o.capture_desktop is Some,
        word == lowered(trim(o.capture_desktop->0@)),
    ensures
        ({
            let r = overridden(c, o).capture.desktop;
            let on = word == "1"@ || word == "true"@ || word == "yes"@ || word == "on"@;
            let off = word == "0"@ || word == "false"@ || word == "no"@ || word == "off"@;
            &&& on ==> r
            &&& off ==> !r
            &&& !on && !off ==> r == c.capture.desktop
            &&& !(on && off)
        }),
{
    reveal_strlit("1");
    reveal_strlit("true");
    reveal_strlit("yes");
    reveal_strlit("on");
    reveal_strlit("0");
    reveal_strlit("false");
    reveal_strlit("no");
    reveal_strlit("off");
    assert("1"@[0] == '1' && "0"@[0] == '0');
    assert("true"@[0] == 't' && "false"@[0] == 'f');
    assert("yes"@[0] == 'y' && "off"@[0] == 'o');
    assert("on"@[1] == 'n' && "no"@[1] == 'o');
}

/// Every section of a malformed file that is well-formed is kept as it stands, whatever the
/// others are.
pub proof fn law_valid_sections_are_kept(s: Sections, c: Config, d: Config)
    requires
        call_ensures(salvage_sections, (s,), c),
        call_ensures(file_config, (ConfigSource::Malformed(s),), d),
    ensures
        s.video matches Some(v) ==> c.video == v && d.video == v,
        s.audio matches Some(v) ==> c.audio == v && d.audio == v,
        s.buffer matches Some(v) ==> c.buffer == v && d.buffer == v,
        s.output matches Some(v) ==> c.output == v && d.output == v,
        s.hotkey matches Some(v) ==> c.hotkey == v && d.hotkey == v,
        s.capture matches Some(v) ==> c.capture == v && d.capture == v,
        s.startup matches Some(v) ==> c.startup == v && d.startup == v,
        s.updates matches Some(v) ==> c.updates == v && d.updates == v,
        s.upload matches Some(v) ==> c.upload == v && d.upload == v,
        s.youtube matches Some(v) ==> c.youtube == v && d.youtube == v,
{
}

/// The defaults are full HD at sixty frames a second, stereo at 48 kHz with both sources at
/// their own level, half a minute of replay, and nothing that reaches beyond the game: no
/// desktop capture, no start at login and no upload.
pub proof fn law_defaults_stay_private(c: Config)
    requires
        call_ensures(file_config, (ConfigSource::Unavailable,), c),
    ensures
        c.video.width == 1920 && c.video.height == 1080 && c.video.framerate == 60,
        c.video.bitrate_bps == 12_000_000 && c.video.idr_period == 60,
        c.audio.sample_rate == 48_000 && c.audio.channels == 2 && c.audio.bitrate_bps == 128_000,
        c.audio.mic_gain == c.audio.system_gain && c.audio.mic_gain.bits == 0x3f80_0000,
        c.audio.mic_enabled && !c.audio.separate_mic_track && c.audio.microphone@.len() == 0,
        c.buffer.seconds == 30,
        c.output.directory is None && c.output.game_folders,
        !c.capture.desktop && !c.capture.always_prompt,
        !c.startup.on_boot && c.updates.auto_install,
        !c.upload.enabled && c.upload.api_key@.len() == 0 && c.upload.visibility@ == "unlisted"@,
        !c.youtube.enabled && c.youtube.refresh_token@.len() == 0,
{
}

/// A log line of upload settings holds the addresses and the visibility, each as std shows it,
/// and says whether uploads are on.
pub proof fn law_redacted_text_shows_the_rest(u: UploadSettings, r: String, y: YouTubeSettings, t:
    String) -> (at: (int, int, int, int, int))
    requires
        call_ensures(UploadSettings::redacted, (&u,), r),
        call_ensures(YouTubeSettings::redacted, (&y,), t),
    ensures
        ({
            let (url, share, seen) = (
                debug_form(u.api_url@),
                debug_form(u.share_url@),
                debug_form(u.visibility@),
            );
            let (client, other) = (debug_form(y.client_id@), debug_form(y.visibility@));
            &&& 0 < at.0 && at.0 + url.len() < at.1 && at.1 + share.len() < at.2 && at.2
                + seen.len() < r@.len()
            &&& r@.subrange(at.0, at.0 + url.len()) == url
            &&& r@.subrange(at.1, at.1 + share.len()) == share
            &&& r@.subrange(at.2, at.2 + seen.len()) == seen
            &&& 0 < at.3 && at.3 + client.len() < at.4 && at.4 + other.len() < t@.len()
            &&& t@.subrange(at.3, at.3 + client.len()) == client
            &&& t@.subrange(at.4, at.4 + other.len()) == other
            &&& r@[26] == if u.enabled {
                't'
            } else {
                'f'
            }
            &&& t@[27] == if y.enabled {
                't'
            } else {
                'f'
            }
        }),
{
    reveal_strlit("UploadSettings");
    reveal_strlit("YouTubeSettings");
    reveal_strlit(" { enabled: ");
    reveal_strlit("true");
    reveal_strlit("false");
    reveal_strlit(", api_url: ");
    reveal_strlit(", share_url: ");
    reveal_strlit(", api_key: \"gtv_***\", visibility: ");
    reveal_strlit(", client_id: ");
    reveal_strlit(", client_secret: \"***\", refresh_token: \"***\", visibility: ");
    reveal_strlit(" }");
    let (url, share, seen) = (
        debug_form(u.api_url@),
        debug_form(u.share_url@),
        debug_form(u.visibility@),
    );
    let (client, other) = (debug_form(y.client_id@), debug_form(y.visibility@));
    let a = ("UploadSettings"@ + " { enabled: "@ + shown(u.enabled) + ", api_url: "@).len() as int;
    let b = a + url.len() + ", share_url: "@.len();
    let c = b + share.len() + ", api_key: \"gtv_***\", visibility: "@.len();
    assert(r@.subrange(a, a + url.len()) =~= url);
    assert(r@.subrange(b, b + share.len()) =~= share);
    assert(r@.subrange(c, c + seen.len()) =~= seen);
    let d = ("YouTubeSettings"@ + " { enabled: "@ + shown(y.enabled) + ", client_id: "@).len() as int;
    let e = d + client.len()
        + ", client_secret: \"***\", refresh_token: \"***\", visibility: "@.len();
    assert(t@.subrange(d, d + client.len()) =~= client);
    assert(t@.subrange(e, e + other.len()) =~= other);
    (a, b, c, d, e)
}

proof fn lemma_extension_dot(name: Seq<char>, dot: int, k: int)
    requires
        0 < dot <= k < name.len(),
        name[dot] == '.',
        forall|i: int| dot < i < name.len() ==> #[trigger] name[i] != '.',
    ensures
        extension_dot(name, k) == dot,
    decreases k,
{
    if k > dot {
        assert(name[k] != '.');
        lemma_extension_dot(name, dot, k - 1);
    }
}

/// A save goes to a file beside the config first, under the same stem, so that the rename onto
/// the config replaces it at once.
pub proof fn law_save_goes_beside_the_config(
    dir: Seq<char>,
    stem: Seq<char>,
    extension: Seq<char>,
    path: &str,
    temp: Option<String>,
)
    requires
        crate::paths::plain_folder(dir),
        crate::paths::names_a_file(stem + seq!['.'] + extension),
        stem.len() > 0,
        forall|i: int| 0 <= i < extension.len() ==> #[trigger] extension[i] != '.',
        path@ == dir + seq!['/'] + (stem + seq!['.'] + extension),
        call_ensures(save_temp_path, (path,), temp),
    ensures
        temp is Some && temp->0@ == dir + seq!['/'] + (stem + ".toml.tmp"@),
{
    reveal_strlit(".toml.tmp");
    let name = stem + seq!['.'] + extension;
    let new_name = stem + ".toml.tmp"@;
    assert forall|i: int| stem.len() < i < name.len() implies #[trigger] name[i] != '.' by {
        assert(name[i] == extension[i - stem.len() - 1]);
    }
    lemma_extension_dot(name, stem.len() as int, name.len() - 1);
    assert(file_stem(name) =~= stem);
    assert forall|i: int| 0 <= i < new_name.len() implies #[trigger] new_name[i] != '/' by {
        if i < stem.len() {
            assert(name[i] == new_name[i]);
        }
    }
    crate::paths::lemma_two_parts(dir, name);
    crate::paths::lemma_two_parts(dir, new_name);
}

/// Each setting is asked for under its own variable.
pub proof fn law_each_variable_is_its_own<F: Fn(&'static str) -> Option<String>>(get: F, r: Overrides)
    requires
        call_ensures(read_overrides::<F>, (get,), r),
    ensures
        call_ensures(get, ("REWYND_WIDTH",), r.width),
        call_ensures(get, ("REWYND_HEIGHT",), r.height),
        call_ensures(get, ("REWYND_FPS",), r.fps),
        call_ensures(get, ("REWYND_BITRATE_BPS",), r.bitrate_bps),
        call_ensures(get, ("REWYND_IDR_PERIOD",), r.idr_period),
        call_ensures(get, ("REWYND_ENCODER",), r.encoder),
        call_ensures(get, ("REWYND_AUDIO_BITRATE_BPS",), r.audio_bitrate_bps),
        call_ensures(get, ("REWYND_MICROPHONE",), r.microphone),
        call_ensures(get, ("REWYND_OUTPUT_DIR",), r.output_dir),
        call_ensures(get, ("REWYND_CAPTURE_DESKTOP",), r.capture_desktop),
{
}

} // verus!
