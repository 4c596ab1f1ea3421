//! Well-known paths.

use rewynd::paths::{
    config_home_from, config_path_from, config_path_with, data_home_from, default_output_dir,
    file_name_of, instance_dir_from, instance_verdict, join, log_dir, recorder_pid_path,
    settings_activation_path, settings_lock_path, sibling_of, staged_path, DirVerdict, APP_ID,
};
use rewynd::status::recorder_status_path;

#[test]
fn staged_path_appends_to_the_full_file_name() {
    let staged = staged_path(&join("run", "settings.activate"), 4711);
    assert_eq!(
        file_name_of(&staged).as_deref(),
        Some("settings.activate.4711.part"),
        "the suffix is appended, not swapped for the extension"
    );
    assert_eq!(staged, "run/settings.activate.4711.part");
}

#[test]
fn config_home_rejects_relative_values() {
    // Relative XDG_CONFIG_HOME falls back to HOME; a relative HOME resolves to nothing.
    assert_eq!(config_home_from(None, Some("relative")), None);
    assert_eq!(
        config_home_from(Some("rel"), Some("/home/u")).as_deref(),
        Some("/home/u/.config")
    );
}

#[test]
fn config_path_prefers_xdg_then_home() {
    assert_eq!(
        config_path_from(Some("/xdg"), Some("/home/u")).as_deref(),
        Some("/xdg/rewynd/config.toml")
    );
    assert_eq!(
        config_path_from(None, Some("/home/u")).as_deref(),
        Some("/home/u/.config/rewynd/config.toml")
    );
    // A relative XDG_CONFIG_HOME is rejected, falling back to HOME.
    assert_eq!(
        config_path_from(Some("relative/path"), Some("/home/u")).as_deref(),
        Some("/home/u/.config/rewynd/config.toml")
    );
    assert!(config_path_from(None, None).is_none());
}

#[test]
fn config_path_falls_back_to_the_platform_config_dir() {
    assert_eq!(
        config_path_with(None, None, Some("/appdata")).as_deref(),
        Some("/appdata/rewynd/config.toml")
    );
    assert_eq!(config_path_with(None, None, Some("appdata")), None);
    assert_eq!(
        config_path_with(Some("/xdg"), None, Some("/appdata")).as_deref(),
        Some("/xdg/rewynd/config.toml")
    );
}

#[test]
fn data_home_prefers_xdg_then_home() {
    assert_eq!(
        data_home_from(Some("/xdg-data"), Some("/home/u")).as_deref(),
        Some("/xdg-data")
    );
    assert_eq!(
        data_home_from(None, Some("/home/u")).as_deref(),
        Some("/home/u/.local/share")
    );
    assert_eq!(
        data_home_from(Some("rel"), None),
        None,
        "relative XDG_DATA_HOME without HOME is unusable"
    );
    assert!(data_home_from(None, None).is_none());
}

#[test]
fn instance_dir_prefers_runtime_dir() {
    let rt = instance_dir_from(Some("/run/u"), "/tmp", 1000);
    assert_eq!(rt.path, "/run/u/rewynd");
    assert!(!rt.in_shared_temp);
    // Unset or relative runtime dir falls back under the temp dir, scoped per user.
    let unset = instance_dir_from(None, "/tmp", 1000);
    assert_eq!(unset.path, "/tmp/rewynd-1000");
    assert!(unset.in_shared_temp);
    let rel = instance_dir_from(Some("rel"), "/tmp", 1000);
    assert_eq!(rel.path, "/tmp/rewynd-1000");
    assert!(rel.in_shared_temp);
}

#[test]
fn instance_files_lie_in_the_instance_dir() {
    let dir = instance_dir_from(Some("/run/u"), "/tmp", 1000);
    assert_eq!(recorder_pid_path(&dir), "/run/u/rewynd/recorder.pid");
    assert_eq!(settings_lock_path(&dir), "/run/u/rewynd/settings.lock");
    assert_eq!(
        settings_activation_path(&dir),
        "/run/u/rewynd/settings.activate"
    );
    assert_eq!(recorder_status_path(&dir), "/run/u/rewynd/status.json");
}

#[test]
fn ensure_instance_dir_creates_a_private_dir() {
    assert_eq!(
        instance_verdict(true, true, 1000, 1000, 0o40700),
        DirVerdict::Accept,
        "instance dir is owner-only"
    );
}

#[test]
fn ensure_instance_dir_rejects_symlinks_and_tightens_loose_modes() {
    // A symlink's own metadata is no directory.
    assert_eq!(
        instance_verdict(true, false, 1000, 1000, 0o120777),
        DirVerdict::Refuse,
        "symlink is rejected"
    );
    // A loose dir WE own (an older release created it 0755) is tightened, not refused —
    // refusing would permanently disable the single-instance guard on upgrade.
    assert_eq!(
        instance_verdict(true, true, 1000, 1000, 0o40755),
        DirVerdict::Tighten,
        "loose mode is tightened to 0700"
    );
    assert_eq!(
        instance_verdict(true, true, 0, 1000, 0o40700),
        DirVerdict::Refuse
    );
}

#[test]
fn ensure_instance_dir_trusts_the_runtime_dir() {
    assert_eq!(
        instance_verdict(false, true, 0, 1000, 0o40755),
        DirVerdict::Accept
    );
}

#[test]
fn default_output_dir_does_not_panic() {
    assert_eq!(
        default_output_dir(Some("/home/u/Videos")).as_deref(),
        Some("/home/u/Videos/rewynd")
    );
    assert_eq!(default_output_dir(None), None);
}

#[test]
fn log_dir_sits_under_the_platform_data_dir() {
    assert_eq!(
        log_dir(Some("/home/u/.local/share")).as_deref(),
        Some("/home/u/.local/share/rewynd/logs")
    );
    assert_eq!(log_dir(None), None);
}

#[test]
fn sibling_of_joins_the_parent_dir() {
    let sib = sibling_of("/opt/rewynd/rewynd-settings", "rewynd").expect("exe has a parent");
    assert_eq!(sib, "/opt/rewynd/rewynd");
    assert_eq!(sibling_of("/", "rewynd"), None, "no parent");
}

#[test]
fn names_keep_what_was_joined() {
    assert_eq!(file_name_of(&join("/a/", "b.mp4")).as_deref(), Some("b.mp4"));
    assert_eq!(file_name_of("/a/.."), None);
    assert_eq!(join("/a", "/b"), "/b", "an absolute part replaces the base");
    assert_eq!(APP_ID, "tv.ganked.rewynd");
}
