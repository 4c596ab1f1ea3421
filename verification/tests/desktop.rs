//! Desktop entries, login autostart and icons.

use rewynd::desktop::{
    autostart_path, autostart_program, brand_png, desktop_entry, desktop_exec_value,
    entry_exec_value, exec_value_program, has_icon_key, icon_path, install_autostart,
    install_icons, install_launcher_entry, launcher_path, refresh_autostart, BrandIcon,
};
use rewynd::launch_agent::{
    launch_agent_path, launch_agent_plist, plist_program, xml_escape, xml_unescape, AgentFile,
};
use rewynd::paths::APP_ID;
use rewynd::run_key::{is_rewynd_command, protocol_command, run_command_value};

#[test]
fn exec_value_quotes_plain_and_spaced_paths() {
    assert_eq!(
        desktop_exec_value("/usr/bin/rewynd"),
        r#""/usr/bin/rewynd""#
    );
    assert_eq!(
        desktop_exec_value("/home/a b/rewynd"),
        r#""/home/a b/rewynd""#
    );
}

#[test]
fn exec_value_double_escapes_reserved_characters() {
    // `$` -> `\$` (quote layer) -> `\\$` (string layer).
    assert_eq!(desktop_exec_value("/x/$y/rewynd"), r#""/x/\\$y/rewynd""#);
    // A literal backslash becomes four.
    assert_eq!(desktop_exec_value("/x\\y"), r#""/x\\\\y""#);
    // `%` doubles so it can't read as an Exec field code.
    assert_eq!(desktop_exec_value("/x/100%f/y"), r#""/x/100%%f/y""#);
}

#[test]
fn exec_value_strips_control_characters() {
    // A newline could otherwise smuggle extra key-lines into the entry.
    assert_eq!(desktop_exec_value("/x/a\nb/rewynd"), r#""/x/ab/rewynd""#);
    assert_eq!(desktop_exec_value("/x\u{7f}y/re\twynd"), r#""/xy/rewynd""#);
}

#[test]
fn autostart_install_refresh_and_remove() {
    let entry = install_autostart("/opt/rewynd/rewynd", None);
    assert!(entry.starts_with("[Desktop Entry]\n"));
    assert!(entry.contains("Exec=\"/opt/rewynd/rewynd\"\n"));
    assert!(entry.contains("StartupNotify=false\n"));
    // Re-installing refreshes a stale Exec path in place.
    assert!(install_autostart("/new/rewynd", None).contains("Exec=\"/new/rewynd\"\n"));
}

#[test]
fn autostart_install_under_an_appimage_points_at_the_image() {
    // The recorder's mount path is ephemeral; the entry must launch the image itself, whose
    // entry binary (the GUI) turns `--recorder` into the recorder.
    let entry = install_autostart(
        "/tmp/.mount_rewynd123/usr/bin/rewynd-recorder",
        Some("/home/u/.local/bin/rewynd"),
    );
    assert!(entry.contains("Exec=\"/home/u/.local/bin/rewynd\" --recorder\n"));
}

#[test]
fn launcher_entry_installs_fresh_and_leaves_existing_untouched() {
    let entry = install_launcher_entry(None, "/opt/rewynd/rewynd", None).expect("install");
    assert!(entry.starts_with("[Desktop Entry]\n"));
    assert!(entry.contains("Exec=\"/opt/rewynd/rewynd\"\n"));
    assert!(entry.contains(&format!("Icon={APP_ID}\n")));
    assert!(entry.contains("Categories=AudioVideo;Recorder;\n"));

    // A pre-existing entry with an Icon key (e.g. shipped by a package, or user-managed)
    // stays untouched — in any spec-legal spelling.
    for packaged in [
        "[Desktop Entry]\nIcon=rewynd\n",
        "[Desktop Entry]\nIcon = rewynd\nExec=env FOO=1 /custom/rewynd\n",
        "[Desktop Entry]\nIcon[da]=rewynd\n",
    ] {
        assert_eq!(
            install_launcher_entry(Some(packaged), "/elsewhere/rewynd", None),
            None
        );
    }

    // An icon-less entry is one of our own pre-icon installs: refreshed in place. A key
    // merely starting with "Icon" doesn't count.
    let refreshed = install_launcher_entry(
        Some("[Desktop Entry]\nName=rewynd\nIconTheme=x\n"),
        "/elsewhere/rewynd",
        None,
    )
    .expect("refresh");
    assert!(refreshed.contains(&format!("Icon={APP_ID}\n")));
    assert!(refreshed.contains("Exec=\"/elsewhere/rewynd\"\n"));

    // In an AppImage the launcher points at the image.
    let image = install_launcher_entry(None, "/tmp/.mount/rewynd", Some("/home/u/rewynd"));
    assert!(image.expect("install").contains("Exec=\"/home/u/rewynd\"\n"));
}

#[test]
fn autostart_refresh_only_touches_existing_iconless_entries() {
    let exec = "/opt/rewynd/rewynd";
    // Missing entry: start-on-boot is off; the refresh must not create one.
    assert_eq!(refresh_autostart(None, exec, None, false), None);

    // Pre-icon entry gains the Icon key (and the current exec).
    let refreshed = refresh_autostart(Some("[Desktop Entry]\nName=rewynd\n"), exec, None, false)
        .expect("refresh");
    assert!(refreshed.contains(&format!("Icon={APP_ID}\n")));
    assert!(refreshed.contains("StartupNotify=false\n"));

    // A user-managed entry launching a live foreign program stays untouched.
    let managed = "[Desktop Entry]\nIcon=custom\nExec=/home/u/wrapper.sh\n";
    assert_eq!(autostart_program(managed), "/home/u/wrapper.sh");
    assert_eq!(refresh_autostart(Some(managed), exec, None, true), None);

    // A gone program is healed even in a foreign-looking entry: the launch is broken anyway.
    assert!(refresh_autostart(Some(managed), exec, None, false)
        .expect("heal")
        .contains("Exec=\"/opt/rewynd/rewynd\"\n"));

    // A bare, PATH-relying Exec can't be existence-checked and must not read as stale.
    let bare = "[Desktop Entry]\nIcon=custom\nExec=some-wrapper --flag\n";
    assert_eq!(refresh_autostart(Some(bare), exec, None, false), None);
}

#[test]
fn autostart_refresh_migrates_the_pre_rename_recorder_binary() {
    let exec = "/opt/rewynd/rewynd-recorder";
    // A pre-rename entry (icon-bearing) that still launches the old `rewynd` recorder — now
    // the GUI's name — is repointed at the current recorder despite carrying an icon; without
    // this, start-on-boot would open the library window instead of recording.
    let stale = desktop_entry("/home/u/rewynd", "StartupNotify=false\n");
    let migrated = refresh_autostart(Some(&stale), exec, None, true).expect("migrate");
    assert!(migrated.contains("Exec=\"/opt/rewynd/rewynd-recorder\"\n"));

    // Idempotent: the now-current entry is left alone on a second pass.
    assert_eq!(refresh_autostart(Some(&migrated), exec, None, true), None);
    // And a live recorder of another install is not taken over.
    assert_eq!(
        refresh_autostart(Some(&migrated), "/dev/tree/rewynd-recorder", None, true),
        None
    );
}

#[test]
fn autostart_refresh_canonicalizes_mount_paths_under_an_appimage() {
    let (mounted, image) = ("/tmp/mount/rewynd-recorder", "/home/u/rewynd");
    // A pre-fix entry launching the recorder through a (still-live) mount path is repointed
    // at the image itself, which is the only path that survives the session.
    let entry = desktop_entry(mounted, "StartupNotify=false\n");
    let healed =
        refresh_autostart(Some(&entry), mounted, Some(image), true).expect("canonicalize");
    assert!(healed.contains("Exec=\"/home/u/rewynd\" --recorder\n"));

    // Idempotent under the image, and — crucially — a later run OUTSIDE the image (a dev
    // build) must not repoint the image-form entry at its own recorder.
    assert_eq!(
        refresh_autostart(Some(&healed), mounted, Some(image), true),
        None
    );
    assert_eq!(
        refresh_autostart(Some(&healed), "/dev/tree/rewynd-recorder", None, true),
        None
    );
}

#[test]
fn exec_value_program_reads_quoted_and_bare_paths() {
    let entry = desktop_entry("/opt/rewynd/rewynd-recorder", "");
    assert_eq!(
        entry_exec_value(&entry).map(|value| exec_value_program(&value)),
        Some("/opt/rewynd/rewynd-recorder".to_owned())
    );
    assert_eq!(
        exec_value_program("/usr/bin/rewynd --recorder"),
        "/usr/bin/rewynd"
    );
    assert_eq!(entry_exec_value("[Desktop Entry]\nName=x\n"), None);
    assert!(has_icon_key("Icon=x\r\n") && !has_icon_key("Icon[da=x\n"));
}

fn icon(size: u32, png: &[u8]) -> BrandIcon {
    BrandIcon {
        size,
        png: png.to_vec(),
    }
}

#[test]
fn icons_install_into_hicolor_skip_unchanged_and_refresh() {
    let icons = [icon(24, b"png-24"), icon(48, b"png-48")];
    assert_eq!(install_icons(&icons, &[None, None]), [0, 1]);
    assert_eq!(
        icon_path("/data/icons/hicolor", 24),
        format!("/data/icons/hicolor/24x24/apps/{APP_ID}.png")
    );

    // Identical bytes are skipped entirely.
    let current = [Some(b"png-24".to_vec()), Some(b"png-48".to_vec())];
    assert!(install_icons(&icons, &current).is_empty());

    // A stale icon is refreshed in place.
    let newer = [icon(24, b"png-24-v2"), icon(48, b"png-48")];
    assert_eq!(install_icons(&newer, &current), [0]);
}

#[test]
fn the_nearest_render_at_or_above_is_taken() {
    let icons = [icon(24, b"a"), icon(48, b"b"), icon(128, b"c")];
    assert_eq!(brand_png(&icons, 24), b"a");
    assert_eq!(brand_png(&icons, 25), b"b");
    assert_eq!(brand_png(&icons, 500), b"c", "falls back to the largest");
}

#[test]
fn entries_lie_where_the_desktop_looks() {
    assert_eq!(
        autostart_path(Some("/home/u/.config")).as_deref(),
        Some("/home/u/.config/autostart/tv.ganked.rewynd.desktop")
    );
    assert_eq!(autostart_path(None), None);
    assert_eq!(
        launcher_path("/home/u/.local/share"),
        "/home/u/.local/share/applications/tv.ganked.rewynd.desktop"
    );
}

#[test]
fn plist_carries_label_exec_and_launch_keys() {
    let plist = launch_agent_plist("/opt/rewynd/rewynd-recorder");
    assert!(plist.starts_with(r#"<?xml version="1.0" encoding="UTF-8"?>"#));
    assert!(plist.contains(&format!("<string>{APP_ID}</string>")));
    assert!(plist.contains("<string>/opt/rewynd/rewynd-recorder</string>"));
    assert!(plist.contains("<key>RunAtLoad</key>\n\t<true/>"));
    assert!(plist.contains("<key>KeepAlive</key>\n\t<false/>"));
}

#[test]
fn plist_escapes_xml_reserved_path_characters() {
    let plist = launch_agent_plist("/apps/a&b <c>/rewynd-recorder");
    assert!(plist.contains("<string>/apps/a&amp;b &lt;c&gt;/rewynd-recorder</string>"));
    assert_eq!(xml_escape("plain/path"), "plain/path");
    assert_eq!(xml_escape("&&"), "&amp;&amp;");
    assert_eq!(plist_program(&plist).as_deref(), Some("/apps/a&b <c>/rewynd-recorder"));
}

#[test]
fn an_escaped_text_reads_back() {
    for text in ["", "plain/path", "&&", "a&b <c>", "&amp;", "&lt;&", "<>&amp"] {
        assert_eq!(xml_unescape(&xml_escape(text)), text);
    }
    assert_eq!(xml_unescape("&apos;&am"), "&apos;&am", "nothing else is an escape");
}

#[test]
fn desktop_autostart_install_refresh_and_remove() {
    let agent = launch_agent_plist("/opt/rewynd/rewynd-recorder");
    assert_eq!(
        plist_program(&agent).as_deref(),
        Some("/opt/rewynd/rewynd-recorder")
    );
    // A stale exec path (the install moved) is refreshed in place; a current one is not
    // rewritten.
    let refreshed = rewynd::launch_agent::refresh_autostart(
        AgentFile::Text(&agent),
        "/new/rewynd-recorder",
        false,
    )
    .expect("refresh");
    assert!(refreshed.contains("<string>/new/rewynd-recorder</string>"));
    assert_eq!(
        rewynd::launch_agent::refresh_autostart(
            AgentFile::Text(&refreshed),
            "/new/rewynd-recorder",
            false,
        ),
        None,
        "idempotent"
    );
    assert_eq!(
        launch_agent_path(Some("/Users/u")).as_deref(),
        Some("/Users/u/Library/LaunchAgents/tv.ganked.rewynd.plist")
    );
    assert_eq!(launch_agent_path(Some("Users/u")), None);
}

#[test]
fn autostart_refresh_leaves_a_live_program_alone() {
    // A plist whose program still exists (another install, or user-managed) must not
    // be hijacked by a differently-located build.
    let agent = launch_agent_plist("/live/rewynd-recorder");
    assert_eq!(
        rewynd::launch_agent::refresh_autostart(
            AgentFile::Text(&agent),
            "/somewhere/else/rewynd-recorder",
            true,
        ),
        None
    );
    // One that is no plist of ours names no program and is left alone; a file that is not
    // text is ours by its name and is rewritten.
    assert_eq!(
        rewynd::launch_agent::refresh_autostart(AgentFile::Text("<plist/>"), "/x", false),
        None
    );
    assert!(rewynd::launch_agent::refresh_autostart(AgentFile::NotText, "/x", true).is_some());
}

#[test]
fn autostart_refresh_never_creates_a_missing_agent() {
    assert_eq!(
        rewynd::launch_agent::refresh_autostart(
            AgentFile::Missing,
            "/opt/rewynd/rewynd-recorder",
            false,
        ),
        None,
        "start-on-login stays off"
    );
}

#[test]
fn autostart_value_installs_refreshes_and_removes() {
    let value = run_command_value(r"C:\apps\re wynd\rewynd.exe");
    assert_eq!(value, r#""C:\apps\re wynd\rewynd.exe""#);

    // A rewynd-owned value follows the binary when it moves; idempotent after that.
    let moved = rewynd::run_key::refresh_autostart(Some(&value), r"C:\new\rewynd.exe");
    assert_eq!(moved.as_deref(), Some(r#""C:\new\rewynd.exe""#));
    assert_eq!(
        rewynd::run_key::refresh_autostart(moved.as_deref(), r"C:\new\rewynd.exe"),
        None
    );
}

#[test]
fn refresh_leaves_missing_and_user_managed_values_alone() {
    // Missing value: start-on-boot is off; the refresh must not create one.
    assert_eq!(
        rewynd::run_key::refresh_autostart(None, r"C:\x\rewynd.exe"),
        None
    );
    // A command pointing at something that isn't a rewynd binary is user-managed.
    assert_eq!(
        rewynd::run_key::refresh_autostart(
            Some(r#""C:\wrapper\launcher.exe""#),
            r"C:\x\rewynd.exe"
        ),
        None
    );
    assert!(is_rewynd_command(" \"C:\\X\\REWYND.EXE\" "));
    assert_eq!(
        protocol_command(r"C:\x\rewynd.exe"),
        r#""C:\x\rewynd.exe" "%1""#
    );
}
