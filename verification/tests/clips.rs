//! Where clips live and what they are called.

use rewynd::clips::{
    clip_entry, clip_output_path, clip_stamp_millis, clips_dir, folder_name, is_clip_name,
    newest_clip_of, sort_clips, ClipEntry,
};
use rewynd::paths::{file_name_of, parent_of, private_verdict, DirVerdict};

#[test]
fn folder_name_sanitizes() {
    assert_eq!(folder_name("Elden Ring"), Some("Elden Ring".to_owned()));
    assert_eq!(folder_name("a/b\\c"), Some("a b c".to_owned()));
    assert_eq!(
        folder_name("  spaced   out  "),
        Some("spaced out".to_owned())
    );
    assert_eq!(folder_name("..."), None);
    assert_eq!(folder_name("\u{0}\u{1}"), None);
    assert_eq!(folder_name(""), None);
    let long = "x".repeat(200);
    assert!(folder_name(&long).unwrap().len() <= 80);
}

#[test]
fn a_cleaned_folder_name_stays_as_it_is() {
    for name in [
        "  a/b\\c  ".to_owned(),
        "..dotted. name ..".to_owned(),
        "\u{e9}t\u{e9} ".repeat(40),
        format!("{} . y", "x".repeat(78)),
    ] {
        let cleaned = folder_name(&name).expect("a usable name");
        assert_ne!(cleaned, name);
        assert_eq!(folder_name(&cleaned), Some(cleaned));
    }
}

#[test]
fn clip_stamp_parses_only_well_formed_names() {
    assert_eq!(
        clip_stamp_millis("rewynd-1700000000123-0.mp4"),
        Some(1_700_000_000_123)
    );
    assert_eq!(clip_stamp_millis("rewynd-5-17.mp4"), Some(5));
    assert_eq!(clip_stamp_millis("rewynd-abc-0.mp4"), None);
    assert_eq!(clip_stamp_millis("rewynd-123-x.mp4"), None);
    assert_eq!(clip_stamp_millis("rewynd-123.mp4"), None);
    assert_eq!(clip_stamp_millis("other-123-0.mp4"), None);
}

#[test]
fn clips_dir_prefers_the_configured_directory() {
    assert_eq!(
        clips_dir(Some("/configured"), Some("/videos/rewynd"), "/tmp/private"),
        "/configured"
    );
    assert_eq!(
        clips_dir(None, Some("/videos/rewynd"), "/tmp/private"),
        "/videos/rewynd"
    );
    assert_eq!(clips_dir(None, None, "/tmp/private"), "/tmp/private");
}

#[test]
fn clip_output_path_stamps_and_sequences() {
    let a = clip_output_path("/dir", None, 1_700_000_000_123, 0);
    let b = clip_output_path("/dir", Some("Elden Ring"), 1_700_000_000_123, 1);
    assert_eq!(parent_of(&a).as_deref(), Some("/dir"));
    assert_eq!(parent_of(&b).as_deref(), Some("/dir/Elden Ring"));
    for p in [&a, &b] {
        let name = file_name_of(p).unwrap();
        assert!(is_clip_name(&name), "{name}");
        assert_eq!(clip_stamp_millis(&name), Some(1_700_000_000_123), "{name}");
    }
    assert_ne!(
        file_name_of(&a),
        file_name_of(&b),
        "the sequence disambiguates"
    );
    assert_eq!(a, "/dir/rewynd-1700000000123-0.mp4");
}

fn found(path: &str, game: Option<&str>, bytes: u64) -> Option<ClipEntry> {
    let name = file_name_of(path).expect("name");
    clip_entry(path, &name, game.map(str::to_owned), 9_000_000_000, bytes)
}

#[test]
fn lists_clips_newest_first_with_game_badges() {
    // Decoys with a wrong name or a wrong extension are no clips.
    let seen = [
        found("/root/rewynd-100-0.mp4", None, 1),
        found("/root/rewynd-300-0.mp4", None, 3),
        found("/root/Elden Ring/rewynd-200-0.mp4", Some("Elden Ring"), 2),
        found("/root/other.mp4", None, 1),
        found("/root/rewynd-400-0.txt", None, 1),
    ];
    let clips = sort_clips(seen.into_iter().flatten().collect());
    assert_eq!(
        clips
            .iter()
            .map(|c| file_name_of(&c.path).unwrap())
            .collect::<Vec<_>>(),
        vec!["rewynd-300-0.mp4", "rewynd-200-0.mp4", "rewynd-100-0.mp4"]
    );
    assert_eq!(clips[0].game, None);
    assert_eq!(clips[1].game, Some("Elden Ring".to_owned()));
    assert_eq!(clips[0].size_bytes, 3);
    assert_eq!(clips[2].saved_at, 100_000_000);
}

#[test]
fn unparseable_stamp_falls_back_to_mtime() {
    let clip = found("/root/rewynd-notastamp-0.mp4", None, 1).expect("a clip");
    assert_eq!(clip.saved_at, 9_000_000_000);
    assert_eq!(clip.modified, 9_000_000_000);
}

#[test]
fn newest_clip_wins_by_name_across_subfolders() {
    assert_eq!(newest_clip_of(&vec![]), None);
    let paths = vec![
        "/root/rewynd-100-0.mp4".to_owned(),
        "/root/Elden Ring/rewynd-200-0.mp4".to_owned(),
        "/root/other.mp4".to_owned(),
    ];
    assert_eq!(newest_clip_of(&paths), Some(1));
}

#[test]
fn ensure_private_dir_accepts_ours_and_rejects_loose_modes() {
    assert_eq!(
        private_verdict(true, 1000, 1000, 0o40700),
        DirVerdict::Accept,
        "fresh 0700 dir is ours"
    );
    assert_eq!(
        private_verdict(true, 1000, 1000, 0o40755),
        DirVerdict::Tighten,
        "a loose dir we own is tightened"
    );
    assert_eq!(
        private_verdict(false, 1000, 1000, 0o100700),
        DirVerdict::Refuse,
        "a non-directory is refused, and so is a symlink"
    );
    assert_eq!(
        private_verdict(true, 0, 1000, 0o40700),
        DirVerdict::Refuse,
        "another user's dir is refused"
    );
}
