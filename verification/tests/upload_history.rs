//! What was uploaded where.

use rewynd::upload_history::{
    find_in, forget, history_path, to_millis, upsert, ClipKey, UploadRecord, GANKED, YOUTUBE,
};

fn key(name: &str) -> ClipKey {
    ClipKey {
        file_name: name.to_owned(),
        size_bytes: 100,
        modified_millis: 42,
    }
}

fn record_of(key: &ClipKey, dest: &str, id: &str) -> UploadRecord {
    UploadRecord {
        file_name: key.file_name.clone(),
        size_bytes: key.size_bytes,
        modified_millis: key.modified_millis,
        destination: dest.to_owned(),
        remote_id: id.to_owned(),
        url: Some(format!("https://x/{id}")),
        uploaded_millis: 1,
    }
}

#[test]
fn clip_key_derives_from_the_file_name() {
    let k = ClipKey::new("/clips/Elden Ring/rewynd-5-0.mp4", 2048, 7_000_000).expect("key");
    assert_eq!(k.file_name, "rewynd-5-0.mp4");
    assert_eq!(k.size_bytes, 2048);
    assert_eq!(k.modified_millis, 7);
    assert_eq!(ClipKey::new("/", 2048, 7_000_000), None, "a nameless path");
}

#[test]
fn upsert_keeps_one_record_per_clip_and_destination() {
    let k = key("rewynd-1-0.mp4");
    let mut records = Vec::new();
    upsert(&mut records, record_of(&k, GANKED, "old"));
    upsert(&mut records, record_of(&k, YOUTUBE, "yt"));
    // Re-upload to ganked replaces, doesn't duplicate.
    upsert(&mut records, record_of(&k, GANKED, "new"));
    assert_eq!(records.len(), 2);
    assert_eq!(find_in(&records, &k, GANKED).unwrap().remote_id, "new");
    assert_eq!(find_in(&records, &k, YOUTUBE).unwrap().remote_id, "yt");
}

#[test]
fn find_in_matches_only_the_same_clip_and_destination() {
    let a = key("a.mp4");
    let b = key("b.mp4");
    let records = vec![record_of(&a, GANKED, "ida")];
    assert_eq!(find_in(&records, &a, GANKED).unwrap().remote_id, "ida");
    assert!(find_in(&records, &a, YOUTUBE).is_none());
    assert!(find_in(&records, &b, GANKED).is_none());
}

#[test]
fn round_trips_through_the_file_and_forgets() {
    let k = key("rewynd-9-0.mp4");
    let mut records = vec![record_of(&k, GANKED, "gid"), record_of(&k, YOUTUBE, "yid")];
    assert_eq!(find_in(&records, &k, GANKED).unwrap().remote_id, "gid");

    // Forget drops just that (clip, destination).
    assert!(forget(&mut records, &k, GANKED));
    assert!(find_in(&records, &k, GANKED).is_none());
    assert!(find_in(&records, &k, YOUTUBE).is_some());
    assert!(!forget(&mut records, &k, GANKED), "nothing left to forget");
}

#[test]
fn moments_become_whole_milliseconds() {
    assert_eq!(to_millis(-1), 0, "before the epoch");
    assert_eq!(to_millis(1_999_999), 1);
    assert_eq!(to_millis(i128::MAX), u64::MAX, "saturates");
    assert_eq!(ClipKey::now_millis(5_000_000), 5);
}

#[test]
fn the_history_lies_beside_the_config() {
    assert_eq!(
        history_path(Some("/xdg/rewynd/config.toml")).as_deref(),
        Some("/xdg/rewynd/upload-history.json")
    );
    assert_eq!(history_path(None), None);
}
