//! Clip names and stars.

use rewynd::clip_meta::{
    clean_name, is_invisible, store_path, trimmed_copy_name, ClipMeta, ClipMetaStore,
    MAX_NAME_CHARS,
};
use rewynd::paths::file_name_of;

fn named(store: &mut ClipMetaStore, file: &str, name: &str) {
    store.set(file, |m| ClipMeta {
        name: clean_name(name),
        ..m
    });
}

#[test]
fn set_stores_and_compacts_entries() {
    let mut store = ClipMetaStore::default();
    named(&mut store, "rewynd-1-0.mp4", "Clutch ace");
    store.set("rewynd-1-0.mp4", |m| ClipMeta {
        favourite: true,
        ..m
    });
    let clip = "/clips/Elden Ring/rewynd-1-0.mp4";
    assert_eq!(store.name_of(clip).as_deref(), Some("Clutch ace"));
    assert!(
        store.is_favourite(clip),
        "the folder is not part of the key"
    );

    // Clearing both fields drops the entry rather than leaving an empty husk.
    store.set("rewynd-1-0.mp4", |m| ClipMeta { name: None, ..m });
    assert!(!store.is_empty(), "still starred");
    store.set("rewynd-1-0.mp4", |m| ClipMeta {
        favourite: false,
        ..m
    });
    assert!(store.is_empty());
    assert_eq!(store.name_of(clip), None);
    assert!(!store.is_favourite(clip));
}

#[test]
fn clearing_an_entry_through_update_forgets_the_clip() {
    let mut store = ClipMetaStore::default();
    named(&mut store, "rewynd-1-0.mp4", "Gone soon");
    named(&mut store, "rewynd-2-0.mp4", "Stays");

    // What the delete handler does: leave the entry at its default.
    store.set("rewynd-1-0.mp4", |_| ClipMeta::default());

    assert_eq!(store.name_of("rewynd-1-0.mp4"), None);
    assert_eq!(store.name_of("rewynd-2-0.mp4").as_deref(), Some("Stays"));
}

#[test]
fn entries_come_in_the_order_of_their_names() {
    let mut store = ClipMetaStore::new();
    for file in ["rewynd-3-0.mp4", "rewynd-1-0.mp4", "rewynd-2-0.mp4"] {
        named(&mut store, file, "x");
    }
    let files: Vec<&str> = store.entries().iter().map(|(f, _)| f.as_str()).collect();
    assert_eq!(files, ["rewynd-1-0.mp4", "rewynd-2-0.mp4", "rewynd-3-0.mp4"]);
    assert_eq!(store.entry_of("rewynd-2-0.mp4").name.as_deref(), Some("x"));
    assert!(store.get("/").is_none(), "a path without a file name");
}

#[test]
fn clean_name_drops_invisible_and_direction_flipping_characters() {
    // A name is drawn as a heading, so nothing in it may hide text or reverse it.
    let sneaky = "Ace\u{202e}gpj.exe\u{200b} \u{feff}clip";
    let cleaned = clean_name(sneaky).expect("name");
    assert_eq!(cleaned, "Ace gpj.exe clip");
    assert!(!cleaned.chars().any(is_invisible), "{cleaned:?}");
    assert_eq!(clean_name("\u{200b}\u{202e}\u{feff}"), None);
}

#[test]
fn clean_name_tidies_and_caps() {
    assert_eq!(
        clean_name("  Clutch   ace  "),
        Some("Clutch ace".to_owned())
    );
    assert_eq!(
        clean_name("line\nbreak\tand\u{0}nul"),
        Some("line break and nul".to_owned())
    );
    assert_eq!(clean_name("   "), None);
    assert_eq!(clean_name(""), None);

    // The cap counts characters, not bytes, so a multibyte name is never cut mid-character.
    let long = "é".repeat(MAX_NAME_CHARS + 20);
    let capped = clean_name(&long).expect("name");
    assert_eq!(capped.chars().count(), MAX_NAME_CHARS);
    // A name capped mid-word does not keep a dangling space.
    let words = format!("{} tail", "x".repeat(MAX_NAME_CHARS - 1));
    assert_eq!(
        clean_name(&words).expect("name"),
        "x".repeat(MAX_NAME_CHARS - 1)
    );
}

#[test]
fn cleaning_twice_changes_nothing() {
    for raw in ["  a\u{200b}b  c ", "x\ny", "plain"] {
        let once = clean_name(raw).expect("name");
        assert_eq!(clean_name(&once), Some(once.clone()));
    }
}

#[test]
fn trimmed_copy_name_fits_under_the_cap() {
    assert_eq!(
        trimmed_copy_name("Clutch ace"),
        Some("Clutch ace (trimmed)".to_owned())
    );
    let long = trimmed_copy_name(&"x".repeat(MAX_NAME_CHARS)).expect("name");
    assert!(long.chars().count() <= MAX_NAME_CHARS, "{long}");
    assert!(long.ends_with(" (trimmed)"), "{long}");
    assert_eq!(trimmed_copy_name("   "), None);
}

#[test]
fn file_name_of_is_the_key() {
    assert_eq!(
        file_name_of("/clips/Elden Ring/rewynd-5-0.mp4").as_deref(),
        Some("rewynd-5-0.mp4")
    );
    assert_eq!(file_name_of("/"), None);
}

#[test]
fn the_store_lies_beside_the_config() {
    assert_eq!(
        store_path(Some("/home/u/.config/rewynd/config.toml")).as_deref(),
        Some("/home/u/.config/rewynd/clip-meta.json")
    );
    assert_eq!(store_path(None), None);
}
