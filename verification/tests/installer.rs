//! The installer's decisions.

use rewynd::installer::{
    installed_app, log_tail, setup_outcome, sibling_setup, staged_payload, work_dir, Installer,
    Message, Phase, Reaction, LOG_TAIL_CHARS, SETUP_FILE,
};
use rewynd::paths::join;

#[test]
fn a_non_empty_payload_is_staged_into_the_work_dir() {
    let staged = staged_payload("/work", b"payload-bytes").expect("non-empty stages");
    assert_eq!(staged, join("/work", SETUP_FILE));
}

#[test]
fn an_empty_payload_stages_nothing() {
    assert_eq!(staged_payload("/work", b""), None);
}

#[test]
fn the_sibling_fallback_needs_a_real_file() {
    assert_eq!(sibling_setup("/dir"), join("/dir", SETUP_FILE));
    assert_eq!(work_dir("/tmp", 42), "/tmp/rewynd-installer-42");
}

#[test]
fn installed_app_follows_the_velopack_layout() {
    let app = installed_app("local");
    let expected = join(&join(&join("local", "rewynd"), "current"), "rewynd.exe");
    assert_eq!(app, expected);
    assert_eq!(app, "local/rewynd/current/rewynd.exe");
}

#[test]
fn log_tail_returns_the_end_of_the_log_on_line_boundaries() {
    let long_line = "x".repeat(LOG_TAIL_CHARS);
    let tail = log_tail(Some(&format!("first line\n{long_line}\nlast line")));
    assert!(tail.ends_with("last line"));
    assert!(!tail.contains("first line"), "the head is dropped");
    assert_eq!(tail, "last line");
    assert_eq!(log_tail(None), "");
    assert_eq!(log_tail(Some("  short\nlog \n")), "short\nlog");
}

#[test]
fn the_tail_is_counted_in_bytes_and_cut_on_a_character() {
    // 400 two-byte characters: 300 of them are 600 bytes.
    assert_eq!(log_tail(Some(&"é".repeat(400))).chars().count(), 300);
    // A leading byte puts the cut inside a character, which is dropped whole.
    let odd = format!("{}a", "é".repeat(400));
    assert_eq!(log_tail(Some(&odd)).chars().count(), 300);
}

#[test]
fn a_failed_setup_shows_its_log() {
    assert_eq!(setup_outcome(true, Some("log")), Ok(()));
    assert_eq!(
        setup_outcome(false, Some("why\n")),
        Err("the install did not finish\nwhy".to_owned())
    );
}

#[test]
fn a_running_install_refuses_to_close() {
    let mut app = Installer::default();
    assert_eq!(app.update(Message::Drag), Reaction::Drag);
    assert_eq!(app.update(Message::Install), Reaction::Install);
    assert!(app.installing());
    assert_eq!(app.update(Message::Tick), Reaction::Nothing);
    assert_eq!(app.ticks, 1);
    assert_eq!(app.update(Message::Close), Reaction::Nothing);
    assert_eq!(app.update(Message::Finished(Ok(()))), Reaction::Linger);
    assert_eq!(app.phase, Phase::Done);
    assert_eq!(app.update(Message::Close), Reaction::Exit);
}

#[test]
fn a_failed_install_can_be_closed() {
    let mut app = Installer::default();
    app.update(Message::Install);
    app.update(Message::Finished(Err("no".to_owned())));
    assert_eq!(app.phase, Phase::Failed("no".to_owned()));
    assert_eq!(app.update(Message::Close), Reaction::Exit);
}
