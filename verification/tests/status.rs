//! The recorder's published status.

use rewynd::status::{
    read_recorder_status, RecorderState, RecorderStatus, RECORDER_STATUS_VERSION,
};

fn sample(pid: u32) -> RecorderStatus {
    RecorderStatus {
        version: RECORDER_STATUS_VERSION,
        pid,
        encoder: "cpu".to_owned(),
        state: RecorderState::Recording,
        game: Some("Hades II".to_owned()),
        detail: None,
    }
}

#[test]
fn round_trips_through_json_when_pid_is_alive() {
    let status = sample(4242);
    let read = read_recorder_status(status.clone(), |pid| pid == 4242).expect("reads");
    assert_eq!(read, status);
}

#[test]
fn rejects_dead_pid() {
    assert!(read_recorder_status(sample(4242), |_| false).is_none());
}

#[test]
fn rejects_wrong_version() {
    let status = RecorderStatus {
        version: 999,
        ..sample(1)
    };
    assert!(read_recorder_status(status, |_| true).is_none());
}
