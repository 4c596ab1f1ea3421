//! The size-capped log set.

use std::collections::BTreeMap;

use rewynd::logs::{LogStep, RotatingLog};

/// The sizes of the files after writing lines of these lengths, the live one first.
fn write(log: &mut RotatingLog, files: &mut Vec<usize>, keep: usize, len: usize) {
    if log.make_room(len) {
        files.insert(0, 0);
        files.truncate(keep);
    }
    log.wrote(len);
    files[0] += len;
}

#[test]
fn rotates_at_the_cap_and_keeps_a_bounded_set() {
    let mut log = RotatingLog::open("/logs", "t", 0, 100, 3);
    let mut files = vec![0];
    // 40-byte lines: two fit, the third rotates.
    for _ in 0..12 {
        write(&mut log, &mut files, 3, 40);
    }
    assert_eq!(files, [80, 80, 80], "each within the cap, no fourth file");
    assert_eq!(log.path(), "/logs/t.log");
    assert_eq!(
        log.rotation(),
        [
            ("/logs/t.1.log".to_owned(), "/logs/t.2.log".to_owned()),
            ("/logs/t.log".to_owned(), "/logs/t.1.log".to_owned()),
        ]
    );
}

#[test]
fn keep_one_truncates_the_live_file_in_place() {
    let mut log = RotatingLog::open("/logs", "solo", 0, 50, 1);
    let mut files = vec![0];
    for _ in 0..10 {
        write(&mut log, &mut files, 1, 20);
    }
    assert_eq!(files, [40]);
    assert!(log.rotation().is_empty());
}

#[test]
fn reopening_appends_and_counts_what_is_already_there() {
    let mut log = RotatingLog::open("/logs", "again", 40, 60, 2);
    let mut files = vec![40];
    // 40 + 30 > 60: the reopened log rotates rather than overshooting its cap.
    write(&mut log, &mut files, 2, 30);
    assert_eq!(files, [30, 40]);
}

#[test]
fn an_oversized_write_lands_whole() {
    let mut log = RotatingLog::open("/logs", "big", 0, 10, 2);
    let mut files = vec![0];
    write(&mut log, &mut files, 2, 25);
    write(&mut log, &mut files, 2, 1);
    assert_eq!(files, [1, 25]);
}

#[test]
fn caps_are_at_least_one() {
    let mut log = RotatingLog::open("/logs", "zero", 0, 0, 0);
    assert!(!log.make_room(5));
    log.wrote(5);
    assert!(log.make_room(1));
    assert!(log.rotation().is_empty());
}

/// Writes to files that are held in memory.
fn write_line(log: &mut RotatingLog, disk: &mut BTreeMap<String, String>, line: &str) {
    for step in log.write(line.len()) {
        match step {
            LogStep::Rename { from, to } => {
                if let Some(content) = disk.remove(&from) {
                    disk.insert(to, content);
                }
            }
            LogStep::Start { path } => {
                disk.insert(path, String::new());
            }
            LogStep::Append { path } => disk.entry(path).or_default().push_str(line),
        }
    }
    log.wrote(line.len());
}

#[test]
fn a_write_says_what_to_do_in_order() {
    let mut log = RotatingLog::open("/logs", "t", 4, 10, 2);
    let append = LogStep::Append { path: "/logs/t.log".to_owned() };
    assert_eq!(log.write(6), [append], "what fits is appended");
    log.wrote(6);
    let steps = [
        LogStep::Rename { from: "/logs/t.log".to_owned(), to: "/logs/t.1.log".to_owned() },
        LogStep::Start { path: "/logs/t.log".to_owned() },
        LogStep::Append { path: "/logs/t.log".to_owned() },
    ];
    assert_eq!(log.write(1), steps);
}

#[test]
fn a_rotation_loses_only_the_oldest_file() {
    let mut log = RotatingLog::open("/logs", "t", 0, 10, 3);
    let mut disk = BTreeMap::new();
    disk.insert("/logs/other.log".to_owned(), "untouched".to_owned());
    for line in ["aaaaaa", "bbbbbb", "cccc", "dddddd"] {
        write_line(&mut log, &mut disk, line);
    }
    let at = |disk: &BTreeMap<String, String>, path: &str| disk[path].clone();
    assert_eq!(at(&disk, "/logs/t.log"), "dddddd");
    assert_eq!(at(&disk, "/logs/t.1.log"), "bbbbbbcccc", "a line that fits is appended whole");
    assert_eq!(at(&disk, "/logs/t.2.log"), "aaaaaa");
    write_line(&mut log, &mut disk, "eeeeee");
    assert_eq!(at(&disk, "/logs/t.log"), "eeeeee");
    assert_eq!(at(&disk, "/logs/t.1.log"), "dddddd");
    assert_eq!(at(&disk, "/logs/t.2.log"), "bbbbbbcccc");
    assert_eq!(at(&disk, "/logs/other.log"), "untouched");
    assert_eq!(disk.len(), 4, "no fourth file of the set");
}

#[test]
fn a_lone_file_is_truncated() {
    let mut log = RotatingLog::open("/logs", "t", 0, 10, 1);
    let mut disk = BTreeMap::new();
    for line in ["aaaaaa", "bbbbbb"] {
        write_line(&mut log, &mut disk, line);
    }
    assert_eq!(disk.len(), 1);
    assert_eq!(disk["/logs/t.log"], "bbbbbb");
}
