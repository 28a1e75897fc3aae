use activity_tracker::record::ActivityRecord;
use activity_tracker::session::{
    file_name_for, ActivityTracker, Phase, SaveResult, StartError, Status, StopOutcome,
    COUNTDOWN_SECS,
};

fn sample(timestamp: u64, x: i32) -> ActivityRecord {
    ActivityRecord { timestamp, mouse_x: x, mouse_y: -x, keys_pressed: vec!["A".to_string()] }
}

fn named(name: &str) -> ActivityTracker {
    let mut t = ActivityTracker::new(false);
    t.set_task_name(name.to_string());
    t
}

#[test]
fn empty_task_name_never_starts() {
    let mut t = ActivityTracker::new(false);
    assert_eq!(t.start_task(10), Err(StartError::EmptyTaskName));
    assert_eq!(t.phase, Phase::Idle);
    assert_eq!(t.session, 0);
    assert!(!t.accepts_samples(0));
}

#[test]
fn start_begins_countdown() {
    let mut t = named("focus");
    let id = t.start_task(100).unwrap();
    assert_eq!(id, 1);
    assert_eq!(t.phase, Phase::Countdown);
    assert_eq!(t.started_at, 100);
    assert!(matches!(t.status, Status::CountingDown(5)));
    assert_eq!(t.status_text(), "Recording will start in 5 seconds...");
}

#[test]
fn second_start_while_active_is_refused() {
    let mut t = named("focus");
    let id = t.start_task(0).unwrap();
    assert_eq!(t.start_task(1), Err(StartError::AlreadyActive));
    assert_eq!(t.session, id);
    assert_eq!(t.phase, Phase::Countdown);
}

#[test]
fn tick_counts_down_then_records() {
    let mut t = named("focus");
    t.start_task(100).unwrap();
    t.tick(102);
    assert!(matches!(t.status, Status::CountingDown(3)));
    assert_eq!(t.status_text(), "Recording will start in 3 seconds...");
    assert_eq!(t.phase, Phase::Countdown);
    t.tick(100 + COUNTDOWN_SECS);
    assert_eq!(t.phase, Phase::Recording);
    assert_eq!(t.status_text(), "Recording in progress...");
}

#[test]
fn immediate_stop_is_not_ready() {
    let mut t = named("focus");
    t.start_task(50).unwrap();
    assert!(matches!(t.stop_task(50, 1700000000), StopOutcome::NotReady));
    assert_eq!(t.status_text(), "Please wait for timer to complete.");
    assert_eq!(t.phase, Phase::Countdown);
    assert!(t.accepts_samples(t.session));
}

#[test]
fn early_stop_keeps_recording_and_log() {
    let mut t = named("focus");
    let id = t.start_task(0).unwrap();
    assert!(t.add_sample(id, sample(1, 1)));
    assert!(matches!(t.stop_task(4, 0), StopOutcome::NotReady));
    assert_eq!(t.log.len(), 1);
    assert_eq!(t.phase, Phase::Countdown);
    assert!(t.accepts_samples(id));
}

#[test]
fn clock_read_before_start_counts_as_no_time() {
    let mut t = named("other");
    t.start_task(10).unwrap();
    assert!(matches!(t.stop_task(3, 0), StopOutcome::NotReady));
    assert_eq!(t.phase, Phase::Countdown);
    t.tick(3);
    assert!(matches!(t.status, Status::CountingDown(5)));
}

#[test]
fn stop_after_six_seconds_writes_named_file() {
    let mut t = named("deep work");
    let id = t.start_task(1000).unwrap();
    t.tick(1005);
    for i in 0..10u64 {
        assert!(t.add_sample(id, sample(1700000005 + i / 10, i as i32)));
    }
    match t.stop_task(1006, 1700000006) {
        StopOutcome::Write(f) => {
            assert_eq!(f.file_name, "deep_work_1700000006.csv");
            let lines: Vec<&str> = f.contents.lines().collect();
            assert_eq!(lines.len(), 11);
            assert!(lines.len() - 1 >= 5);
            assert_eq!(lines[0], "timestamp,mouse_x,mouse_y,keys_pressed");
            assert_eq!(lines[1], "1700000005,0,0,\"A\"");
            assert_eq!(lines[10], "1700000005,9,-9,\"A\"");
        }
        _ => panic!("expected a file to write"),
    }
    assert_eq!(t.phase, Phase::Idle);
    assert!(t.log.is_empty());
    assert!(!t.accepts_samples(id));
}

#[test]
fn stop_with_nothing_logged_reports_it() {
    let mut t = named("idle");
    t.start_task(0).unwrap();
    assert!(matches!(t.stop_task(9, 1), StopOutcome::NothingRecorded));
    assert_eq!(t.status_text(), "No activity data recorded.");
    assert_eq!(t.phase, Phase::Idle);
}

#[test]
fn stop_without_session_changes_nothing() {
    let mut t = named("idle");
    assert!(matches!(t.stop_task(100, 1), StopOutcome::NotActive));
    assert_eq!(t.phase, Phase::Idle);
}

#[test]
fn stale_sampler_is_dropped() {
    let mut t = named("a");
    let first = t.start_task(0).unwrap();
    assert!(t.add_sample(first, sample(1, 1)));
    assert!(matches!(t.stop_task(6, 2), StopOutcome::Write(_)));
    let second = t.start_task(7).unwrap();
    assert_ne!(first, second);
    assert!(!t.accepts_samples(first));
    assert!(!t.add_sample(first, sample(3, 3)));
    assert!(t.log.is_empty());
    assert!(t.add_sample(second, sample(4, 4)));
    assert_eq!(t.log.len(), 1);
}

#[test]
fn new_session_starts_with_empty_log() {
    let mut t = named("a");
    let first = t.start_task(0).unwrap();
    t.add_sample(first, sample(1, 1));
    t.add_sample(first, sample(1, 2));
    assert_eq!(t.log.len(), 2);
    t.stop_task(5, 9);
    t.start_task(6).unwrap();
    assert!(t.log.is_empty());
}

#[test]
fn save_results_become_status_text() {
    let mut t = named("a");
    t.finish_save(SaveResult::Saved("/home/u/Downloads/a_1.csv".to_string()));
    assert_eq!(t.status_text(), "Activity data saved to /home/u/Downloads/a_1.csv");
    t.finish_save(SaveResult::DirectoryUnresolved);
    assert_eq!(t.status_text(), "Could not find Downloads directory.");
    t.finish_save(SaveResult::FileCreateFailed);
    assert_eq!(t.status_text(), "Failed to create output file.");
    let mut m = ActivityTracker::new(true);
    m.finish_save(SaveResult::Saved("/Users/u/Downloads/b_2.csv".to_string()));
    assert_eq!(
        m.status_text(),
        "Activity data saved to /Users/u/Downloads/b_2.csv\nNote: On macOS, you may need to look in ~/Downloads"
    );
}

#[test]
fn macos_starts_with_permission_note() {
    let m = ActivityTracker::new(true);
    assert!(m.status_text().starts_with("Note: On macOS, you may need to grant permission"));
    let o = ActivityTracker::new(false);
    assert_eq!(o.status_text(), "");
}

#[test]
fn file_name_replaces_spaces() {
    assert_eq!(file_name_for("my task name", 1700000000), "my_task_name_1700000000.csv");
    assert_eq!(file_name_for("plain", 0), "plain_0.csv");
    assert_eq!(file_name_for(" é ", 12), "_é__12.csv");
}
