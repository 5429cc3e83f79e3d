use mqtt_recorder_rs::file_manager::{all_topics_file_path_on, current_file_path_on, intelligent_file_path_on};
use mqtt_recorder_rs::message::encode_payload;
use mqtt_recorder_rs::replay::{get_files_in_range, Replay, ReplayPhase, ReplayStep};

fn paths(names: &[&str]) -> Vec<String> {
    names.iter().map(|n| n.to_string()).collect()
}

fn record(time: &str, qos: u32, topic: &str, payload: &[u8]) -> String {
    format!(
        "{{\"time\":{},\"qos\":{},\"retain\":false,\"topic\":\"{}\",\"msg_b64\":\"{}\"}}",
        time,
        qos,
        topic,
        encode_payload(payload)
    )
}

#[test]
fn files_without_bounds_are_all_json_files_in_order() {
    let files = paths(&["rec/b.json", "rec/a.json", "rec/notes.txt", "rec/c.json", "rec/.json", "rec/a.json"]);
    assert_eq!(get_files_in_range(files, None, None), paths(&["rec/a.json", "rec/a.json", "rec/b.json", "rec/c.json"]));
}

#[test]
fn files_are_ordered_by_their_characters() {
    let files = paths(&["d/b.json", "d/B.json", "d/a-b.json", "d/a/b.json", "d/ab.json", "d/a.json"]);
    assert_eq!(
        get_files_in_range(files, None, None),
        paths(&["d/B.json", "d/a-b.json", "d/a.json", "d/a/b.json", "d/ab.json", "d/b.json"])
    );
}

#[test]
fn files_in_range_of_both_grammars() {
    let files = paths(&[
        "rec/2024-01-17/mqtt-recorder-2024-01-17-0900.json",
        "rec/a/b/2024-01-16/mqtt-recorder-a-b-20240116-120000-2.json",
        "rec/2024-01-15/mqtt-recorder-2024-01-15-1030.json",
        "rec/a/b/2024-01-16/mqtt-recorder-a-b-20240116-120000.json",
        "rec/2024-01-16/mqtt-recorder-2024-01-16-0000.json",
        "rec/a/b/2024-01-14/mqtt-recorder-a-b-20240114-235959.json",
        "rec/a/b/2024-01-18/mqtt-recorder-a-b-20240118-000000-1.json",
        "rec/other.json",
        "rec/mqtt-recorder-garbage.json",
    ]);
    let chosen = get_files_in_range(files, Some("2024-01-15 10:30".to_string()), Some("2024-01-17 09:00".to_string()));
    assert_eq!(
        chosen,
        paths(&[
            "rec/2024-01-15/mqtt-recorder-2024-01-15-1030.json",
            "rec/2024-01-16/mqtt-recorder-2024-01-16-0000.json",
            "rec/2024-01-17/mqtt-recorder-2024-01-17-0900.json",
            "rec/a/b/2024-01-16/mqtt-recorder-a-b-20240116-120000-2.json",
            "rec/a/b/2024-01-16/mqtt-recorder-a-b-20240116-120000.json",
        ])
    );
}

#[test]
fn files_in_range_bounds_are_inclusive() {
    let files = paths(&[
        "mqtt-recorder-t-20240115-102959.json",
        "mqtt-recorder-t-20240115-103000.json",
        "mqtt-recorder-t-20240115-103001.json",
        "mqtt-recorder-t-20240115-113000.json",
        "mqtt-recorder-t-20240115-113001.json",
    ]);
    let chosen = get_files_in_range(files, Some("2024-01-15 10:30".to_string()), Some("2024-01-15 11:30".to_string()));
    assert_eq!(
        chosen,
        paths(&[
            "mqtt-recorder-t-20240115-103000.json",
            "mqtt-recorder-t-20240115-103001.json",
            "mqtt-recorder-t-20240115-113000.json",
        ])
    );
}

#[test]
fn files_in_range_with_one_bound() {
    let files = paths(&[
        "mqtt-recorder-2024-01-14-0000.json",
        "mqtt-recorder-2024-01-15-0000.json",
        "mqtt-recorder-2024-01-16-0000.json",
    ]);
    assert_eq!(
        get_files_in_range(files.clone(), Some("2024-01-15 00:00".to_string()), None),
        paths(&["mqtt-recorder-2024-01-15-0000.json", "mqtt-recorder-2024-01-16-0000.json"])
    );
    assert_eq!(
        get_files_in_range(files, None, Some("2024-01-15 00:00".to_string())),
        paths(&["mqtt-recorder-2024-01-14-0000.json", "mqtt-recorder-2024-01-15-0000.json"])
    );
}

#[test]
fn files_in_range_with_an_unreadable_bound() {
    let files = paths(&["mqtt-recorder-2024-01-14-0000.json", "notes.json", "mqtt-recorder-x-20240101-000000-3.json"]);
    assert_eq!(
        get_files_in_range(files, Some("yesterday".to_string()), None),
        paths(&["mqtt-recorder-2024-01-14-0000.json", "mqtt-recorder-x-20240101-000000-3.json"])
    );
}

#[test]
fn files_in_range_of_a_topic_with_dashes_and_digits() {
    let files = paths(&[
        "mqtt-recorder-home-room-1-20240115-103000-12.json",
        "mqtt-recorder-7-20240115-103000.json",
        "mqtt-recorder-20240115-103000.json",
        "mqtt-recorder-t-202401-103000.json",
        "mqtt-recorder-t-20240115-103000-x.json",
        "mqtt-recorder-t-20240230-103000.json",
    ]);
    let chosen = get_files_in_range(files, Some("2024-01-01 00:00".to_string()), Some("2024-12-31 23:59".to_string()));
    assert_eq!(
        chosen,
        paths(&["mqtt-recorder-7-20240115-103000.json", "mqtt-recorder-home-room-1-20240115-103000-12.json"])
    );
}

#[test]
fn files_in_empty_range() {
    let files = paths(&["mqtt-recorder-2024-01-14-0000.json"]);
    let chosen = get_files_in_range(files, Some("2025-01-01 00:00".to_string()), Some("2025-01-02 00:00".to_string()));
    assert!(chosen.is_empty());
}

#[test]
fn empty_directory_replay_ends_without_a_message() {
    let mut replay = Replay::new(false);
    assert_eq!(replay.current_phase(), ReplayPhase::Discovering);
    let files = get_files_in_range(Vec::new(), None, None);
    replay.discovered(files.len());
    assert_eq!(replay.current_phase(), ReplayPhase::Finished);
    assert!(matches!(replay.line(&record("1", 0, "t", b"x")), ReplayStep::Skip));
    replay.pass_ended();
    assert_eq!(replay.current_phase(), ReplayPhase::Finished);
}

#[test]
fn empty_directory_ends_a_repeating_replay_too() {
    let mut replay = Replay::new(true);
    replay.discovered(0);
    assert_eq!(replay.current_phase(), ReplayPhase::Finished);
}

#[test]
fn single_pass_ends_after_its_files() {
    let mut replay = Replay::new(false);
    replay.discovered(2);
    assert_eq!(replay.current_phase(), ReplayPhase::Replaying);
    replay.pass_ended();
    assert_eq!(replay.current_phase(), ReplayPhase::Finished);
}

#[test]
fn repeating_replay_looks_for_files_again() {
    let mut replay = Replay::new(true);
    replay.discovered(1);
    match replay.line(&record("5", 0, "t", b"x")) {
        ReplayStep::Emit { previous, .. } => assert!(previous.is_none()),
        ReplayStep::Skip => panic!("the record was passed over"),
    }
    replay.pass_ended();
    assert_eq!(replay.current_phase(), ReplayPhase::Discovering);
    replay.discovered(1);
    match replay.line(&record("6", 0, "t", b"x")) {
        ReplayStep::Emit { previous, .. } => assert!(previous.is_none()),
        ReplayStep::Skip => panic!("the record was passed over"),
    }
}

#[test]
fn replay_timing_of_two_records() {
    let mut replay = Replay::new(false);
    replay.discovered(1);
    let first = replay.line(&record("10.0", 1, "a/b", b"one"));
    let second = replay.line(&record("12.0", 2, "a/b", b"two"));
    match first {
        ReplayStep::Emit { previous, time, publish } => {
            assert!(previous.is_none());
            assert_eq!(f64::from_bits(time.bits), 10.0);
            assert_eq!(publish.topic, "a/b");
            assert_eq!(publish.qos, 1);
            assert!(!publish.retain);
            assert_eq!(publish.payload, b"one".to_vec());
        }
        ReplayStep::Skip => panic!("the first record was passed over"),
    }
    match second {
        ReplayStep::Emit { previous, time, publish } => {
            let speed = 2.0f64;
            let before = f64::from_bits(previous.unwrap().bits);
            let delay = ((f64::from_bits(time.bits) - before) * 1000.0 / speed) as u64;
            assert_eq!(delay, 1000);
            assert_eq!(publish.qos, 2);
            assert_eq!(publish.payload, b"two".to_vec());
        }
        ReplayStep::Skip => panic!("the second record was passed over"),
    }
}

#[test]
fn replay_passes_over_bad_lines() {
    let mut replay = Replay::new(false);
    replay.discovered(1);
    assert!(matches!(replay.line(&record("1", 0, "t", b"x")), ReplayStep::Emit { .. }));
    assert!(matches!(replay.line("{ not json"), ReplayStep::Skip));
    assert!(matches!(replay.line("{\"time\":2}"), ReplayStep::Skip));
    let undecodable = "{\"time\":3,\"qos\":0,\"retain\":false,\"topic\":\"t\",\"msg_b64\":\"%%%\"}";
    assert!(matches!(replay.line(undecodable), ReplayStep::Skip));
    match replay.line(&record("4", 0, "t", b"y")) {
        ReplayStep::Emit { previous, .. } => assert_eq!(previous.unwrap().unsigned, Some(1)),
        ReplayStep::Skip => panic!("the record was passed over"),
    }
}

#[test]
fn replay_reads_a_level_above_two_as_zero() {
    let mut replay = Replay::new(false);
    replay.discovered(1);
    match replay.line(&record("1", 7, "t", b"x")) {
        ReplayStep::Emit { publish, .. } => assert_eq!(publish.qos, 0),
        ReplayStep::Skip => panic!("the record was passed over"),
    }
    assert!(matches!(replay.line(&record("1", 256, "t", b"x")), ReplayStep::Skip));
}

#[test]
fn written_names_are_read_back() {
    let written = vec![
        intelligent_file_path_on("rec", "home/room-1/+", "2024-01-15", "20240115-103000", 0),
        intelligent_file_path_on("rec", "home/room-1/+", "2024-01-16", "20240115-103000", 7),
        intelligent_file_path_on("rec", "t", "2024-01-15", "20240115-103001", 0),
        intelligent_file_path_on("rec", "#", "2024-01-15", "20240115-103002", 100000),
        all_topics_file_path_on("rec", "2024-01-15", "20240115-103003", 0),
        all_topics_file_path_on("rec", "2024-01-15", "20240115-103004", 2),
        current_file_path_on("rec", "2024-01-15", "2024-01-15-1030"),
    ];
    let mut expected = written.clone();
    expected.sort();
    let start = Some("2024-01-15 10:30".to_string());
    let end = Some("2024-01-15 10:31".to_string());
    assert_eq!(get_files_in_range(written.clone(), start, end), expected);
    let later = Some("2024-01-15 10:31".to_string());
    assert!(get_files_in_range(written.clone(), later, None).is_empty());
    let earlier = Some("2024-01-15 10:29".to_string());
    assert!(get_files_in_range(written, None, earlier).is_empty());
}
