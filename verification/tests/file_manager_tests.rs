use mqtt_recorder_rs::clock::Moment;
use mqtt_recorder_rs::file_manager::{
    all_topics_file_path_on, current_file_path_on, get_all_topics_file_path, get_current_file_path,
    get_intelligent_file_path, intelligent_file_path_on, topic_to_path, NewStream, StreamAction, TopicFileManager,
    MAX_MESSAGES_PER_FILE,
};
use mqtt_recorder_rs::message::encode_payload;

const SECOND: u128 = 1_000_000_000;

fn at(seconds: u128) -> Moment {
    Moment { nanos: seconds * SECOND }
}

fn manager(timeout_secs: u64, all_topics: bool) -> TopicFileManager {
    TopicFileManager::new("rec".to_string(), timeout_secs, false, 60, all_topics)
}

/// Handles one message as a recorder does, and returns the path of the file
/// that was created for it, if one was.
fn write(manager: &mut TopicFileManager, topic: &str, now: Moment, day: &str, stamp: &str) -> Option<String> {
    let created = match manager.get_or_create_file_at(topic, now, day, stamp) {
        StreamAction::Append => None,
        StreamAction::Create { stream, report } => {
            assert!(report.is_none());
            let path = stream.path.clone();
            manager.register_file(topic, stream);
            Some(path)
        }
    };
    match manager.get_or_create_all_topics_file_at(now, day, stamp) {
        Some(StreamAction::Create { stream, .. }) => manager.register_all_topics_file(stream),
        Some(StreamAction::Append) | None => {}
    }
    let reports = manager.write_message_at(topic, "{}", now);
    assert!(reports.is_empty());
    created
}

fn record(payload: &str) -> String {
    format!(
        "{{\"time\":1,\"qos\":0,\"retain\":false,\"topic\":\"t\",\"msg_b64\":\"{}\"}}",
        encode_payload(payload.as_bytes())
    )
}

#[test]
fn topic_names_in_file_names() {
    assert_eq!(topic_to_path("home/kitchen/temp"), "home-kitchen-temp");
    assert_eq!(topic_to_path("a/+/b/#"), "a-plus-b-hash");
    assert_eq!(topic_to_path("#"), "hash");
    assert_eq!(topic_to_path("+"), "plus");
    assert_eq!(topic_to_path(""), "");
    assert_eq!(topic_to_path("plain"), "plain");
    assert_eq!(topic_to_path("a-b"), "a-b");
    assert_eq!(topic_to_path("température/été"), "température-été");
}

#[test]
fn path_of_a_topic_file() {
    assert_eq!(
        intelligent_file_path_on("rec", "home/kitchen", "2024-01-15", "20240115-103000", 0),
        "rec/home/kitchen/2024-01-15/mqtt-recorder-home-kitchen-20240115-103000.json"
    );
    assert_eq!(
        intelligent_file_path_on("rec", "home/kitchen", "2024-01-16", "20240115-103000", 1),
        "rec/home/kitchen/2024-01-16/mqtt-recorder-home-kitchen-20240115-103000-1.json"
    );
    assert_eq!(
        intelligent_file_path_on("/var/rec", "a/+", "2024-01-15", "20240115-103000", 4294967295),
        "/var/rec/a/+/2024-01-15/mqtt-recorder-a-plus-20240115-103000-4294967295.json"
    );
}

#[test]
fn path_of_the_file_of_all_topics() {
    assert_eq!(
        all_topics_file_path_on("rec", "2024-01-15", "20240115-103000", 0),
        "rec/#/2024-01-15/mqtt-recorder-#-20240115-103000.json"
    );
    assert_eq!(
        all_topics_file_path_on("rec", "2024-01-15", "20240115-103000", 10),
        "rec/#/2024-01-15/mqtt-recorder-#-20240115-103000-10.json"
    );
}

#[test]
fn path_of_a_plain_recording() {
    assert_eq!(
        current_file_path_on("rec", "2024-01-15", "2024-01-15-1030"),
        "rec/2024-01-15/mqtt-recorder-2024-01-15-1030.json"
    );
}

fn is_digits(text: &str) -> bool {
    !text.is_empty() && text.chars().all(|c| c.is_ascii_digit())
}

#[test]
fn paths_for_now_follow_the_grammar() {
    let path = get_current_file_path("rec");
    let parts: Vec<&str> = path.split('/').collect();
    assert_eq!(parts.len(), 3);
    assert_eq!(parts[0], "rec");
    assert_eq!(parts[1].len(), 10);
    assert_eq!(parts[2], format!("mqtt-recorder-{}-{}", parts[1], &parts[2][25..]));
    assert!(parts[2].ends_with(".json"));
    assert!(is_digits(&parts[2][25..29]));

    let path = get_intelligent_file_path("rec", "a/b", "20240115-103000", 3);
    let parts: Vec<&str> = path.split('/').collect();
    assert_eq!(parts.len(), 5);
    assert_eq!(&parts[..3], &["rec", "a", "b"]);
    let day: Vec<&str> = parts[3].split('-').collect();
    assert_eq!(day.len(), 3);
    assert!(day[0].len() == 4 && day[1].len() == 2 && day[2].len() == 2);
    assert!(day.iter().all(|d| is_digits(d)));
    assert_eq!(parts[4], "mqtt-recorder-a-b-20240115-103000-3.json");

    let path = get_all_topics_file_path("rec", "20240115-103000", 0);
    let parts: Vec<&str> = path.split('/').collect();
    assert_eq!(parts.len(), 4);
    assert_eq!(parts[1], "#");
    assert_eq!(parts[2].len(), 10);
    assert_eq!(parts[3], "mqtt-recorder-#-20240115-103000.json");
}

#[test]
fn first_message_creates_the_file() {
    let mut m = manager(30, false);
    assert!(m.stream("t").is_none());
    let action = m.get_or_create_file_at("t", at(5), "2024-01-15", "20240115-103000");
    let stream = match action {
        StreamAction::Create { stream, report } => {
            assert!(report.is_none());
            stream
        }
        StreamAction::Append => panic!("there is no file to append to"),
    };
    assert_eq!(stream.path, "rec/t/2024-01-15/mqtt-recorder-t-20240115-103000.json");
    assert_eq!(stream.base_timestamp, "20240115-103000");
    assert_eq!(stream.file_number, 0);
    assert_eq!(stream.opened_at, at(5));
    assert!(m.stream("t").is_none());
    m.register_file("t", stream);
    let open = m.stream("t").unwrap();
    assert_eq!(open.message_count, 0);
    assert_eq!(open.last_access, at(5));
    assert_eq!(open.file_number, 0);
    assert_eq!(open.base_timestamp, "20240115-103000");
}

#[test]
fn writes_without_rotation_count_up_in_one_file() {
    let mut m = manager(30, false);
    let mut created = Vec::new();
    for n in 1..=500u32 {
        if let Some(path) = write(&mut m, "a/b", at(u128::from(n)), "2024-01-15", "20240115-103000") {
            created.push(path);
        }
        assert_eq!(m.stream("a/b").unwrap().message_count, n);
        assert_eq!(m.stream("a/b").unwrap().last_access, at(u128::from(n)));
    }
    assert_eq!(created, vec!["rec/a/b/2024-01-15/mqtt-recorder-a-b-20240115-103000.json".to_string()]);
}

#[test]
fn full_file_rotates_to_the_next_number() {
    let mut m = manager(30, false);
    let mut created = Vec::new();
    for _ in 0..MAX_MESSAGES_PER_FILE {
        if let Some(path) = write(&mut m, "t", at(1), "2024-01-15", "20240115-103000") {
            created.push(path);
        }
    }
    assert_eq!(created.len(), 1);
    assert_eq!(m.stream("t").unwrap().message_count, 100_000);
    assert_eq!(m.stream("t").unwrap().file_number, 0);
    if let Some(path) = write(&mut m, "t", at(2), "2024-01-16", "20240116-000001") {
        created.push(path);
    }
    assert_eq!(
        created,
        vec![
            "rec/t/2024-01-15/mqtt-recorder-t-20240115-103000.json".to_string(),
            "rec/t/2024-01-16/mqtt-recorder-t-20240115-103000-1.json".to_string(),
        ]
    );
    let open = m.stream("t").unwrap();
    assert_eq!(open.base_timestamp, "20240115-103000");
    assert_eq!(open.file_number, 1);
    assert_eq!(open.message_count, 1);
}

#[test]
fn idle_stream_begins_anew() {
    let mut m = manager(30, false);
    let first = write(&mut m, "t", at(100), "2024-01-15", "20240115-103000");
    assert_eq!(first.unwrap(), "rec/t/2024-01-15/mqtt-recorder-t-20240115-103000.json");
    assert!(write(&mut m, "t", at(130), "2024-01-15", "20240115-103030").is_none());
    assert!(write(&mut m, "t", at(160), "2024-01-15", "20240115-103100").is_none());
    assert_eq!(m.stream("t").unwrap().message_count, 3);
    let second = write(&mut m, "t", Moment { nanos: 190 * SECOND + 1 }, "2024-01-15", "20240115-103132");
    assert_eq!(second.unwrap(), "rec/t/2024-01-15/mqtt-recorder-t-20240115-103132.json");
    let open = m.stream("t").unwrap();
    assert_eq!(open.base_timestamp, "20240115-103132");
    assert_ne!(open.base_timestamp, "20240115-103000");
    assert_eq!(open.file_number, 0);
    assert_eq!(open.message_count, 1);
}

#[test]
fn idleness_is_looked_at_before_fullness() {
    let mut m = manager(10, false);
    m.register_file(
        "t",
        NewStream { path: String::new(), base_timestamp: "20240101-000000".to_string(), file_number: 4, opened_at: at(0) },
    );
    for _ in 0..MAX_MESSAGES_PER_FILE {
        m.write_message_at("t", "{}", at(0));
    }
    match m.get_or_create_file_at("t", at(11), "2024-01-01", "20240101-000011") {
        StreamAction::Create { stream, .. } => {
            assert_eq!(stream.base_timestamp, "20240101-000011");
            assert_eq!(stream.file_number, 0);
        }
        StreamAction::Append => panic!("the idle stream was used again"),
    }
}

#[test]
fn full_file_with_the_last_number_keeps_it() {
    let mut m = manager(10, false);
    m.register_file(
        "t",
        NewStream {
            path: String::new(),
            base_timestamp: "20240101-000000".to_string(),
            file_number: u32::MAX,
            opened_at: at(0),
        },
    );
    for _ in 0..MAX_MESSAGES_PER_FILE {
        m.write_message_at("t", "{}", at(0));
    }
    match m.get_or_create_file_at("t", at(1), "2024-01-01", "20240101-000001") {
        StreamAction::Create { stream, .. } => assert_eq!(stream.file_number, u32::MAX),
        StreamAction::Append => panic!("the full file was used again"),
    }
}

#[test]
fn failed_creation_leaves_no_stream() {
    let mut m = manager(30, false);
    write(&mut m, "t", at(0), "2024-01-15", "20240115-103000");
    match m.get_or_create_file_at("t", at(100), "2024-01-15", "20240115-103140") {
        StreamAction::Create { .. } => {}
        StreamAction::Append => panic!("the idle stream was used again"),
    }
    assert!(m.stream("t").is_none());
    match m.get_or_create_file_at("t", at(101), "2024-01-15", "20240115-103141") {
        StreamAction::Create { stream, .. } => {
            assert_eq!(stream.base_timestamp, "20240115-103141");
            assert_eq!(stream.file_number, 0);
        }
        StreamAction::Append => panic!("there is no file to append to"),
    }
}

#[test]
fn topics_rotate_independently() {
    let mut m = manager(30, false);
    write(&mut m, "a", at(0), "2024-01-15", "20240115-103000");
    write(&mut m, "b", at(20), "2024-01-15", "20240115-103020");
    let a = write(&mut m, "a", at(40), "2024-01-15", "20240115-103040");
    let b = write(&mut m, "b", at(40), "2024-01-15", "20240115-103040");
    assert_eq!(a.unwrap(), "rec/a/2024-01-15/mqtt-recorder-a-20240115-103040.json");
    assert!(b.is_none());
    assert_eq!(m.stream("a").unwrap().message_count, 1);
    assert_eq!(m.stream("b").unwrap().message_count, 2);
}

#[test]
fn file_of_all_topics_follows_every_message() {
    let mut m = manager(30, true);
    assert!(m.all_topics_stream().is_none());
    match m.get_or_create_all_topics_file_at(at(0), "2024-01-15", "20240115-103000") {
        Some(StreamAction::Create { stream, report }) => {
            assert!(report.is_none());
            assert_eq!(stream.path, "rec/#/2024-01-15/mqtt-recorder-#-20240115-103000.json");
            m.register_all_topics_file(stream);
        }
        _ => panic!("the file of all topics was not asked for"),
    }
    m.write_message_at("a", "{}", at(0));
    write(&mut m, "b", at(1), "2024-01-15", "20240115-103001");
    write(&mut m, "c", at(2), "2024-01-15", "20240115-103002");
    let all = m.all_topics_stream().unwrap();
    assert_eq!(all.message_count, 3);
    assert_eq!(all.last_access, at(2));
    assert_eq!(all.base_timestamp, "20240115-103000");
    assert!(matches!(
        m.get_or_create_all_topics_file_at(at(3), "2024-01-15", "20240115-103003"),
        Some(StreamAction::Append)
    ));
    match m.get_or_create_all_topics_file_at(at(40), "2024-01-15", "20240115-103040") {
        Some(StreamAction::Create { stream, .. }) => {
            assert_eq!(stream.base_timestamp, "20240115-103040");
            assert_eq!(stream.file_number, 0);
        }
        _ => panic!("the idle file of all topics was used again"),
    }
    assert!(m.all_topics_stream().is_none());
}

#[test]
fn file_of_all_topics_rotates_when_full() {
    let mut m = manager(30, true);
    m.register_all_topics_file(NewStream {
        path: String::new(),
        base_timestamp: "20240115-103000".to_string(),
        file_number: 2,
        opened_at: at(0),
    });
    for _ in 0..MAX_MESSAGES_PER_FILE {
        m.write_message_at("t", "{}", at(0));
    }
    match m.get_or_create_all_topics_file_at(at(1), "2024-01-15", "20240115-103001") {
        Some(StreamAction::Create { stream, .. }) => {
            assert_eq!(stream.path, "rec/#/2024-01-15/mqtt-recorder-#-20240115-103000-3.json");
            assert_eq!(stream.file_number, 3);
        }
        _ => panic!("the full file of all topics was used again"),
    }
}

#[test]
fn file_of_all_topics_can_be_left_out() {
    let mut m = manager(30, false);
    assert!(m.get_or_create_all_topics_file_at(at(0), "2024-01-15", "20240115-103000").is_none());
    assert!(m.get_or_create_all_topics_file().is_none());
    write(&mut m, "a", at(0), "2024-01-15", "20240115-103000");
    assert!(m.all_topics_stream().is_none());
}

#[test]
fn sweep_closes_idle_streams() {
    let mut m = manager(30, true);
    write(&mut m, "old", at(0), "2024-01-15", "20240115-103000");
    write(&mut m, "edge", at(10), "2024-01-15", "20240115-103010");
    write(&mut m, "older", at(5), "2024-01-15", "20240115-103005");
    write(&mut m, "new", at(20), "2024-01-15", "20240115-103020");
    let found = m.cleanup_timeout_files_at(at(40));
    let mut closed = found.closed.clone();
    closed.sort();
    assert_eq!(closed, vec!["old".to_string(), "older".to_string()]);
    assert!(!found.all_topics_closed);
    assert!(found.reports.is_empty());
    assert!(m.stream("old").is_none());
    assert!(m.stream("older").is_none());
    assert_eq!(m.stream("edge").unwrap().message_count, 1);
    assert_eq!(m.stream("new").unwrap().message_count, 1);
    assert!(m.all_topics_stream().is_some());

    let found = m.cleanup_timeout_files_at(Moment { nanos: 50 * SECOND + 1 });
    let mut closed = found.closed.clone();
    closed.sort();
    assert_eq!(closed, vec!["edge".to_string(), "new".to_string()]);
    assert!(found.all_topics_closed);
    assert!(m.all_topics_stream().is_none());

    let found = m.cleanup_timeout_files_at(at(1000));
    assert!(found.closed.is_empty());
    assert!(!found.all_topics_closed);
}

#[test]
fn swept_stream_begins_anew() {
    let mut m = manager(30, false);
    write(&mut m, "t", at(0), "2024-01-15", "20240115-103000");
    m.cleanup_timeout_files_at(at(31));
    let path = write(&mut m, "t", at(32), "2024-01-15", "20240115-103032");
    assert_eq!(path.unwrap(), "rec/t/2024-01-15/mqtt-recorder-t-20240115-103032.json");
}

#[test]
fn rotation_closes_the_window_of_statistics() {
    let mut m = TopicFileManager::new("rec".to_string(), 30, true, 3600, false);
    match m.get_or_create_file_at("t", at(0), "2024-01-15", "20240115-103000") {
        StreamAction::Create { stream, report } => {
            assert!(report.is_none());
            m.register_file("t", stream);
        }
        StreamAction::Append => panic!("there is no file to append to"),
    }
    assert!(m.write_message_at("t", &record("{\"a\": 1}"), at(0)).is_empty());
    assert!(matches!(m.get_or_create_file_at("t", at(7), "2024-01-15", "20240115-103007"), StreamAction::Append));
    assert!(m.write_message_at("t", &record("{\"a\": 2}"), at(7)).is_empty());
    match m.get_or_create_file_at("t", at(45), "2024-01-15", "20240115-103045") {
        StreamAction::Create { report, .. } => {
            let report = report.unwrap();
            assert_eq!(report.window_secs, 45);
            assert_eq!(report.entries.len(), 1);
            assert_eq!(report.entries[0].path, "a");
        }
        StreamAction::Append => panic!("the idle stream was used again"),
    }
}

#[test]
fn sweep_closes_the_windows_of_the_closed_topics() {
    let mut m = TopicFileManager::new("rec".to_string(), 30, true, 3600, false);
    for (topic, time) in [("a", 0u128), ("b", 10), ("c", 0)] {
        match m.get_or_create_file_at(topic, at(time), "2024-01-15", "20240115-103000") {
            StreamAction::Create { stream, .. } => m.register_file(topic, stream),
            StreamAction::Append => panic!("there is no file to append to"),
        }
    }
    m.write_message_at("a", &record("{\"x\": true}"), at(0));
    m.write_message_at("b", &record("{\"x\": true}"), at(10));
    m.write_message_at("c", &record("no json"), at(0));
    let found = m.cleanup_timeout_files_at(at(35));
    let mut closed = found.closed.clone();
    closed.sort();
    assert_eq!(closed, vec!["a".to_string(), "c".to_string()]);
    assert_eq!(found.reports.len(), 1);
    assert_eq!(found.reports[0].topic, "a");
    assert_eq!(found.reports[0].report.window_secs, 35);
    assert!(m.force_stats_calculation_at("a", at(36)).is_none());
    assert!(m.force_stats_calculation_at("b", at(36)).is_some());
}

#[test]
fn time_is_read_from_the_clock() {
    let mut m = manager(30, true);
    let before = m.now();
    let stream = match m.get_or_create_file("a/b") {
        StreamAction::Create { stream, .. } => stream,
        StreamAction::Append => panic!("there is no file to append to"),
    };
    assert!(stream.opened_at.nanos >= before.nanos);
    assert_eq!(stream.base_timestamp.len(), 15);
    assert_eq!(&stream.base_timestamp[8..9], "-");
    assert!(stream.path.starts_with("rec/a/b/"));
    assert!(stream.path.ends_with(&format!("/mqtt-recorder-a-b-{}.json", stream.base_timestamp)));
    m.register_file("a/b", stream);
    match m.get_or_create_all_topics_file() {
        Some(StreamAction::Create { stream, .. }) => m.register_all_topics_file(stream),
        _ => panic!("the file of all topics was not asked for"),
    }
    assert!(m.write_message("a/b", "{}").is_empty());
    assert_eq!(m.stream("a/b").unwrap().message_count, 1);
    assert_eq!(m.all_topics_stream().unwrap().message_count, 1);
    assert!(m.stream("a/b").unwrap().last_access.nanos <= m.now().nanos);
    assert!(matches!(m.get_or_create_file("a/b"), StreamAction::Append));
    let found = m.cleanup_timeout_files();
    assert!(found.closed.is_empty());
    assert!(m.force_stats_calculation("a/b").is_none());
}
