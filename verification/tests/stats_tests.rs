use mqtt_recorder_rs::clock::Moment;
use mqtt_recorder_rs::json::{JsonNumber, JsonValue};
use mqtt_recorder_rs::message::encode_payload;
use mqtt_recorder_rs::stats::{
    count_as_text, payload_json, stats_line, JsonValueType, Statistic, StatsManager, StatsReport, TopicStats,
};

const SECOND: u128 = 1_000_000_000;

fn at(seconds: u128) -> Moment {
    Moment { nanos: seconds * SECOND }
}

fn record_of_bytes(payload: &[u8]) -> String {
    format!(
        "{{\"time\":1700000000.25,\"qos\":0,\"retain\":false,\"topic\":\"t\",\"msg_b64\":\"{}\"}}",
        encode_payload(payload)
    )
}

fn record(payload: &str) -> String {
    record_of_bytes(payload.as_bytes())
}

fn number(value: f64) -> JsonValue {
    JsonValue::Number(JsonNumber { bits: value.to_bits(), unsigned: None })
}

fn variance(bits: &[u64]) -> f64 {
    let values: Vec<f64> = bits.iter().map(|b| f64::from_bits(*b)).collect();
    let mean = values.iter().sum::<f64>() / values.len() as f64;
    values.iter().map(|x| (x - mean).powi(2)).sum::<f64>() / values.len() as f64
}

fn paths(report: &StatsReport) -> Vec<String> {
    report.entries.iter().map(|e| e.path.clone()).collect()
}

fn distinct(report: &StatsReport, path: &str) -> usize {
    match &report.entries.iter().find(|e| e.path == path).unwrap().stat {
        Statistic::Distinct(n) => *n,
        Statistic::Variance(_) => panic!("the path holds numbers"),
    }
}

fn samples(report: &StatsReport, path: &str) -> Vec<f64> {
    match &report.entries.iter().find(|e| e.path == path).unwrap().stat {
        Statistic::Variance(bits) => bits.iter().map(|b| f64::from_bits(*b)).collect(),
        Statistic::Distinct(_) => panic!("the path holds no numbers"),
    }
}

#[test]
fn variance_of_three_numbers() {
    let mut stats = TopicStats::new(60, at(0));
    stats.add_message(&record("{\"a\": 1}"));
    stats.add_message(&record("{\"a\": 3}"));
    stats.add_message(&record("{\"a\": 5}"));
    let report = stats.calculate_and_write_stats(at(90)).unwrap();
    assert_eq!(report.window_secs, 90);
    assert_eq!(paths(&report), vec!["a".to_string()]);
    match &report.entries[0].stat {
        Statistic::Variance(bits) => {
            assert_eq!(bits, &vec![1.0f64.to_bits(), 3.0f64.to_bits(), 5.0f64.to_bits()]);
            assert!((variance(bits) - 8.0 / 3.0).abs() < 1e-12);
            assert_eq!(format!("{:.3}", variance(bits)), "2.667");
        }
        Statistic::Distinct(_) => panic!("the path holds numbers"),
    }
}

#[test]
fn distinct_strings() {
    let mut stats = TopicStats::new(60, at(0));
    stats.add_message(&record("{\"b\": \"x\"}"));
    stats.add_message(&record("{\"b\": \"y\"}"));
    stats.add_message(&record("{\"b\": \"x\"}"));
    let report = stats.calculate_and_write_stats(at(1)).unwrap();
    assert_eq!(paths(&report), vec!["b".to_string()]);
    assert_eq!(distinct(&report, "b"), 2);
}

#[test]
fn distinct_booleans() {
    let mut stats = TopicStats::new(60, at(0));
    for payload in ["{\"on\": true, \"off\": false}", "{\"on\": true, \"off\": true}", "{\"on\": true}"] {
        stats.add_message(&record(payload));
    }
    let report = stats.calculate_and_write_stats(at(1)).unwrap();
    assert_eq!(paths(&report), vec!["off".to_string(), "on".to_string()]);
    assert_eq!(distinct(&report, "off"), 2);
    assert_eq!(distinct(&report, "on"), 1);
}

#[test]
fn key_paths_of_nested_values() {
    let mut stats = TopicStats::new(60, at(0));
    stats.add_message(&record(
        "{\"sensor\": {\"temp\": 21.5, \"tags\": [\"a\", \"b\", {\"deep\": true}], \"none\": null}, \"id\": \"s1\", \"grid\": [[1, 2], [3]]}",
    ));
    let report = stats.calculate_and_write_stats(at(1)).unwrap();
    assert_eq!(
        paths(&report),
        vec![
            "grid[0][0]".to_string(),
            "grid[0][1]".to_string(),
            "grid[1][0]".to_string(),
            "id".to_string(),
            "sensor.tags[0]".to_string(),
            "sensor.tags[1]".to_string(),
            "sensor.tags[2].deep".to_string(),
            "sensor.temp".to_string(),
        ]
    );
    assert_eq!(samples(&report, "sensor.temp"), vec![21.5]);
    assert_eq!(samples(&report, "grid[1][0]"), vec![3.0]);
    assert_eq!(distinct(&report, "sensor.tags[2].deep"), 1);
}

#[test]
fn key_paths_of_a_long_array() {
    let mut stats = TopicStats::new(60, at(0));
    stats.add_message(&record("[0, 1, 2, 3, 4, 5, 6, 7, 8, 9, 10, 11]"));
    let report = stats.calculate_and_write_stats(at(1)).unwrap();
    assert_eq!(report.entries.len(), 12);
    assert_eq!(paths(&report)[..4], ["[0]".to_string(), "[10]".to_string(), "[11]".to_string(), "[1]".to_string()]);
    assert_eq!(samples(&report, "[10]"), vec![10.0]);
}

#[test]
fn paths_are_reported_in_the_order_of_their_characters() {
    let mut stats = TopicStats::new(60, at(0));
    stats.add_message(&record("{\"b\": 1, \"a\": 1, \"B\": 1, \"ab\": 1, \"a.b\": 1, \"é\": 1}"));
    let report = stats.calculate_and_write_stats(at(1)).unwrap();
    assert_eq!(
        paths(&report),
        vec!["B".to_string(), "a".to_string(), "a.b".to_string(), "ab".to_string(), "b".to_string(), "é".to_string()]
    );
}

#[test]
fn first_kind_seen_at_a_path_stays() {
    let mut stats = TopicStats::new(60, at(0));
    stats.add_message(&record("{\"v\": 1}"));
    stats.add_message(&record("{\"v\": \"text\"}"));
    stats.add_message(&record("{\"v\": true}"));
    stats.add_message(&record("{\"v\": null}"));
    stats.add_message(&record("{\"v\": 2.5}"));
    stats.add_message(&record("{\"v\": {\"w\": 7}}"));
    let report = stats.calculate_and_write_stats(at(1)).unwrap();
    assert_eq!(paths(&report), vec!["v".to_string(), "v.w".to_string()]);
    assert_eq!(samples(&report, "v"), vec![1.0, 2.5]);
    assert_eq!(samples(&report, "v.w"), vec![7.0]);
}

#[test]
fn paths_of_another_kind_are_left_out() {
    let mut stats = TopicStats::new(60, at(0));
    stats.add_message(&record("{\"n\": null, \"s\": \"x\"}"));
    stats.add_message(&record("{\"n\": 4}"));
    let report = stats.calculate_and_write_stats(at(1)).unwrap();
    assert_eq!(paths(&report), vec!["s".to_string()]);

    stats.add_message(&record("{\"n\": null}"));
    let report = stats.calculate_and_write_stats(at(2)).unwrap();
    assert!(report.entries.is_empty());
    assert_eq!(report.window_secs, 1);
}

#[test]
fn scalar_at_the_root_is_no_sample() {
    let mut stats = TopicStats::new(60, at(0));
    stats.add_message(&record("42"));
    stats.add_message(&record("\"text\""));
    stats.add_message(&record("{}"));
    stats.add_message(&record("[]"));
    assert!(stats.calculate_and_write_stats(at(1)).is_none());
}

#[test]
fn payloads_that_are_no_json_are_left_out() {
    let mut stats = TopicStats::new(60, at(0));
    stats.add_message(&record("plain text"));
    stats.add_message(&record_of_bytes(&[0xff, 0xfe, 0x00]));
    stats.add_message("not a record");
    stats.add_message("{\"msg_b64\": 5}");
    stats.add_message("{\"msg_b64\": \"%%%\"}");
    stats.add_message("{\"time\": 1}");
    assert!(stats.calculate_and_write_stats(at(1)).is_none());
    stats.add_message("{\"msg_b64\": \"eyJrIjogMX0=\"}");
    let report = stats.calculate_and_write_stats(at(1)).unwrap();
    assert_eq!(paths(&report), vec!["k".to_string()]);
}

#[test]
fn payload_document_of_a_record() {
    match payload_json(&record("{\"k\": [true]}")) {
        Some(JsonValue::Object(fields)) => {
            assert_eq!(fields.len(), 1);
            assert_eq!(fields[0].0, "k");
            assert!(matches!(&fields[0].1, JsonValue::Array(items) if items.len() == 1));
        }
        _ => panic!("the payload was not read"),
    }
    assert!(payload_json(&record("{ broken")).is_none());
    assert!(payload_json(&record_of_bytes(&[0xc3, 0x28])).is_none());
}

#[test]
fn fields_of_an_object_come_in_the_order_of_their_names() {
    match payload_json(&record("{\"b\": 1, \"a\": 2, \"c\": 3}")) {
        Some(JsonValue::Object(fields)) => {
            let names: Vec<&str> = fields.iter().map(|f| f.0.as_str()).collect();
            assert_eq!(names, vec!["a", "b", "c"]);
        }
        _ => panic!("the payload was not read"),
    }
}

#[test]
fn closing_an_empty_window_does_nothing() {
    let mut stats = TopicStats::new(60, at(0));
    assert!(stats.calculate_and_write_stats(at(100)).is_none());
    assert!(stats.force_calculate_stats(at(200)).is_none());
    assert!(stats.should_calculate_stats(at(61)));
    stats.add_message(&record("{\"a\": 1}"));
    let report = stats.force_calculate_stats(at(300)).unwrap();
    assert_eq!(report.window_secs, 300);
}

#[test]
fn closing_a_window_begins_the_next() {
    let mut stats = TopicStats::new(60, at(0));
    stats.add_message(&record("{\"a\": 1}"));
    stats.add_message(&record("{\"b\": 1}"));
    let first = stats.calculate_and_write_stats(at(70)).unwrap();
    assert_eq!(paths(&first), vec!["a".to_string(), "b".to_string()]);
    assert!(!stats.should_calculate_stats(at(130)));
    assert!(stats.should_calculate_stats(Moment { nanos: 130 * SECOND + 1 }));
    assert!(stats.calculate_and_write_stats(at(140)).is_none());
    stats.add_message(&record("{\"a\": \"now text\"}"));
    let second = stats.calculate_and_write_stats(at(150)).unwrap();
    assert_eq!(second.window_secs, 80);
    assert_eq!(paths(&second), vec!["a".to_string()]);
    assert_eq!(distinct(&second, "a"), 1);
}

#[test]
fn window_is_due_once_it_has_lasted_longer_than_the_interval() {
    let stats = TopicStats::new(10, at(5));
    assert!(!stats.should_calculate_stats(at(0)));
    assert!(!stats.should_calculate_stats(at(5)));
    assert!(!stats.should_calculate_stats(at(15)));
    assert!(stats.should_calculate_stats(Moment { nanos: 15 * SECOND + 1 }));
    assert!(stats.should_calculate_stats(at(16)));
    let always = TopicStats::new(0, at(5));
    assert!(!always.should_calculate_stats(at(5)));
    assert!(always.should_calculate_stats(Moment { nanos: 5 * SECOND + 1 }));
}

#[test]
fn samples_take_values_of_their_kind() {
    let mut numbers = JsonValueType::for_value(&number(0.0));
    numbers.add_value(&number(1.5));
    numbers.add_value(&JsonValue::String("x".to_string()));
    numbers.add_value(&JsonValue::Bool(true));
    numbers.add_value(&JsonValue::Null);
    numbers.add_value(&JsonValue::Array(vec![number(2.0)]));
    numbers.add_value(&number(-2.0));
    assert!(matches!(&numbers, JsonValueType::Number(v) if v == &vec![1.5f64.to_bits(), (-2.0f64).to_bits()]));

    let mut texts = JsonValueType::for_value(&JsonValue::String(String::new()));
    texts.add_value(&JsonValue::String("a".to_string()));
    texts.add_value(&number(1.0));
    texts.add_value(&JsonValue::String("b".to_string()));
    assert!(matches!(&texts, JsonValueType::String(v) if v == &vec!["a".to_string(), "b".to_string()]));

    let mut flags = JsonValueType::for_value(&JsonValue::Bool(false));
    flags.add_value(&JsonValue::Bool(true));
    flags.add_value(&JsonValue::String("true".to_string()));
    assert!(matches!(&flags, JsonValueType::Boolean(v) if v == &vec![true]));

    let mut other = JsonValueType::for_value(&JsonValue::Null);
    other.add_value(&JsonValue::Null);
    other.add_value(&number(1.0));
    assert!(matches!(other, JsonValueType::Other));
}

#[test]
fn statistic_of_samples() {
    let texts = JsonValueType::String(vec!["x".into(), "y".into(), "x".into(), "".into(), "y".into(), "X".into()]);
    assert!(matches!(texts.calculate_stat(), Some(Statistic::Distinct(4))));
    assert!(matches!(JsonValueType::String(Vec::new()).calculate_stat(), Some(Statistic::Distinct(0))));
    assert!(matches!(JsonValueType::Boolean(vec![true, true, true]).calculate_stat(), Some(Statistic::Distinct(1))));
    assert!(matches!(JsonValueType::Boolean(vec![false, true, false]).calculate_stat(), Some(Statistic::Distinct(2))));
    assert!(matches!(JsonValueType::Boolean(Vec::new()).calculate_stat(), Some(Statistic::Distinct(0))));
    assert!(matches!(
        JsonValueType::Number(vec![1, 2, 2]).calculate_stat(),
        Some(Statistic::Variance(v)) if v == vec![1, 2, 2]
    ));
    assert!(JsonValueType::Other.calculate_stat().is_none());
}

#[test]
fn line_of_statistics() {
    let entries = vec![
        ("a".to_string(), "2.667".to_string()),
        ("b".to_string(), count_as_text(2)),
        ("c.d[0]".to_string(), count_as_text(0)),
    ];
    assert_eq!(
        stats_line("2024-01-15 10:30:00", "2024-01-15 10:31:00", &entries),
        "2024-01-15 10:30:00 - 2024-01-15 10:31:00, a:2.667, b:2.000, c.d[0]:0.000\n"
    );
    assert_eq!(stats_line("s", "e", &Vec::new()), "s - e\n");
    assert_eq!(count_as_text(12345), "12345.000");
    assert_eq!(count_as_text(2), format!("{:.3}", 2.0f64));
}

#[test]
fn statistics_by_topic() {
    let mut manager = StatsManager::new("rec".to_string(), true, 60);
    assert!(manager.is_enabled());
    manager.add_message("a", &record("{\"v\": 1}"), at(0));
    manager.add_message("b", &record("{\"v\": \"x\"}"), at(50));
    manager.add_message("c", &record("no json"), at(0));
    manager.add_message("a", &record("{\"v\": 2}"), at(55));
    assert!(manager.check_and_calculate_stats(at(60)).is_empty());
    let reports = manager.check_and_calculate_stats(at(61));
    assert_eq!(reports.len(), 1);
    assert_eq!(reports[0].topic, "a");
    assert_eq!(reports[0].report.window_secs, 61);
    assert_eq!(samples(&reports[0].report, "v"), vec![1.0, 2.0]);
    assert!(manager.check_and_calculate_stats(at(100)).is_empty());
    let reports = manager.check_and_calculate_stats(at(111));
    assert_eq!(reports.len(), 1);
    assert_eq!(reports[0].topic, "b");
    assert_eq!(reports[0].report.window_secs, 61);
    manager.add_message("a", &record("{\"v\": 3}"), at(112));
    let reports = manager.check_and_calculate_stats(at(122));
    assert_eq!(reports.len(), 1);
    assert_eq!(reports[0].topic, "a");
    assert_eq!(reports[0].report.window_secs, 61);
    assert_eq!(samples(&reports[0].report, "v"), vec![3.0]);
}

#[test]
fn statistics_can_be_closed_by_force() {
    let mut manager = StatsManager::new("rec".to_string(), true, 3600);
    manager.add_message("a", &record("{\"v\": 1}"), at(10));
    manager.add_message("b", &record("{\"v\": 1}"), at(10));
    assert!(manager.force_calculate_stats_for_topic("unknown", at(20)).is_none());
    let report = manager.force_calculate_stats_for_topic("a", at(25)).unwrap();
    assert_eq!(report.window_secs, 15);
    assert!(manager.force_calculate_stats_for_topic("a", at(30)).is_none());
    let report = manager.force_calculate_stats_for_topic("b", at(30)).unwrap();
    assert_eq!(report.window_secs, 20);
}

#[test]
fn statistics_that_are_not_kept() {
    let mut manager = StatsManager::new("rec".to_string(), false, 0);
    assert!(!manager.is_enabled());
    manager.add_message("a", &record("{\"v\": 1}"), at(0));
    assert!(manager.check_and_calculate_stats(at(100)).is_empty());
    assert!(manager.force_calculate_stats_for_topic("a", at(100)).is_none());
}

#[test]
fn path_of_the_file_of_statistics() {
    let manager = StatsManager::new("rec".to_string(), true, 60);
    assert_eq!(manager.get_stats_file_path("home/+/temp"), "rec/home/+/temp/mqtt-recorder-home-plus-temp-stats.txt");
    assert_eq!(manager.get_stats_file_path("t"), "rec/t/mqtt-recorder-t-stats.txt");
}
