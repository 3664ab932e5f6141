use redis::{InfoDict, Value};
use slowlog_watch::{
    collect_slowlogs, decode, decode_all, is_ignored_upper, parse_version, retain_reported,
    schema_for, schema_for_major, should_report, timestamp_is_valid, version_from_field,
    version_from_info, DecodeError, RedisVersion, Schema, SeenRegistry, SlowlogEntry,
    VersionError,
};

fn data(s: &str) -> Value {
    Value::Data(s.as_bytes().to_vec())
}

fn command(tokens: &[&str]) -> Value {
    Value::Bulk(tokens.iter().map(|t| data(t)).collect())
}

fn extended_record(id: i64, ts: i64, micros: i64, tokens: &[&str]) -> Value {
    Value::Bulk(vec![
        Value::Int(id),
        Value::Int(ts),
        Value::Int(micros),
        command(tokens),
        Value::Status("127.0.0.1:58812".to_string()),
        Value::Status("worker".to_string()),
    ])
}

fn legacy_record(id: i64, ts: i64, micros: i64, tokens: &[&str]) -> Value {
    Value::Bulk(vec![Value::Int(id), Value::Int(ts), Value::Int(micros), command(tokens)])
}

fn entry(id: u64, ts: u64, name: &str) -> SlowlogEntry {
    SlowlogEntry::new(id, ts, 10, vec![name.to_string()], String::new(), String::new()).unwrap()
}

fn ids(v: &[SlowlogEntry]) -> Vec<u64> {
    v.iter().map(|e| e.id).collect()
}

#[test]
fn version_6_2_6_selects_extended_schema() {
    let v = parse_version("6.2.6");
    assert_eq!(v, Ok(Some(RedisVersion { major: 6, minor: 2, patch: 6 })));
    assert_eq!(schema_for(v.unwrap()), Schema::Extended);
}

#[test]
fn version_from_info_reply() {
    let info = InfoDict::new("# Server\r\nredis_version:6.2.6\r\nredis_mode:standalone\r\n");
    let v = version_from_info(&info);
    assert_eq!(v, Ok(Some(RedisVersion { major: 6, minor: 2, patch: 6 })));
    assert_eq!(schema_for(v.unwrap()), Schema::Extended);
}

#[test]
fn missing_version_selects_legacy_schema() {
    let info = InfoDict::new("# Server\r\nredis_mode:standalone\r\n");
    let v = version_from_info(&info);
    assert_eq!(v, Ok(None));
    assert_eq!(schema_for(None), Schema::Legacy);
    assert_eq!(version_from_field(None), Ok(None));
}

#[test]
fn empty_version_is_unknown() {
    assert_eq!(parse_version(""), Ok(None));
    let info = InfoDict::new("redis_version:\r\n");
    assert_eq!(version_from_info(&info), Ok(None));
}

#[test]
fn version_with_wrong_number_of_parts_is_refused() {
    assert_eq!(parse_version("6.2"), Err(VersionError::WrongShape));
    assert_eq!(parse_version("6"), Err(VersionError::WrongShape));
    assert_eq!(parse_version("6.2.6.1"), Err(VersionError::WrongShape));
}

#[test]
fn version_with_bad_numbers_is_refused() {
    assert_eq!(parse_version("6.x.6"), Err(VersionError::BadNumber));
    assert_eq!(parse_version("6..6"), Err(VersionError::BadNumber));
    assert_eq!(parse_version(".2.6"), Err(VersionError::BadNumber));
    assert_eq!(parse_version("6.2.-1"), Err(VersionError::BadNumber));
    assert_eq!(
        parse_version("99999999999999999999999.1.1"),
        Err(VersionError::BadNumber)
    );
    assert_eq!(version_from_field(Some("7.a.0".to_string())), Err(VersionError::BadNumber));
}

#[test]
fn version_numbers_read_in_full() {
    assert_eq!(
        parse_version("3.0.504"),
        Ok(Some(RedisVersion { major: 3, minor: 0, patch: 504 }))
    );
    assert_eq!(
        parse_version("007.10.0"),
        Ok(Some(RedisVersion { major: 7, minor: 10, patch: 0 }))
    );
}

#[test]
fn schema_threshold_is_major_four() {
    assert_eq!(schema_for_major(3), Schema::Legacy);
    assert_eq!(schema_for_major(4), Schema::Extended);
    assert_eq!(schema_for_major(0), Schema::Legacy);
    let v = RedisVersion { major: 3, minor: 2, patch: 12 };
    assert_eq!(schema_for(Some(v)), Schema::Legacy);
}

#[test]
fn decode_extended_record() {
    let raw = extended_record(14, 1_700_000_000, 25_300, &["GET", "key"]);
    let e = decode(&raw, Schema::Extended).unwrap();
    assert_eq!(e.id, 14);
    assert_eq!(e.timestamp, 1_700_000_000);
    assert_eq!(e.duration_micros, 25_300);
    assert_eq!(e.command, vec!["GET".to_string(), "key".to_string()]);
    assert_eq!(e.address, "127.0.0.1:58812");
    assert_eq!(e.client_name, "worker");
}

#[test]
fn decode_legacy_record_leaves_client_fields_empty() {
    let raw = legacy_record(3, 1_600_000_000, 12, &["SET", "k", "v"]);
    let e = decode(&raw, Schema::Legacy).unwrap();
    assert_eq!(e.id, 3);
    assert_eq!(e.timestamp, 1_600_000_000);
    assert_eq!(e.duration_micros, 12);
    assert_eq!(e.command.len(), 3);
    assert_eq!(e.address, "");
    assert_eq!(e.client_name, "");
}

#[test]
fn wrong_arity_fails_under_either_schema() {
    let six = extended_record(1, 1_700_000_000, 5, &["GET", "k"]);
    let four = legacy_record(1, 1_700_000_000, 5, &["GET", "k"]);
    assert_eq!(decode(&six, Schema::Legacy).unwrap_err(), DecodeError::Malformed);
    assert_eq!(decode(&four, Schema::Extended).unwrap_err(), DecodeError::Malformed);
    assert_eq!(decode(&Value::Int(7), Schema::Legacy).unwrap_err(), DecodeError::Malformed);
}

#[test]
fn empty_command_is_refused() {
    let raw = legacy_record(1, 1_700_000_000, 5, &[]);
    assert_eq!(decode(&raw, Schema::Legacy).unwrap_err(), DecodeError::EmptyCommand);
    let built = SlowlogEntry::new(1, 2, 3, vec![], String::new(), String::new());
    assert_eq!(built.unwrap_err(), DecodeError::EmptyCommand);
}

#[test]
fn decode_all_stops_at_a_malformed_record() {
    let raws = vec![
        legacy_record(1, 1_700_000_000, 5, &["GET", "a"]),
        extended_record(2, 1_700_000_000, 5, &["GET", "b"]),
    ];
    assert_eq!(decode_all(&raws, Schema::Legacy).unwrap_err(), DecodeError::Malformed);
    assert_eq!(decode_all(&raws[..1].to_vec(), Schema::Legacy).unwrap().len(), 1);
}

#[test]
fn slowlog_get_entry_is_never_reported() {
    let raws = vec![
        extended_record(10, 1_700_000_000, 5, &["SLOWLOG", "GET", "100"]),
        extended_record(11, 1_700_000_001, 5, &["GET", "k"]),
    ];
    let kept = collect_slowlogs(&raws, Schema::Extended).unwrap();
    assert_eq!(ids(&kept), vec![11]);
    let mut reg = SeenRegistry::new();
    let out = reg.poll_once(&raws, Schema::Extended).unwrap();
    assert_eq!(ids(&out), vec![11]);
    assert!(!reg.contains(10));
    assert!(reg.contains(11));
}

#[test]
fn ignore_filter_is_case_insensitive() {
    for name in ["slowlog", "SLOWLOG", "SlowLog", "info", "Info", "INFO"] {
        assert!(!should_report(&entry(1, 1_700_000_000, name)), "{name}");
    }
    for name in ["GET", "slowlogs", "INFORMATION", "hgetall"] {
        assert!(should_report(&entry(1, 1_700_000_000, name)), "{name}");
    }
}

#[test]
fn ignored_names_match_exactly() {
    assert!(is_ignored_upper("SLOWLOG"));
    assert!(is_ignored_upper("INFO"));
    assert!(!is_ignored_upper("slowlog"));
    assert!(!is_ignored_upper("SLOWLOGX"));
    assert!(!is_ignored_upper(""));
}

#[test]
fn retain_reported_keeps_order() {
    let es = vec![
        entry(1, 1_700_000_000, "GET"),
        entry(2, 1_700_000_000, "info"),
        entry(3, 1_700_000_000, "SET"),
    ];
    assert_eq!(ids(&retain_reported(&es)), vec![1, 3]);
}

#[test]
fn repeated_ids_are_reported_once() {
    let mut reg = SeenRegistry::new();
    let poll1 = vec![
        extended_record(2, 1_700_000_002, 5, &["GET", "b"]),
        extended_record(1, 1_700_000_001, 5, &["GET", "a"]),
    ];
    let out1 = reg.poll_once(&poll1, Schema::Extended).unwrap();
    assert_eq!(ids(&out1), vec![2, 1]);
    assert!(reg.contains(1) && reg.contains(2));
    let poll2 = vec![
        extended_record(3, 1_700_000_003, 5, &["GET", "c"]),
        extended_record(2, 1_700_000_002, 5, &["GET", "b"]),
        extended_record(1, 1_700_000_001, 5, &["GET", "a"]),
    ];
    let out2 = reg.poll_once(&poll2, Schema::Extended).unwrap();
    assert_eq!(ids(&out2), vec![3]);
    assert_eq!(reg.len(), 3);
}

#[test]
fn same_id_twice_in_one_batch_is_reported_once() {
    let mut reg = SeenRegistry::new();
    let batch = vec![entry(5, 1_700_000_000, "GET"), entry(5, 1_700_000_000, "GET")];
    assert_eq!(ids(&reg.record_new(&batch)), vec![5]);
    for _ in 0..3 {
        assert!(reg.record_new(&batch).is_empty());
    }
    assert_eq!(reg.len(), 1);
}

#[test]
fn invalid_timestamp_is_skipped_alone() {
    let bad: u64 = 1 << 62;
    let mut reg = SeenRegistry::new();
    let batch = vec![
        entry(1, 1_700_000_000, "GET"),
        entry(2, bad, "GET"),
        entry(3, 1_700_000_100, "SET"),
    ];
    let out = reg.record_new(&batch);
    assert_eq!(ids(&out), vec![1, 3]);
    assert!(!reg.contains(2));
    assert_eq!(reg.len(), 2);
    let again = reg.record_new(&batch);
    assert!(again.is_empty());
    assert!(!reg.contains(2));
}

#[test]
fn invalid_timestamp_in_a_reply_does_not_abort() {
    let raws = vec![
        legacy_record(1, 1_700_000_000, 5, &["GET", "a"]),
        legacy_record(2, 1 << 62, 5, &["GET", "b"]),
        legacy_record(3, 1_700_000_001, 5, &["GET", "c"]),
    ];
    let mut reg = SeenRegistry::new();
    let out = reg.poll_once(&raws, Schema::Legacy).unwrap();
    assert_eq!(ids(&out), vec![1, 3]);
}

#[test]
fn timestamp_validity_follows_the_calendar_range() {
    assert!(timestamp_is_valid(&entry(1, 0, "GET")));
    assert!(timestamp_is_valid(&entry(1, 1_700_000_000, "GET")));
    assert!(!timestamp_is_valid(&entry(1, 1 << 62, "GET")));
    // read as signed seconds, the largest u64 is one second before the epoch
    assert!(timestamp_is_valid(&entry(1, u64::MAX, "GET")));
}

#[test]
fn registry_only_grows() {
    let mut reg = SeenRegistry::new();
    assert_eq!(reg.len(), 0);
    reg.record_new(&vec![entry(1, 1_700_000_000, "GET")]);
    assert_eq!(reg.len(), 1);
    reg.record_new(&vec![entry(2, 1_700_000_000, "GET")]);
    assert_eq!(reg.len(), 2);
    reg.record_new(&vec![]);
    assert!(reg.contains(1) && reg.contains(2));
}

#[test]
fn failed_decode_leaves_registry_unchanged() {
    let mut reg = SeenRegistry::new();
    let raws = vec![
        legacy_record(1, 1_700_000_000, 5, &["GET", "a"]),
        Value::Nil,
    ];
    assert_eq!(reg.poll_once(&raws, Schema::Legacy).unwrap_err(), DecodeError::Malformed);
    assert_eq!(reg.len(), 0);
}

#[test]
fn register_if_new_needs_new_id_and_valid_stamp() {
    let mut reg = SeenRegistry::new();
    let e = entry(9, 1_700_000_000, "GET");
    assert!(!reg.register_if_new(&e, false));
    assert!(!reg.contains(9));
    assert!(reg.register_if_new(&e, true));
    assert!(!reg.register_if_new(&e, true));
    assert_eq!(reg.len(), 1);
}

#[test]
fn duplicate_copies_every_field() {
    let e = SlowlogEntry::new(
        4,
        5,
        6,
        vec!["GET".to_string(), "k".to_string()],
        "addr".to_string(),
        "name".to_string(),
    )
    .unwrap();
    let d = e.duplicate();
    assert_eq!((d.id, d.timestamp, d.duration_micros), (4, 5, 6));
    assert_eq!(d.command, e.command);
    assert_eq!((d.address.as_str(), d.client_name.as_str()), ("addr", "name"));
}

#[test]
fn timestamp_range_edges() {
    assert!(timestamp_is_valid(&entry(1, 8_210_266_876_799, "GET")));
    assert!(!timestamp_is_valid(&entry(1, 8_210_266_876_800, "GET")));
    assert!(timestamp_is_valid(&entry(1, (-8_334_601_228_800i64) as u64, "GET")));
    assert!(!timestamp_is_valid(&entry(1, (-8_334_601_228_801i64) as u64, "GET")));
}

#[test]
fn decode_reads_data_items_as_text() {
    let raw = Value::Bulk(vec![
        Value::Int(21),
        Value::Int(1_700_000_000),
        Value::Int(40),
        command(&["SET", "clé", "v"]),
        data("10.0.0.2:6000"),
        data("reporter"),
    ]);
    let e = decode(&raw, Schema::Extended).unwrap();
    assert_eq!(e.command, vec!["SET".to_string(), "clé".to_string(), "v".to_string()]);
    assert_eq!(e.address, "10.0.0.2:6000");
    assert_eq!(e.client_name, "reporter");
}

#[test]
fn nil_command_is_empty() {
    let raw = Value::Bulk(vec![Value::Int(1), Value::Int(2), Value::Int(3), Value::Nil]);
    assert_eq!(decode(&raw, Schema::Legacy).unwrap_err(), DecodeError::EmptyCommand);
}

#[test]
fn collect_keeps_every_field_in_order() {
    let raws = vec![
        extended_record(7, 1_700_000_007, 70, &["GET", "a"]),
        extended_record(8, 1_700_000_008, 80, &["info", "server"]),
        extended_record(9, 1_700_000_009, 90, &["HGETALL", "h"]),
    ];
    let es = collect_slowlogs(&raws, Schema::Extended).unwrap();
    assert_eq!(ids(&es), vec![7, 9]);
    assert_eq!((es[0].timestamp, es[0].duration_micros), (1_700_000_007, 70));
    assert_eq!((es[1].timestamp, es[1].duration_micros), (1_700_000_009, 90));
    assert_eq!(es[1].command, vec!["HGETALL".to_string(), "h".to_string()]);
    assert_eq!(es[1].address, "127.0.0.1:58812");
    assert_eq!(es[1].client_name, "worker");
    let all = decode_all(&raws, Schema::Extended).unwrap();
    assert_eq!(ids(&all), vec![7, 8, 9]);
}

#[test]
fn version_from_info_reads_only_its_entry() {
    let info = InfoDict::new("redis_mode:standalone\r\nredis_version:3.2.12\r\nos:Linux\r\n");
    assert_eq!(
        version_from_info(&info),
        Ok(Some(RedisVersion { major: 3, minor: 2, patch: 12 }))
    );
    let bad = InfoDict::new("redis_version:7.0\r\n");
    assert_eq!(version_from_info(&bad), Err(VersionError::WrongShape));
}
