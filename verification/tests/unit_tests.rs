use journalsqld::config::database_name;
use journalsqld::decimal::parse_i64;
use journalsqld::entry::JournalEntry;
use journalsqld::field::JournalFieldValue;
use journalsqld::metrics::{inc_log_entries_processed, inc_log_entries_unprocessed,
    set_last_entry_parse_time, set_last_received_entry_timestamp, Metrics};
use journalsqld::pipeline::{channel_capacity, lag_exceeds_five_seconds, process_entry};
use journalsqld::timestamp::TimestampMicros;

#[test]
fn parse_plain_decimal() {
    assert_eq!(parse_i64("123"), Some(123));
    assert_eq!(parse_i64("0"), Some(0));
    assert_eq!(parse_i64("1700000000000000"), Some(1_700_000_000_000_000));
}

#[test]
fn parse_signed_decimal() {
    assert_eq!(parse_i64("-5"), Some(-5));
    assert_eq!(parse_i64("+7"), Some(7));
}

#[test]
fn parse_decimal_bounds() {
    assert_eq!(parse_i64("9223372036854775807"), Some(i64::MAX));
    assert_eq!(parse_i64("-9223372036854775808"), Some(i64::MIN));
    assert_eq!(parse_i64("9223372036854775808"), None);
    assert_eq!(parse_i64("-9223372036854775809"), None);
}

#[test]
fn parse_decimal_rejects_malformed() {
    assert_eq!(parse_i64(""), None);
    assert_eq!(parse_i64("-"), None);
    assert_eq!(parse_i64("+"), None);
    assert_eq!(parse_i64("12a"), None);
    assert_eq!(parse_i64(" 12"), None);
    assert_eq!(parse_i64("1 2"), None);
}

#[test]
fn put_replaces_and_reports_presence() {
    let mut e = JournalEntry::new();
    let had = e.put("K".to_owned(), JournalFieldValue::UTF8("first".to_owned()));
    assert!(!had);
    let had = e.put("K".to_owned(), JournalFieldValue::UTF8("second".to_owned()));
    assert!(had);
    assert_eq!(e.get_text("K"), Some("second".to_owned()));
    assert_eq!(e.len(), 1);
}

#[test]
fn take_removes_the_field() {
    let mut e = JournalEntry::new();
    e.put("K".to_owned(), JournalFieldValue::UTF8("v".to_owned()));
    assert_eq!(e.take_text("K"), Some("v".to_owned()));
    assert_eq!(e.take_text("K"), None);
    assert_eq!(e.len(), 0);
}

#[test]
fn realtime_timestamp_parses_in_place() {
    let mut e = JournalEntry::new();
    e.put(
        "__REALTIME_TIMESTAMP".to_owned(),
        JournalFieldValue::UTF8("1700000000000000".to_owned()),
    );
    match e.realtime_timestamp() {
        Some(Ok(ts)) => assert_eq!(ts.micros, 1_700_000_000_000_000),
        _ => panic!("expected a parsed timestamp"),
    }
    e.put(
        "__REALTIME_TIMESTAMP".to_owned(),
        JournalFieldValue::UTF8("soon".to_owned()),
    );
    assert!(matches!(e.realtime_timestamp(), Some(Err(_))));
    let mut empty = JournalEntry::new();
    assert!(empty.take_realtime_timestamp().is_none());
}

#[test]
fn text_value_converts_verbatim() {
    let v = JournalFieldValue::UTF8("héllo wörld".to_owned());
    assert_eq!(v.as_string(), "héllo wörld");
    assert!(v.is_text());
}

#[test]
fn binary_value_strips_ansi_escapes() {
    let v = JournalFieldValue::Bytes(b"\x1b[32mfoo\x1b[m bar".to_vec());
    assert_eq!(v.as_string(), "foo bar");
    assert!(!v.is_text());
}

#[test]
fn binary_value_keeps_plain_text_and_newlines() {
    let v = JournalFieldValue::Bytes(b"plain\ntext".to_vec());
    assert_eq!(v.as_string(), "plain\ntext");
}

#[test]
fn binary_value_base64_mode() {
    let v = JournalFieldValue::Bytes(vec![1, 2]);
    assert_eq!(v.as_string_base64(), "base64:AQI=");
    let t = JournalFieldValue::UTF8("x".to_owned());
    assert_eq!(t.as_string_base64(), "x");
}

#[test]
fn counters_count_per_hostname() {
    let mut m = Metrics::new();
    inc_log_entries_processed(&mut m, "h1");
    inc_log_entries_processed(&mut m, "h1");
    inc_log_entries_processed(&mut m, "h2");
    inc_log_entries_unprocessed(&mut m, "unknown");
    assert_eq!(m.processed_count("h1"), 2);
    assert_eq!(m.processed_count("h2"), 1);
    assert_eq!(m.processed_count("h3"), 0);
    assert_eq!(m.unprocessable_count("unknown"), 1);
    assert_eq!(m.unprocessable_count("h1"), 0);
}

#[test]
fn last_received_gauge_holds_milliseconds() {
    let mut m = Metrics::new();
    set_last_received_entry_timestamp(
        &mut m,
        "h",
        TimestampMicros { micros: 1_700_000_000_123_456 },
    );
    assert_eq!(m.last_received_for("h"), Some(1_700_000_000_123));
    assert_eq!(m.last_received_for("other"), None);
}

#[test]
fn parse_time_observation_is_recorded() {
    let mut m = Metrics::new();
    set_last_entry_parse_time(&mut m, 42);
    set_last_entry_parse_time(&mut m, 7);
    assert_eq!(m.parse_time(), (7, 2));
}

#[test]
fn processed_entry_updates_metrics() {
    let mut e = JournalEntry::new();
    e.put("_HOSTNAME".to_owned(), JournalFieldValue::UTF8("h".to_owned()));
    e.put("_MACHINE_ID".to_owned(), JournalFieldValue::UTF8("m".to_owned()));
    e.put("_BOOT_ID".to_owned(), JournalFieldValue::UTF8("b".to_owned()));
    e.put("_TRANSPORT".to_owned(), JournalFieldValue::UTF8("stdout".to_owned()));
    e.put(
        "__REALTIME_TIMESTAMP".to_owned(),
        JournalFieldValue::UTF8("1700000000000000".to_owned()),
    );
    e.put("__CURSOR".to_owned(), JournalFieldValue::UTF8("c".to_owned()));
    let mut m = Metrics::new();
    let row = process_entry(e, &mut m).expect("the entry projects to a row");
    assert_eq!(row.hostname, "h");
    assert_eq!(m.processed_count("h"), 1);
    assert_eq!(m.last_received_for("h"), Some(1_700_000_000_000));
    assert_eq!(m.unprocessable_count("unknown"), 0);
}

#[test]
fn unprocessable_entry_counts_as_unknown() {
    let mut e = JournalEntry::new();
    e.put("MESSAGE".to_owned(), JournalFieldValue::UTF8("hi".to_owned()));
    let mut m = Metrics::new();
    assert!(process_entry(e, &mut m).is_err());
    assert_eq!(m.unprocessable_count("unknown"), 1);
    assert_eq!(m.processed_count("unknown"), 0);
}

#[test]
fn pipeline_continues_after_unprocessable_entry() {
    let mut first = JournalEntry::new();
    first.put("MESSAGE".to_owned(), JournalFieldValue::UTF8("no host".to_owned()));
    let mut second = JournalEntry::new();
    second.put("_HOSTNAME".to_owned(), JournalFieldValue::UTF8("h".to_owned()));
    second.put("_MACHINE_ID".to_owned(), JournalFieldValue::UTF8("m".to_owned()));
    second.put("_BOOT_ID".to_owned(), JournalFieldValue::UTF8("b".to_owned()));
    second.put("_TRANSPORT".to_owned(), JournalFieldValue::UTF8("stdout".to_owned()));
    second.put(
        "__REALTIME_TIMESTAMP".to_owned(),
        JournalFieldValue::UTF8("1700000000000000".to_owned()),
    );
    second.put("__CURSOR".to_owned(), JournalFieldValue::UTF8("c".to_owned()));
    let mut m = Metrics::new();
    assert!(process_entry(first, &mut m).is_err());
    let row = process_entry(second, &mut m).expect("the second entry still projects");
    assert_eq!(row.hostname, "h");
    assert_eq!(m.unprocessable_count("unknown"), 1);
    assert_eq!(m.processed_count("h"), 1);
}

#[test]
fn lag_reporting_threshold() {
    let t = |now: i64, ts: i64| {
        lag_exceeds_five_seconds(
            TimestampMicros { micros: now },
            TimestampMicros { micros: ts },
        )
    };
    assert!(t(6_000_000, 0));
    assert!(t(10_000_000, 0));
    assert!(!t(5_999_999, 0));
    assert!(!t(0, 0));
    assert!(!t(0, 10_000_000));
}

#[test]
fn channel_capacity_scales_with_processors() {
    assert_eq!(channel_capacity(1), 4);
    assert_eq!(channel_capacity(16), 64);
}

#[test]
fn database_name_from_uri_path() {
    assert_eq!(database_name("/mydb"), "mydb");
    assert_eq!(database_name("/a/b"), "a/b");
    assert_eq!(database_name("/"), "default");
    assert_eq!(database_name(""), "default");
    assert_eq!(database_name("nodb"), "default");
}

#[test]
fn timestamp_millis_truncate_toward_zero() {
    assert_eq!(TimestampMicros { micros: 1999 }.as_millis(), 1);
    assert_eq!(TimestampMicros { micros: -1999 }.as_millis(), -1);
    assert_eq!(TimestampMicros { micros: 0 }.as_millis(), 0);
    assert_eq!(
        TimestampMicros { micros: i64::MIN }.as_millis(),
        -9_223_372_036_854_775
    );
}
