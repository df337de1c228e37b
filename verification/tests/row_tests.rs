use journalsqld::entry::JournalEntry;
use journalsqld::field::JournalFieldValue;
use journalsqld::reader::read_entries_bytes;
use journalsqld::row::{LogRecordRow, RowCreateError};

fn full_entry() -> JournalEntry {
    let mut e = JournalEntry::new();
    let mut put = |k: &str, v: &str| {
        e.put(k.to_owned(), JournalFieldValue::UTF8(v.to_owned()));
    };
    put("MESSAGE", "hello");
    put("_HOSTNAME", "h");
    put("_MACHINE_ID", "m");
    put("_BOOT_ID", "b");
    put("_TRANSPORT", "stdout");
    put("__REALTIME_TIMESTAMP", "1700000000000000");
    put("__CURSOR", "c");
    e
}

#[test]
fn projection_of_a_full_entry() {
    let row = LogRecordRow::try_from_entry(full_entry()).expect("all required fields present");
    assert_eq!(row.hostname, "h");
    assert_eq!(row.machine_id, "m");
    assert_eq!(row.boot_id, "b");
    assert_eq!(row.transport, "stdout");
    assert_eq!(row.cursor, "c");
    // 2023-11-14T22:13:20Z, to the microsecond
    assert_eq!(row.timestamp.micros, 1_700_000_000_000_000);
    assert_eq!(row.record, vec![("MESSAGE".to_owned(), "hello".to_owned())]);
}

#[test]
fn record_filters_cursor_duplicates() {
    let mut e = full_entry();
    e.put("__SEQNUM".to_owned(), JournalFieldValue::UTF8("7".to_owned()));
    e.put("__SEQNUM_ID".to_owned(), JournalFieldValue::UTF8("s".to_owned()));
    e.put(
        "__MONOTONIC_TIMESTAMP".to_owned(),
        JournalFieldValue::UTF8("1".to_owned()),
    );
    e.put("PRIORITY".to_owned(), JournalFieldValue::UTF8("6".to_owned()));
    let row = LogRecordRow::try_from_entry(e).expect("all required fields present");
    assert_eq!(
        row.record,
        vec![
            ("MESSAGE".to_owned(), "hello".to_owned()),
            ("PRIORITY".to_owned(), "6".to_owned()),
        ]
    );
}

fn assert_missing(taken: &str) {
    let mut e = full_entry();
    e.take(taken);
    match LogRecordRow::try_from_entry(e) {
        Err(RowCreateError::MissingField { field }) => assert_eq!(field, taken),
        _ => panic!("expected a missing-field error for {}", taken),
    }
}

#[test]
fn missing_transport_is_reported() {
    assert_missing("_TRANSPORT");
}

#[test]
fn missing_machine_id_is_reported() {
    assert_missing("_MACHINE_ID");
}

#[test]
fn missing_boot_id_is_reported() {
    assert_missing("_BOOT_ID");
}

#[test]
fn missing_hostname_is_reported() {
    assert_missing("_HOSTNAME");
}

#[test]
fn missing_timestamp_is_reported() {
    assert_missing("__REALTIME_TIMESTAMP");
}

#[test]
fn missing_cursor_is_reported() {
    assert_missing("__CURSOR");
}

#[test]
fn first_missing_field_wins() {
    let mut e = full_entry();
    e.take("_MACHINE_ID");
    e.take("__CURSOR");
    match LogRecordRow::try_from_entry(e) {
        Err(RowCreateError::MissingField { field }) => assert_eq!(field, "_MACHINE_ID"),
        _ => panic!("expected a missing-field error"),
    }
}

#[test]
fn unparsable_timestamp_is_unspecified() {
    let mut e = full_entry();
    e.put(
        "__REALTIME_TIMESTAMP".to_owned(),
        JournalFieldValue::UTF8("not-a-number".to_owned()),
    );
    assert!(matches!(
        LogRecordRow::try_from_entry(e),
        Err(RowCreateError::Unspecified { .. })
    ));
}

#[test]
fn binary_record_value_keeps_embedded_newline() {
    let mut s = Vec::new();
    s.extend_from_slice(b"MESSAGE=hello\n");
    s.extend_from_slice(b"BLOB\n");
    s.extend_from_slice(&3u64.to_le_bytes());
    s.extend_from_slice(b"A\nB\n");
    s.extend_from_slice(b"_HOSTNAME=h\n_MACHINE_ID=m\n_BOOT_ID=b\n_TRANSPORT=stdout\n");
    s.extend_from_slice(b"__REALTIME_TIMESTAMP=1700000000000000\n__CURSOR=c\n\n");
    let entries = read_entries_bytes(&s).expect("the stream is well formed");
    assert_eq!(entries.len(), 1);
    let mut entries = entries;
    let row = LogRecordRow::try_from_entry(entries.remove(0)).expect("all fields present");
    assert_eq!(
        row.record,
        vec![
            ("MESSAGE".to_owned(), "hello".to_owned()),
            ("BLOB".to_owned(), "A\nB".to_owned()),
        ]
    );
}

#[test]
fn missing_field_constructor_names_the_field() {
    match RowCreateError::missing_field("_TRANSPORT") {
        RowCreateError::MissingField { field } => assert_eq!(field, "_TRANSPORT"),
        _ => panic!("expected a missing-field error"),
    }
}
