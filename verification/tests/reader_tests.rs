use journalsqld::entry::JournalEntry;
use journalsqld::parser::ParseErrorKind;
use journalsqld::reader::{read_entries_bytes, EntryReader, StepEvent};

fn entry_one() -> Vec<u8> {
    let mut s = Vec::new();
    s.extend_from_slice(b"MESSAGE=hello\n");
    s.extend_from_slice(b"_HOSTNAME=h\n");
    s.extend_from_slice(b"_MACHINE_ID=m\n");
    s.extend_from_slice(b"_BOOT_ID=b\n");
    s.extend_from_slice(b"_TRANSPORT=stdout\n");
    s.extend_from_slice(b"__REALTIME_TIMESTAMP=1700000000000000\n");
    s.extend_from_slice(b"__CURSOR=c\n");
    s.push(b'\n');
    s
}

#[test]
fn single_text_entry() {
    let entries = read_entries_bytes(&entry_one()).expect("the stream is well formed");
    assert_eq!(entries.len(), 1);
    let e = &entries[0];
    assert_eq!(e.hostname(), Some("h".to_owned()));
    assert_eq!(e.machine_id(), Some("m".to_owned()));
    assert_eq!(e.boot_id(), Some("b".to_owned()));
    assert_eq!(e.transport(), Some("stdout".to_owned()));
    assert_eq!(e.cursor(), Some("c".to_owned()));
    assert_eq!(e.get_text("MESSAGE"), Some("hello".to_owned()));
    assert_eq!(e.len(), 7);
}

#[test]
fn two_entries_in_order() {
    let mut s = entry_one();
    let mut second = Vec::new();
    second.extend_from_slice(b"MESSAGE=second\n");
    second.extend_from_slice(b"_HOSTNAME=h2\n");
    second.push(b'\n');
    s.extend_from_slice(&second);
    let entries = read_entries_bytes(&s).expect("the stream is well formed");
    assert_eq!(entries.len(), 2);
    assert_eq!(entries[0].get_text("MESSAGE"), Some("hello".to_owned()));
    assert_eq!(entries[1].get_text("MESSAGE"), Some("second".to_owned()));
    assert_eq!(entries[1].hostname(), Some("h2".to_owned()));
}

#[test]
fn many_entries_keep_input_order() {
    let mut s = Vec::new();
    for i in 0..10 {
        s.extend_from_slice(format!("SEQ={}\n\n", i).as_bytes());
    }
    let entries = read_entries_bytes(&s).expect("the stream is well formed");
    assert_eq!(entries.len(), 10);
    for (i, e) in entries.iter().enumerate() {
        assert_eq!(e.get_text("SEQ"), Some(format!("{}", i)));
    }
}

#[test]
fn binary_value_entry() {
    let mut s = Vec::new();
    s.extend_from_slice(b"BLOB\n");
    s.extend_from_slice(&3u64.to_le_bytes());
    s.extend_from_slice(b"A\nB");
    s.push(b'\n');
    s.push(b'\n');
    let entries = read_entries_bytes(&s).expect("the stream is well formed");
    assert_eq!(entries.len(), 1);
    assert_eq!(entries[0].get_text("BLOB"), Some("A\nB".to_owned()));
}

#[test]
fn truncated_stream_yields_no_entry() {
    let full = entry_one();
    let truncated = &full[..20];
    let entries = read_entries_bytes(truncated).expect("truncation is a clean end of stream");
    assert!(entries.is_empty());
}

#[test]
fn truncated_last_entry_is_dropped() {
    let mut s = entry_one();
    s.extend_from_slice(b"MESSAGE=unfinish");
    let entries = read_entries_bytes(&s).expect("truncation is a clean end of stream");
    assert_eq!(entries.len(), 1);
}

#[test]
fn empty_stream_yields_no_entry() {
    let entries = read_entries_bytes(b"").expect("an empty stream is fine");
    assert!(entries.is_empty());
}

#[test]
fn structural_error_is_reported() {
    let mut s = Vec::new();
    s.extend_from_slice(b"B\n");
    s.extend_from_slice(&1u64.to_le_bytes());
    s.extend_from_slice(b"xY\n\n");
    let err = read_entries_bytes(&s).expect_err("the payload terminator is missing");
    assert_eq!(err.kind, ParseErrorKind::Terminator);
}

#[test]
fn duplicate_key_last_wins() {
    let s = b"K=first\nK=second\n\n";
    let entries = read_entries_bytes(s).expect("the stream is well formed");
    assert_eq!(entries.len(), 1);
    assert_eq!(entries[0].get_text("K"), Some("second".to_owned()));
    assert_eq!(entries[0].len(), 1);
}

#[test]
fn step_reader_emits_entries_incrementally() {
    let input = {
        let mut s = entry_one();
        s.extend_from_slice(b"MESSAGE=two\n\n");
        s
    };
    let mut reader = EntryReader::new();
    let mut pos = 0usize;
    let mut emitted: Vec<JournalEntry> = Vec::new();
    loop {
        match reader.step() {
            StepEvent::Need(d) => {
                let grab = (d as usize).min(input.len() - pos);
                if grab == 0 {
                    break;
                }
                reader.feed(&input[pos..pos + grab]);
                pos += grab;
            }
            StepEvent::Emit(e) => emitted.push(e),
            StepEvent::Error(f) => panic!("unexpected parse failure: {:?}", f.kind),
        }
    }
    assert_eq!(emitted.len(), 2);
    assert_eq!(emitted[0].get_text("MESSAGE"), Some("hello".to_owned()));
    assert_eq!(emitted[1].get_text("MESSAGE"), Some("two".to_owned()));
}
