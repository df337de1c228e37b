use journalsqld::field::JournalFieldValue;
use journalsqld::parser::{parse_journal_field, Demand, FieldParse, ParseErrorKind};

fn binary_field(key: &[u8], payload: &[u8]) -> Vec<u8> {
    let mut out = Vec::new();
    out.extend_from_slice(key);
    out.push(b'\n');
    out.extend_from_slice(&(payload.len() as u64).to_le_bytes());
    out.extend_from_slice(payload);
    out.push(b'\n');
    out
}

#[test]
fn text_field_round_trip() {
    let input = b"MESSAGE=hello\nREST";
    match parse_journal_field(input) {
        FieldParse::Done { consumed, field } => {
            assert_eq!(consumed, 14);
            assert_eq!(field.key, "MESSAGE");
            match field.value {
                JournalFieldValue::UTF8(v) => assert_eq!(v, "hello"),
                JournalFieldValue::Bytes(_) => panic!("expected a text value"),
            }
        }
        _ => panic!("expected a parsed field"),
    }
}

#[test]
fn text_field_empty_value() {
    match parse_journal_field(b"K=\nX") {
        FieldParse::Done { consumed, field } => {
            assert_eq!(consumed, 3);
            assert_eq!(field.key, "K");
            match field.value {
                JournalFieldValue::UTF8(v) => assert_eq!(v, ""),
                JournalFieldValue::Bytes(_) => panic!("expected a text value"),
            }
        }
        _ => panic!("expected a parsed field"),
    }
}

#[test]
fn binary_field_round_trip_with_newline_and_nul() {
    let payload = b"A\nB\0C";
    let mut input = binary_field(b"BLOB", payload);
    input.extend_from_slice(b"NEXT");
    match parse_journal_field(&input) {
        FieldParse::Done { consumed, field } => {
            assert_eq!(consumed, 4 + 1 + 8 + payload.len() + 1);
            assert_eq!(field.key, "BLOB");
            match field.value {
                JournalFieldValue::Bytes(b) => assert_eq!(b, payload.to_vec()),
                JournalFieldValue::UTF8(_) => panic!("expected a binary value"),
            }
        }
        _ => panic!("expected a parsed field"),
    }
}

#[test]
fn binary_field_empty_payload() {
    let input = binary_field(b"EMPTY", b"");
    match parse_journal_field(&input) {
        FieldParse::Done { consumed, field } => {
            assert_eq!(consumed, input.len());
            assert_eq!(field.key, "EMPTY");
            match field.value {
                JournalFieldValue::Bytes(b) => assert!(b.is_empty()),
                JournalFieldValue::UTF8(_) => panic!("expected a binary value"),
            }
        }
        _ => panic!("expected a parsed field"),
    }
}

#[test]
fn truncated_payload_demands_exactly_the_rest() {
    // 10-byte payload announced, 3 bytes present: demand is 7 more.
    let full = binary_field(b"DATA", b"0123456789");
    let prefix = &full[..4 + 1 + 8 + 3];
    match parse_journal_field(prefix) {
        FieldParse::Incomplete { demand } => assert_eq!(demand, Demand::Exact(7)),
        _ => panic!("expected an incomplete parse"),
    }
}

#[test]
fn partial_key_is_incomplete_with_unknown_demand() {
    match parse_journal_field(b"MESSAG") {
        FieldParse::Incomplete { demand } => assert_eq!(demand, Demand::Unknown),
        _ => panic!("expected an incomplete parse"),
    }
}

#[test]
fn empty_input_is_incomplete() {
    assert!(matches!(
        parse_journal_field(b""),
        FieldParse::Incomplete { demand: Demand::Unknown }
    ));
}

#[test]
fn text_without_terminator_is_incomplete() {
    assert!(matches!(
        parse_journal_field(b"K=abc"),
        FieldParse::Incomplete { demand: Demand::Unknown }
    ));
}

#[test]
fn empty_key_before_equals_fails() {
    assert!(matches!(
        parse_journal_field(b"=value\n"),
        FieldParse::Fail { kind: ParseErrorKind::Key }
    ));
}

#[test]
fn entry_boundary_reports_eof() {
    assert!(matches!(
        parse_journal_field(b"\n"),
        FieldParse::Fail { kind: ParseErrorKind::Eof }
    ));
}

#[test]
fn truncated_length_prefix_reports_eof() {
    assert!(matches!(
        parse_journal_field(b"KEY\n\x01\x02"),
        FieldParse::Fail { kind: ParseErrorKind::Eof }
    ));
}

#[test]
fn missing_payload_terminator_fails() {
    let mut input = Vec::new();
    input.extend_from_slice(b"B\n");
    input.extend_from_slice(&2u64.to_le_bytes());
    input.extend_from_slice(b"xyZ");
    assert!(matches!(
        parse_journal_field(&input),
        FieldParse::Fail { kind: ParseErrorKind::Terminator }
    ));
}

#[test]
fn invalid_utf8_key_fails() {
    let mut input = Vec::new();
    input.extend_from_slice(&[0xff, 0xfe]);
    input.extend_from_slice(b"=v\n");
    assert!(matches!(
        parse_journal_field(&input),
        FieldParse::Fail { kind: ParseErrorKind::Utf8 }
    ));
}

#[test]
fn invalid_utf8_text_value_fails() {
    let mut input = Vec::new();
    input.extend_from_slice(b"K=");
    input.extend_from_slice(&[0xc3, 0x28]);
    input.push(b'\n');
    assert!(matches!(
        parse_journal_field(&input),
        FieldParse::Fail { kind: ParseErrorKind::Utf8 }
    ));
}

#[test]
fn binary_payload_preserved_bit_exact() {
    let payload: Vec<u8> = (0u16..=255).map(|b| b as u8).collect();
    let input = binary_field(b"ALLBYTES", &payload);
    match parse_journal_field(&input) {
        FieldParse::Done { field, .. } => match field.value {
            JournalFieldValue::Bytes(b) => assert_eq!(b, payload),
            JournalFieldValue::UTF8(_) => panic!("expected a binary value"),
        },
        _ => panic!("expected a parsed field"),
    }
}
