use journalsqld::entry::JournalEntry;
use journalsqld::field::JournalFieldValue;
use journalsqld::pipeline::channel_capacity;
use tokio::sync::mpsc::error::TrySendError;

fn entry_with_seq(i: u64) -> JournalEntry {
    let mut e = JournalEntry::new();
    e.put("SEQ".to_owned(), JournalFieldValue::UTF8(format!("{}", i)));
    e
}

#[test]
fn full_channel_blocks_the_producer_without_dropping() {
    let (tx, mut rx) = tokio::sync::mpsc::channel::<JournalEntry>(channel_capacity(1));
    for i in 0..4 {
        tx.try_send(entry_with_seq(i)).expect("the channel has room");
    }
    // At capacity the producer cannot enqueue; the entry comes back
    // rather than being dropped.
    let held = match tx.try_send(entry_with_seq(4)) {
        Err(TrySendError::Full(e)) => e,
        _ => panic!("expected the channel to be full"),
    };
    assert_eq!(held.get_text("SEQ"), Some("4".to_owned()));
    // Resuming the consumer drains every pending entry, in order, and
    // makes room for the held one.
    for i in 0..4 {
        let got = rx.blocking_recv().expect("an entry is pending");
        assert_eq!(got.get_text("SEQ"), Some(format!("{}", i)));
    }
    tx.try_send(held).expect("room was made");
    let got = rx.blocking_recv().expect("the held entry arrives last");
    assert_eq!(got.get_text("SEQ"), Some("4".to_owned()));
}
