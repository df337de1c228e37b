//! Projection of a journal entry to one database row.

use vstd::prelude::*;
use crate::decimal::spec_parse_i64;
use crate::entry::JournalEntry;
use crate::field::{spec_value_text, ValueView};
use crate::text::str_eq;
use crate::timestamp::TimestampMicros;

verus! {

broadcast use vstd::string::group_string_axioms;

/// A row could not be created from an entry.
#[derive(Debug)]
pub enum RowCreateError {
    /// A required field was absent.
    MissingField { field: String },
    /// The realtime timestamp was not a decimal integer in range.
    Unspecified { cause: String },
}

impl RowCreateError {
    /// A missing-field error naming the absent field.
    pub fn missing_field(field: &str) -> (r: Self)
        ensures
            r matches RowCreateError::MissingField { field: f } && f@ == field@,
    {
        RowCreateError::MissingField { field: field.to_owned() }
    }
}

/// One database row: the six distinguished fields, and every other field
/// as a key/text pair.
#[derive(Debug)]
pub struct LogRecordRow {
    pub machine_id: String,
    pub boot_id: String,
    pub timestamp: TimestampMicros,
    pub hostname: String,
    pub transport: String,
    pub cursor: String,
    pub record: Vec<(String, String)>,
}

/// Keys that do not go into `record`: the six distinguished keys, and
/// three whose content the cursor already encodes.
pub open spec fn is_ignored_key(k: Seq<char>) -> bool {
    ||| k == "_BOOT_ID"@
    ||| k == "_HOSTNAME"@
    ||| k == "_MACHINE_ID"@
    ||| k == "_TRANSPORT"@
    ||| k == "__CURSOR"@
    ||| k == "__REALTIME_TIMESTAMP"@
    ||| k == "__SEQNUM"@
    ||| k == "__SEQNUM_ID"@
    ||| k == "__MONOTONIC_TIMESTAMP"@
}

/// The first absent required key, in the order the projection checks.
pub open spec fn spec_first_missing(m: Map<Seq<char>, ValueView>) -> Option<Seq<char>> {
    if !m.contains_key("_TRANSPORT"@) {
        Some("_TRANSPORT"@)
    } else if !m.contains_key("_MACHINE_ID"@) {
        Some("_MACHINE_ID"@)
    } else if !m.contains_key("_BOOT_ID"@) {
        Some("_BOOT_ID"@)
    } else if !m.contains_key("_HOSTNAME"@) {
        Some("_HOSTNAME"@)
    } else if !m.contains_key("__REALTIME_TIMESTAMP"@) {
        Some("__REALTIME_TIMESTAMP"@)
    } else if !m.contains_key("__CURSOR"@) {
        Some("__CURSOR"@)
    } else {
        None
    }
}

/// Whether a keyed value goes into the record.
pub open spec fn record_pred() -> spec_fn((Seq<char>, ValueView)) -> bool {
    |p: (Seq<char>, ValueView)| !is_ignored_key(p.0)
}

/// The record of a field sequence: every pair whose key is not ignored,
/// in order, with the value as row text.
pub open spec fn spec_record(fs: Seq<(Seq<char>, ValueView)>) -> Seq<(Seq<char>, Seq<char>)> {
    fs.filter(record_pred()).map_values(
        |p: (Seq<char>, ValueView)| (p.0, spec_value_text(p.1)),
    )
}

// Removing an element with an ignored key leaves the record unchanged.
proof fn lemma_record_remove_ignored(fs: Seq<(Seq<char>, ValueView)>, i: int)
    requires
        0 <= i < fs.len(),
        is_ignored_key(fs[i].0),
    ensures
        spec_record(fs.remove(i)) == spec_record(fs),
{
    let pred = record_pred();
    let a = fs.subrange(0, i);
    let mid = seq![fs[i]];
    let b = fs.subrange(i + 1, fs.len() as int);
    assert(fs =~= (a + mid) + b);
    assert(fs.remove(i) =~= a + b);
    Seq::filter_distributes_over_add(a + mid, b, pred);
    Seq::filter_distributes_over_add(a, mid, pred);
    Seq::filter_distributes_over_add(a, b, pred);
    assert(mid.filter(pred) =~= Seq::<(Seq<char>, ValueView)>::empty()) by {
        reveal_with_fuel(Seq::filter, 2);
        assert(mid.drop_last() =~= Seq::<(Seq<char>, ValueView)>::empty());
    }
    assert((a.filter(pred) + mid.filter(pred)) + b.filter(pred) =~= a.filter(pred) + b.filter(
        pred,
    ));
    assert(fs.filter(pred) == fs.remove(i).filter(pred));
}

// Extending the processed prefix by one element extends the record by
// that element exactly when its key is not ignored.
proof fn lemma_record_step(fs: Seq<(Seq<char>, ValueView)>, i: int)
    requires
        0 <= i < fs.len(),
    ensures
        !is_ignored_key(fs[i].0) ==> spec_record(fs.subrange(0, i + 1)) == spec_record(
            fs.subrange(0, i),
        ).push((fs[i].0, spec_value_text(fs[i].1))),
        is_ignored_key(fs[i].0) ==> spec_record(fs.subrange(0, i + 1)) == spec_record(
            fs.subrange(0, i),
        ),
{
    let pred = record_pred();
    let a = fs.subrange(0, i);
    let mid = seq![fs[i]];
    assert(fs.subrange(0, i + 1) =~= a + mid);
    Seq::filter_distributes_over_add(a, mid, pred);
    reveal_with_fuel(Seq::filter, 2);
    assert(mid.drop_last() =~= Seq::<(Seq<char>, ValueView)>::empty());
    if !is_ignored_key(fs[i].0) {
        assert(mid.filter(pred) =~= seq![fs[i]]);
        assert((a + mid).filter(pred) =~= a.filter(pred).push(fs[i]));
        assert(spec_record(fs.subrange(0, i + 1)) =~= spec_record(a).push(
            (fs[i].0, spec_value_text(fs[i].1)),
        ));
    } else {
        assert(mid.filter(pred) =~= Seq::<(Seq<char>, ValueView)>::empty());
        assert((a + mid).filter(pred) =~= a.filter(pred));
        assert(spec_record(fs.subrange(0, i + 1)) =~= spec_record(a));
    }
}

// The six distinguished keys are pairwise distinct.
proof fn lemma_required_keys_distinct()
    ensures
        "_TRANSPORT"@ != "_MACHINE_ID"@,
        "_TRANSPORT"@ != "_BOOT_ID"@,
        "_TRANSPORT"@ != "_HOSTNAME"@,
        "_TRANSPORT"@ != "__REALTIME_TIMESTAMP"@,
        "_TRANSPORT"@ != "__CURSOR"@,
        "_MACHINE_ID"@ != "_BOOT_ID"@,
        "_MACHINE_ID"@ != "_HOSTNAME"@,
        "_MACHINE_ID"@ != "__REALTIME_TIMESTAMP"@,
        "_MACHINE_ID"@ != "__CURSOR"@,
        "_BOOT_ID"@ != "_HOSTNAME"@,
        "_BOOT_ID"@ != "__REALTIME_TIMESTAMP"@,
        "_BOOT_ID"@ != "__CURSOR"@,
        "_HOSTNAME"@ != "__REALTIME_TIMESTAMP"@,
        "_HOSTNAME"@ != "__CURSOR"@,
        "__REALTIME_TIMESTAMP"@ != "__CURSOR"@,
{
    reveal_strlit("_TRANSPORT");
    reveal_strlit("_MACHINE_ID");
    reveal_strlit("_BOOT_ID");
    reveal_strlit("_HOSTNAME");
    reveal_strlit("__REALTIME_TIMESTAMP");
    reveal_strlit("__CURSOR");
    assert("_TRANSPORT"@.len() == 10);
    assert("_MACHINE_ID"@.len() == 11);
    assert("_BOOT_ID"@.len() == 8);
    assert("_HOSTNAME"@.len() == 9);
    assert("__REALTIME_TIMESTAMP"@.len() == 20);
    assert("__CURSOR"@.len() == 8);
    assert("_BOOT_ID"@[1] == 'B');
    assert("__CURSOR"@[1] == '_');
}

/// True when `key` does not go into the record.
fn is_ignored(key: &str) -> (r: bool)
    ensures
        r == is_ignored_key(key@),
{
    str_eq(key, "_BOOT_ID") || str_eq(key, "_HOSTNAME") || str_eq(key, "_MACHINE_ID") || str_eq(
        key,
        "_TRANSPORT",
    ) || str_eq(key, "__CURSOR") || str_eq(key, "__REALTIME_TIMESTAMP") || str_eq(key, "__SEQNUM")
        || str_eq(key, "__SEQNUM_ID") || str_eq(key, "__MONOTONIC_TIMESTAMP")
}

/// How a projection outcome relates to the entry it came from: a row
/// carries the six distinguished fields and the record of the rest; a
/// missing-field error names the first absent required key; an
/// unspecified error means the realtime timestamp did not parse.
pub open spec fn spec_row_result(
    m: Map<Seq<char>, ValueView>,
    fs: Seq<(Seq<char>, ValueView)>,
    r: Result<LogRecordRow, RowCreateError>,
) -> bool {
    match r {
        Result::Ok(row) => {
            &&& spec_first_missing(m) is None
            &&& row.transport@ == spec_value_text(m["_TRANSPORT"@])
            &&& row.machine_id@ == spec_value_text(m["_MACHINE_ID"@])
            &&& row.boot_id@ == spec_value_text(m["_BOOT_ID"@])
            &&& row.hostname@ == spec_value_text(m["_HOSTNAME"@])
            &&& row.cursor@ == spec_value_text(m["__CURSOR"@])
            &&& spec_parse_i64(spec_value_text(m["__REALTIME_TIMESTAMP"@])) == Some(
                row.timestamp.micros,
            )
            &&& row.record@.map_values(|p: (String, String)| (p.0@, p.1@)) == spec_record(fs)
        },
        Result::Err(RowCreateError::MissingField { field }) => spec_first_missing(m) == Some(
            field@,
        ),
        Result::Err(RowCreateError::Unspecified { .. }) => {
            &&& m.contains_key("_TRANSPORT"@)
            &&& m.contains_key("_MACHINE_ID"@)
            &&& m.contains_key("_BOOT_ID"@)
            &&& m.contains_key("_HOSTNAME"@)
            &&& m.contains_key("__REALTIME_TIMESTAMP"@)
            &&& spec_parse_i64(spec_value_text(m["__REALTIME_TIMESTAMP"@])) is None
        },
    }
}

impl LogRecordRow {
    /// Project an entry to a row, consuming it. Each of the six
    /// distinguished fields must be present; the realtime timestamp must
    /// be a decimal integer in range. The record carries every remaining
    /// field but the ignored ones, in entry order.
    pub fn try_from_entry(entry: JournalEntry) -> (r: Result<LogRecordRow, RowCreateError>)
        requires
            entry.wf(),
        ensures
            spec_row_result(entry@, entry.fields_seq(), r),
    {
        let mut entry = entry;
        proof {
            lemma_required_keys_distinct();
        }
        let ghost fs0 = entry.fields_seq();
        let transport = match entry.take_text("_TRANSPORT") {
            Option::Some(s) => s,
            Option::None => {
                return Result::Err(RowCreateError::missing_field("_TRANSPORT"));
            },
        };
        proof {
            lemma_taken(fs0, entry.fields_seq(), "_TRANSPORT"@);
        }
        let ghost fs1 = entry.fields_seq();
        let machine_id = match entry.take_text("_MACHINE_ID") {
            Option::Some(s) => s,
            Option::None => {
                return Result::Err(RowCreateError::missing_field("_MACHINE_ID"));
            },
        };
        proof {
            lemma_taken(fs1, entry.fields_seq(), "_MACHINE_ID"@);
        }
        let ghost fs2 = entry.fields_seq();
        let boot_id = match entry.take_text("_BOOT_ID") {
            Option::Some(s) => s,
            Option::None => {
                return Result::Err(RowCreateError::missing_field("_BOOT_ID"));
            },
        };
        proof {
            lemma_taken(fs2, entry.fields_seq(), "_BOOT_ID"@);
        }
        let ghost fs3 = entry.fields_seq();
        let hostname = match entry.take_text("_HOSTNAME") {
            Option::Some(s) => s,
            Option::None => {
                return Result::Err(RowCreateError::missing_field("_HOSTNAME"));
            },
        };
        proof {
            lemma_taken(fs3, entry.fields_seq(), "_HOSTNAME"@);
        }
        let ghost fs4 = entry.fields_seq();
        let timestamp = match entry.take_realtime_timestamp() {
            Option::Some(Result::Ok(ts)) => ts,
            Option::Some(Result::Err(_)) => {
                return Result::Err(
                    RowCreateError::Unspecified {
                        cause: "the realtime timestamp is not a decimal integer in range".to_owned(),
                    },
                );
            },
            Option::None => {
                return Result::Err(RowCreateError::missing_field("__REALTIME_TIMESTAMP"));
            },
        };
        proof {
            lemma_taken(fs4, entry.fields_seq(), "__REALTIME_TIMESTAMP"@);
        }
        let ghost fs5 = entry.fields_seq();
        let cursor = match entry.take_text("__CURSOR") {
            Option::Some(s) => s,
            Option::None => {
                return Result::Err(RowCreateError::missing_field("__CURSOR"));
            },
        };
        proof {
            lemma_taken(fs5, entry.fields_seq(), "__CURSOR"@);
        }
        let ghost fs6 = entry.fields_seq();
        assert(spec_record(fs6) == spec_record(fs0));
        let fields = entry.into_fields();
        let ghost fviews = fields@.map_values(|f: crate::field::JournalField| (f.key@, f.value@));
        let mut record: Vec<(String, String)> = Vec::new();
        let mut i: usize = 0;
        proof {
            assert(fviews.subrange(0, 0) =~= Seq::<(Seq<char>, ValueView)>::empty());
            assert(spec_record(fviews.subrange(0, 0)) =~= Seq::<(Seq<char>, Seq<char>)>::empty());
            assert(record@.map_values(|p: (String, String)| (p.0@, p.1@)) =~= Seq::<
                (Seq<char>, Seq<char>),
            >::empty());
        }
        while i < fields.len()
            invariant
                0 <= i <= fields@.len(),
                fviews == fields@.map_values(
                    |f: crate::field::JournalField| (f.key@, f.value@),
                ),
                record@.map_values(|p: (String, String)| (p.0@, p.1@)) == spec_record(
                    fviews.subrange(0, i as int),
                ),
            decreases fields@.len() - i,
        {
            let f = &fields[i];
            proof {
                lemma_record_step(fviews, i as int);
            }
            if !is_ignored(f.key.as_str()) {
                let ghost before = record@.map_values(|p: (String, String)| (p.0@, p.1@));
                let text = f.value.as_string();
                let key = f.key.clone();
                record.push((key, text));
                proof {
                    assert(record@.map_values(|p: (String, String)| (p.0@, p.1@)) =~= before.push(
                        (fviews[i as int].0, spec_value_text(fviews[i as int].1)),
                    ));
                }
            }
            i += 1;
        }
        proof {
            assert(fviews.subrange(0, fviews.len() as int) =~= fviews);
        }
        Result::Ok(
            LogRecordRow { machine_id, boot_id, timestamp, hostname, transport, cursor, record },
        )
    }
}

// After a take of an ignored key, the record of the remaining fields is
// the record of the fields before the removal.
proof fn lemma_taken(before: Seq<(Seq<char>, ValueView)>, after: Seq<(Seq<char>, ValueView)>, key: Seq<char>)
    requires
        is_ignored_key(key),
        exists|i: int|
            0 <= i < before.len() && (#[trigger] before[i]).0 == key && after == before.remove(i),
    ensures
        spec_record(after) == spec_record(before),
{
    let i = choose|i: int|
        0 <= i < before.len() && (#[trigger] before[i]).0 == key && after == before.remove(i);
    lemma_record_remove_ignored(before, i);
}

} // verus!
