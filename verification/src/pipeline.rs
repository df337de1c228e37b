//! The per-entry decisions of the ingest pipeline's sink task. The task
//! itself — the channel, the select loop, the batching sink — runs
//! outside the library and calls in here for everything it decides.

use vstd::prelude::*;
use crate::entry::JournalEntry;
use crate::metrics::{inc_log_entries_processed, inc_log_entries_unprocessed,
    set_last_received_entry_timestamp, spec_count_after_inc, Metrics};
use crate::row::{spec_row_result, LogRecordRow, RowCreateError};
use crate::timestamp::{spec_millis_of_micros, TimestampMicros};

verus! {

/// Project one entry from the channel and account for the outcome as the
/// sink task does: a row counts as processed for its hostname and
/// updates the last-received gauge; an entry that yields no row counts
/// as unprocessable under the label `unknown`. The caller writes the
/// returned row to the batching sink.
pub fn process_entry(entry: JournalEntry, metrics: &mut Metrics) -> (r: Result<
    LogRecordRow,
    RowCreateError,
>)
    requires
        entry.wf(),
        old(metrics).wf(),
    ensures
        final(metrics).wf(),
        spec_row_result(entry@, entry.fields_seq(), r),
        match r {
            Result::Ok(row) => {
                &&& final(metrics).processed_counts() == old(metrics).processed_counts().insert(
                    row.hostname@,
                    spec_count_after_inc(old(metrics).processed_counts(), row.hostname@),
                )
                &&& final(metrics).last_received_millis() == old(
                    metrics,
                ).last_received_millis().insert(
                    row.hostname@,
                    spec_millis_of_micros(row.timestamp.micros as int) as i64,
                )
                &&& final(metrics).unprocessable_counts() == old(metrics).unprocessable_counts()
            },
            Result::Err(_) => {
                &&& final(metrics).unprocessable_counts() == old(
                    metrics,
                ).unprocessable_counts().insert(
                    "unknown"@,
                    spec_count_after_inc(old(metrics).unprocessable_counts(), "unknown"@),
                )
                &&& final(metrics).processed_counts() == old(metrics).processed_counts()
                &&& final(metrics).last_received_millis() == old(metrics).last_received_millis()
            },
        },
{
    match LogRecordRow::try_from_entry(entry) {
        Result::Ok(row) => {
            inc_log_entries_processed(metrics, row.hostname.as_str());
            set_last_received_entry_timestamp(metrics, row.hostname.as_str(), row.timestamp);
            Result::Ok(row)
        },
        Result::Err(e) => {
            inc_log_entries_unprocessed(metrics, "unknown");
            Result::Err(e)
        },
    }
}

/// Whether a freshly committed row is reported as lagging: the clock at
/// insert time reads at least six whole seconds past the row's own
/// timestamp (more than five seconds, in whole seconds).
pub fn lag_exceeds_five_seconds(now: TimestampMicros, row_ts: TimestampMicros) -> (r: bool)
    ensures
        r == (now.micros - row_ts.micros >= 6_000_000),
{
    let d: i128 = now.micros as i128 - row_ts.micros as i128;
    d >= 6_000_000
}

/// The entry channel's capacity: four slots per available processor.
pub fn channel_capacity(cpu_count: usize) -> (r: usize)
    requires
        cpu_count <= usize::MAX / 4,
    ensures
        r == 4 * cpu_count,
{
    4 * cpu_count
}

} // verus!
