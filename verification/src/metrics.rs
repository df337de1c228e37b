//! Ingest metrics, modeled as labeled counters and gauges. The process
//! around the library copies them into its metrics registry when it
//! reports; the library itself only keeps the numbers.

use vstd::prelude::*;
use crate::entry::{fields_map, lemma_fields_map_contains, lemma_fields_map_update,
    lemma_fields_map_value, unique_keys};
use crate::text::str_eq;
use crate::timestamp::{spec_millis_of_micros, TimestampMicros};

verus! {

/// A map from label to value, with unique labels.
#[derive(Debug)]
pub struct LabelMap<V> {
    items: Vec<(String, V)>,
}

impl<V: Copy> View for LabelMap<V> {
    type V = Map<Seq<char>, V>;

    open spec fn view(&self) -> Map<Seq<char>, V> {
        fields_map(self.entries())
    }
}

impl<V: Copy> LabelMap<V> {
    /// The labeled values, in insertion order.
    pub closed spec fn entries(&self) -> Seq<(Seq<char>, V)> {
        self.items@.map_values(|p: (String, V)| (p.0@, p.1))
    }

    /// Well-formed: no label repeats.
    pub closed spec fn wf(&self) -> bool {
        unique_keys(self.entries())
    }

    /// An empty map.
    pub fn new() -> (r: Self)
        ensures
            r.wf(),
            r@ == Map::<Seq<char>, V>::empty(),
    {
        let r = LabelMap { items: Vec::new() };
        proof {
            assert(r.entries() =~= Seq::<(Seq<char>, V)>::empty());
        }
        r
    }

    fn find(&self, label: &str) -> (r: Option<usize>)
        ensures
            match r {
                Option::Some(i) => 0 <= i < self.entries().len() && self.entries()[i as int].0
                    == label@,
                Option::None => forall|j: int|
                    0 <= j < self.entries().len() ==> (#[trigger] self.entries()[j]).0 != label@,
            },
    {
        let mut i: usize = 0;
        while i < self.items.len()
            invariant
                0 <= i <= self.items@.len(),
                forall|j: int| 0 <= j < i ==> (#[trigger] self.entries()[j]).0 != label@,
            decreases self.items@.len() - i,
        {
            if str_eq(self.items[i].0.as_str(), label) {
                return Some(i);
            }
            i += 1;
        }
        None
    }

    /// The value at a label, if any.
    pub fn get(&self, label: &str) -> (r: Option<V>)
        requires
            self.wf(),
        ensures
            match r {
                Option::Some(v) => self@.contains_key(label@) && v == self@[label@],
                Option::None => !self@.contains_key(label@),
            },
    {
        proof {
            lemma_fields_map_contains(self.entries(), label@);
        }
        match self.find(label) {
            Option::Some(i) => {
                proof {
                    lemma_fields_map_value(self.entries(), i as int);
                }
                Some(self.items[i].1)
            },
            Option::None => None,
        }
    }

    /// Set the value at a label.
    pub fn set(&mut self, label: &str, v: V)
        requires
            old(self).wf(),
        ensures
            final(self).wf(),
            final(self)@ == old(self)@.insert(label@, v),
    {
        let ghost es = self.entries();
        proof {
            lemma_fields_map_contains(es, label@);
        }
        match self.find(label) {
            Option::Some(i) => {
                self.items.remove(i);
                self.items.insert(i, (label.to_owned(), v));
                proof {
                    assert(self.entries() =~= es.update(i as int, (es[i as int].0, v)));
                    lemma_fields_map_update(es, i as int, v);
                    assert forall|a: int, b: int|
                        0 <= a < b < self.entries().len() implies self.entries()[a].0
                        != self.entries()[b].0 by {
                        assert(self.entries()[a].0 == es[a].0);
                        assert(self.entries()[b].0 == es[b].0);
                    }
                }
            },
            Option::None => {
                self.items.push((label.to_owned(), v));
                proof {
                    assert(self.entries() =~= es.push((label@, v)));
                    assert(self.entries().drop_last() =~= es);
                    assert forall|a: int, b: int|
                        0 <= a < b < self.entries().len() implies self.entries()[a].0
                        != self.entries()[b].0 by {
                        if b < es.len() {
                            assert(es[a].0 != es[b].0);
                        } else {
                            assert(self.entries()[b].0 == label@);
                            assert(es[a].0 != label@);
                        }
                    }
                }
            },
        }
    }
}

/// A label's count after one more observation; the count pins at the
/// largest representable value rather than wrap.
pub open spec fn spec_count_after_inc(m: Map<Seq<char>, u64>, k: Seq<char>) -> u64 {
    if m.contains_key(k) {
        if m[k] < u64::MAX {
            (m[k] + 1) as u64
        } else {
            u64::MAX
        }
    } else {
        1u64
    }
}

/// The ingest metrics: per-hostname counters and gauges, and the last
/// observed field-parse time.
#[derive(Debug)]
pub struct Metrics {
    processed: LabelMap<u64>,
    unprocessable: LabelMap<u64>,
    last_received_ms: LabelMap<i64>,
    parse_time_count: u64,
    parse_time_last_micros: u64,
}

impl Metrics {
    pub closed spec fn wf(&self) -> bool {
        self.processed.wf() && self.unprocessable.wf() && self.last_received_ms.wf()
    }

    /// Entries processed, by hostname.
    pub closed spec fn processed_counts(&self) -> Map<Seq<char>, u64> {
        self.processed@
    }

    /// Entries that could not be processed, by hostname.
    pub closed spec fn unprocessable_counts(&self) -> Map<Seq<char>, u64> {
        self.unprocessable@
    }

    /// Last received entry timestamp in milliseconds, by hostname.
    pub closed spec fn last_received_millis(&self) -> Map<Seq<char>, i64> {
        self.last_received_ms@
    }

    /// How many parse times were observed.
    pub closed spec fn parse_time_observations(&self) -> u64 {
        self.parse_time_count
    }

    /// The last observed parse time, in microseconds.
    pub closed spec fn last_parse_time(&self) -> u64 {
        self.parse_time_last_micros
    }

    /// Fresh metrics, all zero.
    pub fn new() -> (r: Self)
        ensures
            r.wf(),
            r.processed_counts() == Map::<Seq<char>, u64>::empty(),
            r.unprocessable_counts() == Map::<Seq<char>, u64>::empty(),
            r.last_received_millis() == Map::<Seq<char>, i64>::empty(),
            r.parse_time_observations() == 0,
            r.last_parse_time() == 0,
    {
        Metrics {
            processed: LabelMap::new(),
            unprocessable: LabelMap::new(),
            last_received_ms: LabelMap::new(),
            parse_time_count: 0,
            parse_time_last_micros: 0,
        }
    }

    /// The processed count for a hostname; zero when never counted.
    pub fn processed_count(&self, hostname: &str) -> (r: u64)
        requires
            self.wf(),
        ensures
            r == if self.processed_counts().contains_key(hostname@) {
                self.processed_counts()[hostname@]
            } else {
                0u64
            },
    {
        match self.processed.get(hostname) {
            Option::Some(v) => v,
            Option::None => 0,
        }
    }

    /// The unprocessable count for a hostname; zero when never counted.
    pub fn unprocessable_count(&self, hostname: &str) -> (r: u64)
        requires
            self.wf(),
        ensures
            r == if self.unprocessable_counts().contains_key(hostname@) {
                self.unprocessable_counts()[hostname@]
            } else {
                0u64
            },
    {
        match self.unprocessable.get(hostname) {
            Option::Some(v) => v,
            Option::None => 0,
        }
    }

    /// The last received entry timestamp for a hostname, in milliseconds.
    pub fn last_received_for(&self, hostname: &str) -> (r: Option<i64>)
        requires
            self.wf(),
        ensures
            match r {
                Option::Some(ms) => self.last_received_millis().contains_key(hostname@) && ms
                    == self.last_received_millis()[hostname@],
                Option::None => !self.last_received_millis().contains_key(hostname@),
            },
    {
        self.last_received_ms.get(hostname)
    }

    /// The last observed parse time in microseconds, with the number of
    /// observations.
    pub fn parse_time(&self) -> (r: (u64, u64))
        ensures
            r.0 == self.last_parse_time(),
            r.1 == self.parse_time_observations(),
    {
        (self.parse_time_last_micros, self.parse_time_count)
    }
}

/// Count one processed entry for `hostname`.
pub fn inc_log_entries_processed(m: &mut Metrics, hostname: &str)
    requires
        old(m).wf(),
    ensures
        final(m).wf(),
        final(m).processed_counts() == old(m).processed_counts().insert(
            hostname@,
            spec_count_after_inc(old(m).processed_counts(), hostname@),
        ),
        final(m).unprocessable_counts() == old(m).unprocessable_counts(),
        final(m).last_received_millis() == old(m).last_received_millis(),
        final(m).parse_time_observations() == old(m).parse_time_observations(),
        final(m).last_parse_time() == old(m).last_parse_time(),
{
    let next = match m.processed.get(hostname) {
        Option::Some(v) => if v < u64::MAX {
            v + 1
        } else {
            v
        },
        Option::None => 1,
    };
    m.processed.set(hostname, next);
}

/// Count one entry that could not be processed, for `hostname` (or for
/// the label `unknown` when the entry had no hostname).
pub fn inc_log_entries_unprocessed(m: &mut Metrics, hostname: &str)
    requires
        old(m).wf(),
    ensures
        final(m).wf(),
        final(m).unprocessable_counts() == old(m).unprocessable_counts().insert(
            hostname@,
            spec_count_after_inc(old(m).unprocessable_counts(), hostname@),
        ),
        final(m).processed_counts() == old(m).processed_counts(),
        final(m).last_received_millis() == old(m).last_received_millis(),
        final(m).parse_time_observations() == old(m).parse_time_observations(),
        final(m).last_parse_time() == old(m).last_parse_time(),
{
    let next = match m.unprocessable.get(hostname) {
        Option::Some(v) => if v < u64::MAX {
            v + 1
        } else {
            v
        },
        Option::None => 1,
    };
    m.unprocessable.set(hostname, next);
}

/// Record the timestamp of the entry just received for `hostname`, as
/// milliseconds since the epoch.
pub fn set_last_received_entry_timestamp(m: &mut Metrics, hostname: &str, ts: TimestampMicros)
    requires
        old(m).wf(),
    ensures
        final(m).wf(),
        final(m).last_received_millis() == old(m).last_received_millis().insert(
            hostname@,
            spec_millis_of_micros(ts.micros as int) as i64,
        ),
        final(m).processed_counts() == old(m).processed_counts(),
        final(m).unprocessable_counts() == old(m).unprocessable_counts(),
        final(m).parse_time_observations() == old(m).parse_time_observations(),
        final(m).last_parse_time() == old(m).last_parse_time(),
{
    let ms = ts.as_millis();
    m.last_received_ms.set(hostname, ms);
}

/// Record how long the last field parse took, in microseconds.
pub fn set_last_entry_parse_time(m: &mut Metrics, micros: u64)
    requires
        old(m).wf(),
    ensures
        final(m).wf(),
        final(m).last_parse_time() == micros,
        final(m).parse_time_observations() == if old(m).parse_time_observations() < u64::MAX {
            (old(m).parse_time_observations() + 1) as u64
        } else {
            u64::MAX
        },
        final(m).processed_counts() == old(m).processed_counts(),
        final(m).unprocessable_counts() == old(m).unprocessable_counts(),
        final(m).last_received_millis() == old(m).last_received_millis(),
{
    m.parse_time_last_micros = micros;
    if m.parse_time_count < u64::MAX {
        m.parse_time_count = m.parse_time_count + 1;
    }
}

} // verus!
