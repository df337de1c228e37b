//! A journal entry: a mapping from field keys to field values, built up
//! in insertion order while an entry is parsed.

use vstd::prelude::*;
use crate::decimal::{parse_i64, spec_parse_i64};
use crate::field::{spec_value_text, JournalField, JournalFieldValue, ValueView};
use crate::text::str_eq;
use crate::timestamp::{TimestampMicros, TimestampParseError};

verus! {

/// The mapping denoted by a sequence of keyed values: a later value for
/// the same key wins.
pub open spec fn fields_map<V>(fs: Seq<(Seq<char>, V)>) -> Map<Seq<char>, V>
    decreases fs.len(),
{
    if fs.len() == 0 {
        Map::empty()
    } else {
        fields_map(fs.drop_last()).insert(fs.last().0, fs.last().1)
    }
}

/// No key occurs twice.
pub open spec fn unique_keys<V>(fs: Seq<(Seq<char>, V)>) -> bool {
    forall|i: int, j: int| 0 <= i < j < fs.len() ==> fs[i].0 != fs[j].0
}

/// A key is in the mapping exactly when some element carries it.
pub proof fn lemma_fields_map_contains<V>(fs: Seq<(Seq<char>, V)>, k: Seq<char>)
    ensures
        fields_map(fs).contains_key(k) <==> exists|i: int| 0 <= i < fs.len() && fs[i].0 == k,
    decreases fs.len(),
{
    if fs.len() > 0 {
        let prefix = fs.drop_last();
        lemma_fields_map_contains(prefix, k);
        assert(forall|i: int| 0 <= i < prefix.len() ==> prefix[i] == fs[i]);
        if exists|i: int| 0 <= i < fs.len() && fs[i].0 == k {
            let i = choose|i: int| 0 <= i < fs.len() && fs[i].0 == k;
            if i < fs.len() - 1 {
                assert(prefix[i].0 == k);
            }
        }
        if fields_map(fs).contains_key(k) && k != fs.last().0 {
            let i = choose|i: int| 0 <= i < prefix.len() && prefix[i].0 == k;
            assert(fs[i].0 == k);
        }
    }
}

/// With unique keys, the mapping holds each element's value at its key.
pub proof fn lemma_fields_map_value<V>(fs: Seq<(Seq<char>, V)>, i: int)
    requires
        unique_keys(fs),
        0 <= i < fs.len(),
    ensures
        fields_map(fs).contains_key(fs[i].0),
        fields_map(fs)[fs[i].0] == fs[i].1,
    decreases fs.len(),
{
    let prefix = fs.drop_last();
    assert(forall|j: int| 0 <= j < prefix.len() ==> prefix[j] == fs[j]);
    if i < fs.len() - 1 {
        lemma_fields_map_value(prefix, i);
        assert(fs[i].0 != fs.last().0);
    }
}

/// With unique keys, replacing the value at one index updates the mapping
/// at that element's key.
pub proof fn lemma_fields_map_update<V>(fs: Seq<(Seq<char>, V)>, i: int, v: V)
    requires
        unique_keys(fs),
        0 <= i < fs.len(),
    ensures
        fields_map(fs.update(i, (fs[i].0, v))) == fields_map(fs).insert(fs[i].0, v),
    decreases fs.len(),
{
    let k = fs[i].0;
    let prefix = fs.drop_last();
    let upd = fs.update(i, (k, v));
    assert(forall|j: int| 0 <= j < prefix.len() ==> prefix[j] == fs[j]);
    if i == fs.len() - 1 {
        assert(upd.drop_last() =~= prefix);
        assert(fields_map(prefix).insert(k, fs.last().1).insert(k, v) =~= fields_map(
            prefix,
        ).insert(k, v));
    } else {
        assert(upd.drop_last() =~= prefix.update(i, (k, v)));
        lemma_fields_map_update(prefix, i, v);
        assert(fs[i].0 != fs.last().0);
        assert(fields_map(prefix).insert(k, v).insert(fs.last().0, fs.last().1) =~= fields_map(
            prefix,
        ).insert(fs.last().0, fs.last().1).insert(k, v));
    }
}

/// With unique keys, removing one element removes its key from the
/// mapping.
pub proof fn lemma_fields_map_remove<V>(fs: Seq<(Seq<char>, V)>, i: int)
    requires
        unique_keys(fs),
        0 <= i < fs.len(),
    ensures
        fields_map(fs.remove(i)) == fields_map(fs).remove(fs[i].0),
    decreases fs.len(),
{
    let k = fs[i].0;
    let prefix = fs.drop_last();
    assert(forall|j: int| 0 <= j < prefix.len() ==> prefix[j] == fs[j]);
    if i == fs.len() - 1 {
        assert(fs.remove(i) =~= prefix);
        lemma_fields_map_contains(prefix, k);
        assert(forall|j: int| 0 <= j < prefix.len() ==> prefix[j].0 != k);
        assert(!fields_map(prefix).contains_key(k));
        assert(fields_map(prefix).insert(k, fs.last().1).remove(k) =~= fields_map(prefix));
    } else {
        assert(fs.remove(i).drop_last() =~= prefix.remove(i));
        assert(fs.remove(i).last() == fs.last());
        lemma_fields_map_remove(prefix, i);
        assert(fs[i].0 != fs.last().0);
        assert(fields_map(prefix).remove(k).insert(fs.last().0, fs.last().1) =~= fields_map(
            prefix,
        ).insert(fs.last().0, fs.last().1).remove(k));
    }
}

/// A journal entry under construction or in flight: its fields, in
/// insertion order, with unique keys.
#[derive(Debug)]
pub struct JournalEntry {
    fields: Vec<JournalField>,
}

impl View for JournalEntry {
    type V = Map<Seq<char>, ValueView>;

    open spec fn view(&self) -> Map<Seq<char>, ValueView> {
        fields_map(self.fields_seq())
    }
}

impl JournalEntry {
    /// The keyed values in insertion order.
    pub closed spec fn fields_seq(&self) -> Seq<(Seq<char>, ValueView)> {
        self.fields@.map_values(|f: JournalField| (f.key@, f.value@))
    }

    /// Surrender the fields, in insertion order.
    pub fn into_fields(self) -> (r: Vec<JournalField>)
        ensures
            r@.map_values(|f: JournalField| (f.key@, f.value@)) == self.fields_seq(),
    {
        self.fields
    }

    /// Well-formed: no key repeats.
    pub open spec fn wf(&self) -> bool {
        unique_keys(self.fields_seq())
    }

    /// An empty entry.
    pub fn new() -> (r: Self)
        ensures
            r.wf(),
            r@ == Map::<Seq<char>, ValueView>::empty(),
            r.fields_seq() == Seq::<(Seq<char>, ValueView)>::empty(),
    {
        let r = JournalEntry { fields: Vec::with_capacity(16) };
        proof {
            assert(r.fields_seq() =~= Seq::<(Seq<char>, ValueView)>::empty());
        }
        r
    }

    /// The number of fields.
    pub fn len(&self) -> (r: usize)
        ensures
            r == self.fields_seq().len(),
    {
        self.fields.len()
    }

    fn find_key(&self, key: &str) -> (r: Option<usize>)
        ensures
            match r {
                Option::Some(i) => 0 <= i < self.fields_seq().len() && self.fields_seq()[
                    i as int
                ].0 == key@,
                Option::None => forall|j: int|
                    0 <= j < self.fields_seq().len() ==> (#[trigger] self.fields_seq()[j]).0
                        != key@,
            },
    {
        let mut i: usize = 0;
        while i < self.fields.len()
            invariant
                0 <= i <= self.fields@.len(),
                forall|j: int|
                    0 <= j < i ==> (#[trigger] self.fields_seq()[j]).0 != key@,
            decreases self.fields@.len() - i,
        {
            if str_eq(self.fields[i].key.as_str(), key) {
                return Some(i);
            }
            i += 1;
        }
        None
    }

    /// Insert a field; a value already at that key is replaced. Returns
    /// whether the key was present.
    pub fn put(&mut self, key: String, value: JournalFieldValue) -> (had: bool)
        requires
            old(self).wf(),
        ensures
            final(self).wf(),
            final(self)@ == old(self)@.insert(key@, value@),
            had == old(self)@.contains_key(key@),
            !had ==> final(self).fields_seq() == old(self).fields_seq().push((key@, value@)),
    {
        let ghost fs = self.fields_seq();
        proof {
            lemma_fields_map_contains(fs, key@);
        }
        match self.find_key(key.as_str()) {
            Option::Some(i) => {
                let ghost v = value@;
                self.fields.remove(i);
                self.fields.insert(i, JournalField { key, value });
                proof {
                    assert(self.fields_seq() =~= fs.update(i as int, (fs[i as int].0, v)));
                    lemma_fields_map_update(fs, i as int, v);
                    assert forall|a: int, b: int|
                        0 <= a < b < self.fields_seq().len() implies self.fields_seq()[a].0
                        != self.fields_seq()[b].0 by {
                        assert(self.fields_seq()[a].0 == fs[a].0);
                        assert(self.fields_seq()[b].0 == fs[b].0);
                    }
                }
                true
            },
            Option::None => {
                self.fields.push(JournalField { key, value });
                proof {
                    assert(self.fields_seq() =~= fs.push((key@, value@)));
                    assert(self.fields_seq().drop_last() =~= fs);
                    assert forall|a: int, b: int|
                        0 <= a < b < self.fields_seq().len() implies self.fields_seq()[a].0
                        != self.fields_seq()[b].0 by {
                        if b < fs.len() {
                            assert(fs[a].0 != fs[b].0);
                        } else {
                            assert(self.fields_seq()[b].0 == key@);
                            assert(fs[a].0 != key@);
                        }
                    }
                }
                false
            },
        }
    }

    /// Borrow the value at a key.
    pub fn get(&self, key: &str) -> (r: Option<&JournalFieldValue>)
        requires
            self.wf(),
        ensures
            match r {
                Option::Some(v) => self@.contains_key(key@) && v@ == self@[key@],
                Option::None => !self@.contains_key(key@),
            },
    {
        proof {
            lemma_fields_map_contains(self.fields_seq(), key@);
        }
        match self.find_key(key) {
            Option::Some(i) => {
                proof {
                    lemma_fields_map_value(self.fields_seq(), i as int);
                }
                Some(&self.fields[i].value)
            },
            Option::None => None,
        }
    }

    /// Remove and return the value at a key.
    pub fn take(&mut self, key: &str) -> (r: Option<JournalFieldValue>)
        requires
            old(self).wf(),
        ensures
            final(self).wf(),
            match r {
                Option::Some(v) => {
                    &&& old(self)@.contains_key(key@)
                    &&& v@ == old(self)@[key@]
                    &&& final(self)@ == old(self)@.remove(key@)
                    &&& exists|i: int|
                        0 <= i < old(self).fields_seq().len() && (#[trigger] old(
                            self,
                        ).fields_seq()[i]).0 == key@ && final(self).fields_seq() == old(
                            self,
                        ).fields_seq().remove(i)
                },
                Option::None => {
                    &&& !old(self)@.contains_key(key@)
                    &&& final(self)@ == old(self)@
                    &&& final(self).fields_seq() == old(self).fields_seq()
                },
            },
    {
        let ghost fs = self.fields_seq();
        proof {
            lemma_fields_map_contains(fs, key@);
        }
        match self.find_key(key) {
            Option::Some(i) => {
                proof {
                    lemma_fields_map_value(fs, i as int);
                    lemma_fields_map_remove(fs, i as int);
                }
                let f = self.fields.remove(i);
                proof {
                    assert(self.fields_seq() =~= fs.remove(i as int));
                    assert forall|a: int, b: int|
                        0 <= a < b < self.fields_seq().len() implies self.fields_seq()[a].0
                        != self.fields_seq()[b].0 by {
                        let a0 = if a < i { a } else { a + 1 };
                        let b0 = if b < i { b } else { b + 1 };
                        assert(self.fields_seq()[a].0 == fs[a0].0);
                        assert(self.fields_seq()[b].0 == fs[b0].0);
                    }
                }
                Some(f.value)
            },
            Option::None => None,
        }
    }
}

impl JournalEntry {
    /// Remove the value at `key` and return it as row text.
    pub fn take_text(&mut self, key: &str) -> (r: Option<String>)
        requires
            old(self).wf(),
        ensures
            final(self).wf(),
            match r {
                Option::Some(s) => {
                    &&& old(self)@.contains_key(key@)
                    &&& s@ == spec_value_text(old(self)@[key@])
                    &&& final(self)@ == old(self)@.remove(key@)
                    &&& exists|i: int|
                        0 <= i < old(self).fields_seq().len() && (#[trigger] old(
                            self,
                        ).fields_seq()[i]).0 == key@ && final(self).fields_seq() == old(
                            self,
                        ).fields_seq().remove(i)
                },
                Option::None => {
                    &&& !old(self)@.contains_key(key@)
                    &&& final(self)@ == old(self)@
                    &&& final(self).fields_seq() == old(self).fields_seq()
                },
            },
    {
        match self.take(key) {
            Option::Some(v) => Some(v.as_string()),
            Option::None => None,
        }
    }

    /// The value at `key` as row text, without removing it.
    pub fn get_text(&self, key: &str) -> (r: Option<String>)
        requires
            self.wf(),
        ensures
            match r {
                Option::Some(s) => self@.contains_key(key@) && s@ == spec_value_text(self@[key@]),
                Option::None => !self@.contains_key(key@),
            },
    {
        match self.get(key) {
            Option::Some(v) => Some(v.as_string()),
            Option::None => None,
        }
    }

    /// The transport field as text.
    pub fn transport(&self) -> (r: Option<String>)
        requires
            self.wf(),
        ensures
            match r {
                Option::Some(s) => self@.contains_key("_TRANSPORT"@) && s@ == spec_value_text(
                    self@["_TRANSPORT"@],
                ),
                Option::None => !self@.contains_key("_TRANSPORT"@),
            },
    {
        self.get_text("_TRANSPORT")
    }

    /// Remove and return the transport field as text.
    pub fn take_transport(&mut self) -> (r: Option<String>)
        requires
            old(self).wf(),
        ensures
            final(self).wf(),
            match r {
                Option::Some(s) => {
                    &&& old(self)@.contains_key("_TRANSPORT"@)
                    &&& s@ == spec_value_text(old(self)@["_TRANSPORT"@])
                    &&& final(self)@ == old(self)@.remove("_TRANSPORT"@)
                },
                Option::None => !old(self)@.contains_key("_TRANSPORT"@) && final(self)@ == old(
                    self,
                )@,
            },
    {
        self.take_text("_TRANSPORT")
    }

    /// The hostname field as text.
    pub fn hostname(&self) -> (r: Option<String>)
        requires
            self.wf(),
        ensures
            match r {
                Option::Some(s) => self@.contains_key("_HOSTNAME"@) && s@ == spec_value_text(
                    self@["_HOSTNAME"@],
                ),
                Option::None => !self@.contains_key("_HOSTNAME"@),
            },
    {
        self.get_text("_HOSTNAME")
    }

    /// Remove and return the hostname field as text.
    pub fn take_hostname(&mut self) -> (r: Option<String>)
        requires
            old(self).wf(),
        ensures
            final(self).wf(),
            match r {
                Option::Some(s) => {
                    &&& old(self)@.contains_key("_HOSTNAME"@)
                    &&& s@ == spec_value_text(old(self)@["_HOSTNAME"@])
                    &&& final(self)@ == old(self)@.remove("_HOSTNAME"@)
                },
                Option::None => !old(self)@.contains_key("_HOSTNAME"@) && final(self)@ == old(
                    self,
                )@,
            },
    {
        self.take_text("_HOSTNAME")
    }

    /// The machine id field as text.
    pub fn machine_id(&self) -> (r: Option<String>)
        requires
            self.wf(),
        ensures
            match r {
                Option::Some(s) => self@.contains_key("_MACHINE_ID"@) && s@ == spec_value_text(
                    self@["_MACHINE_ID"@],
                ),
                Option::None => !self@.contains_key("_MACHINE_ID"@),
            },
    {
        self.get_text("_MACHINE_ID")
    }

    /// Remove and return the machine id field as text.
    pub fn take_machine_id(&mut self) -> (r: Option<String>)
        requires
            old(self).wf(),
        ensures
            final(self).wf(),
            match r {
                Option::Some(s) => {
                    &&& old(self)@.contains_key("_MACHINE_ID"@)
                    &&& s@ == spec_value_text(old(self)@["_MACHINE_ID"@])
                    &&& final(self)@ == old(self)@.remove("_MACHINE_ID"@)
                },
                Option::None => !old(self)@.contains_key("_MACHINE_ID"@) && final(self)@ == old(
                    self,
                )@,
            },
    {
        self.take_text("_MACHINE_ID")
    }

    /// The boot id field as text.
    pub fn boot_id(&self) -> (r: Option<String>)
        requires
            self.wf(),
        ensures
            match r {
                Option::Some(s) => self@.contains_key("_BOOT_ID"@) && s@ == spec_value_text(
                    self@["_BOOT_ID"@],
                ),
                Option::None => !self@.contains_key("_BOOT_ID"@),
            },
    {
        self.get_text("_BOOT_ID")
    }

    /// Remove and return the boot id field as text.
    pub fn take_boot_id(&mut self) -> (r: Option<String>)
        requires
            old(self).wf(),
        ensures
            final(self).wf(),
            match r {
                Option::Some(s) => {
                    &&& old(self)@.contains_key("_BOOT_ID"@)
                    &&& s@ == spec_value_text(old(self)@["_BOOT_ID"@])
                    &&& final(self)@ == old(self)@.remove("_BOOT_ID"@)
                },
                Option::None => !old(self)@.contains_key("_BOOT_ID"@) && final(self)@ == old(
                    self,
                )@,
            },
    {
        self.take_text("_BOOT_ID")
    }

    /// The cursor field as text.
    pub fn cursor(&self) -> (r: Option<String>)
        requires
            self.wf(),
        ensures
            match r {
                Option::Some(s) => self@.contains_key("__CURSOR"@) && s@ == spec_value_text(
                    self@["__CURSOR"@],
                ),
                Option::None => !self@.contains_key("__CURSOR"@),
            },
    {
        self.get_text("__CURSOR")
    }

    /// Remove and return the cursor field as text.
    pub fn take_cursor(&mut self) -> (r: Option<String>)
        requires
            old(self).wf(),
        ensures
            final(self).wf(),
            match r {
                Option::Some(s) => {
                    &&& old(self)@.contains_key("__CURSOR"@)
                    &&& s@ == spec_value_text(old(self)@["__CURSOR"@])
                    &&& final(self)@ == old(self)@.remove("__CURSOR"@)
                },
                Option::None => !old(self)@.contains_key("__CURSOR"@) && final(self)@ == old(
                    self,
                )@,
            },
    {
        self.take_text("__CURSOR")
    }

    /// The realtime timestamp field, parsed: decimal microseconds since
    /// the epoch.
    pub fn realtime_timestamp(&self) -> (r: Option<
        Result<TimestampMicros, TimestampParseError>,
    >)
        requires
            self.wf(),
        ensures
            match r {
                Option::Some(parsed) => {
                    &&& self@.contains_key("__REALTIME_TIMESTAMP"@)
                    &&& match parsed {
                        Result::Ok(ts) => spec_parse_i64(
                            spec_value_text(self@["__REALTIME_TIMESTAMP"@]),
                        ) == Some(ts.micros),
                        Result::Err(_) => spec_parse_i64(
                            spec_value_text(self@["__REALTIME_TIMESTAMP"@]),
                        ) is None,
                    }
                },
                Option::None => !self@.contains_key("__REALTIME_TIMESTAMP"@),
            },
    {
        match self.get_text("__REALTIME_TIMESTAMP") {
            Option::Some(s) => match parse_i64(s.as_str()) {
                Option::Some(micros) => Some(Result::Ok(TimestampMicros { micros })),
                Option::None => Some(Result::Err(TimestampParseError)),
            },
            Option::None => None,
        }
    }

    /// Remove the realtime timestamp field and parse it: decimal
    /// microseconds since the epoch.
    pub fn take_realtime_timestamp(&mut self) -> (r: Option<
        Result<TimestampMicros, TimestampParseError>,
    >)
        requires
            old(self).wf(),
        ensures
            final(self).wf(),
            match r {
                Option::Some(parsed) => {
                    &&& old(self)@.contains_key("__REALTIME_TIMESTAMP"@)
                    &&& final(self)@ == old(self)@.remove("__REALTIME_TIMESTAMP"@)
                    &&& (exists|i: int|
                        0 <= i < old(self).fields_seq().len() && (#[trigger] old(
                            self,
                        ).fields_seq()[i]).0 == "__REALTIME_TIMESTAMP"@ && final(self).fields_seq()
                            == old(self).fields_seq().remove(i))
                    &&& match parsed {
                        Result::Ok(ts) => spec_parse_i64(
                            spec_value_text(old(self)@["__REALTIME_TIMESTAMP"@]),
                        ) == Some(ts.micros),
                        Result::Err(_) => spec_parse_i64(
                            spec_value_text(old(self)@["__REALTIME_TIMESTAMP"@]),
                        ) is None,
                    }
                },
                Option::None => {
                    &&& !old(self)@.contains_key("__REALTIME_TIMESTAMP"@)
                    &&& final(self)@ == old(self)@
                    &&& final(self).fields_seq() == old(self).fields_seq()
                },
            },
    {
        match self.take_text("__REALTIME_TIMESTAMP") {
            Option::Some(s) => match parse_i64(s.as_str()) {
                Option::Some(micros) => Some(Result::Ok(TimestampMicros { micros })),
                Option::None => Some(Result::Err(TimestampParseError)),
            },
            Option::None => None,
        }
    }
}

impl Default for JournalEntry {
    /// An empty entry.
    fn default() -> (r: Self)
        ensures
            r.wf(),
            r@ == Map::<Seq<char>, ValueView>::empty(),
            r.fields_seq() == Seq::<(Seq<char>, ValueView)>::empty(),
    {
        Self::new()
    }
}

} // verus!
