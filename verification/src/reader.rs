//! The entry reader: it drives the field parser over an incrementally
//! filled buffer, groups fields into entries, and detects entry
//! boundaries (a lone line feed between entries).
//!
//! The reader asks for exactly as much further input as the parser
//! demands — one byte when the demand is unknown — so its buffer never
//! runs past an entry boundary.

use vstd::prelude::*;
use vstd::utf8::{decode_utf8, valid_utf8};
use crate::entry::JournalEntry;
use crate::field::ValueView;
use crate::parser::{is_field_encoding, parse_journal_field, slice_range_to_vec, Demand,
    FieldParse, ParseErrorKind, SpecDemand, SpecFieldParse, SpecRawValue, spec_parse_field};

verus! {

/// The view of a raw parsed value.
pub open spec fn raw_value_view(v: SpecRawValue) -> ValueView {
    match v {
        SpecRawValue::Text(t) => ValueView::Text(decode_utf8(t)),
        SpecRawValue::Binary(b) => ValueView::Binary(b),
    }
}

/// UTF-8 well-formedness of a raw field's key and text value.
pub open spec fn field_utf8_ok(key: Seq<u8>, v: SpecRawValue) -> bool {
    &&& valid_utf8(key)
    &&& match v {
        SpecRawValue::Text(t) => valid_utf8(t),
        SpecRawValue::Binary(_) => true,
    }
}

/// What reading a whole stream yields: the entries in input order, or
/// the first structural failure.
pub enum SpecReadResult {
    Entries(Seq<Map<Seq<char>, ValueView>>),
    Fail { kind: ParseErrorKind, offending: Seq<u8> },
}

/// One step of the reader loop over `input`: `pos` bytes have been read,
/// `buf` holds the bytes read but not yet consumed, `cur` is the entry
/// under construction, `out` the entries emitted so far. The parser runs
/// on the buffer; then the reader reads as much as was demanded.
pub open spec fn spec_drive(
    input: Seq<u8>,
    pos: int,
    buf: Seq<u8>,
    cur: Map<Seq<char>, ValueView>,
    out: Seq<Map<Seq<char>, ValueView>>,
) -> SpecReadResult
    decreases input.len() - pos, 1int,
    when 0 <= pos <= input.len()
{
    match spec_parse_field(buf) {
        SpecFieldParse::Done { consumed, key, value } => {
            if field_utf8_ok(key, value) {
                spec_drive_read(
                    input,
                    pos,
                    buf.subrange(consumed, buf.len() as int),
                    cur.insert(decode_utf8(key), raw_value_view(value)),
                    out,
                    1,
                )
            } else {
                SpecReadResult::Fail { kind: ParseErrorKind::Utf8, offending: buf }
            }
        },
        SpecFieldParse::Incomplete { demand } => spec_drive_read(
            input,
            pos,
            buf,
            cur,
            out,
            match demand {
                SpecDemand::Unknown => 1int,
                SpecDemand::Exact(n) => n,
            },
        ),
        SpecFieldParse::Fail { kind } => {
            if kind is Eof {
                if buf == seq![10u8] {
                    spec_drive_read(input, pos, Seq::empty(), Map::empty(), out.push(cur), 1)
                } else {
                    spec_drive_read(input, pos, buf, cur, out, 1)
                }
            } else {
                SpecReadResult::Fail { kind, offending: buf }
            }
        },
    }
}

/// Read up to `demand` further bytes, then parse again; a read that
/// yields nothing is the end of the stream.
pub open spec fn spec_drive_read(
    input: Seq<u8>,
    pos: int,
    buf: Seq<u8>,
    cur: Map<Seq<char>, ValueView>,
    out: Seq<Map<Seq<char>, ValueView>>,
    demand: int,
) -> SpecReadResult
    decreases input.len() - pos, 0int,
    when 0 <= pos <= input.len() && demand >= 1
{
    let grab = if demand <= input.len() - pos {
        demand
    } else {
        input.len() - pos
    };
    if grab == 0 {
        SpecReadResult::Entries(out)
    } else {
        spec_drive(input, pos + grab, buf + input.subrange(pos, pos + grab), cur, out)
    }
}

/// A byte sequence that encodes one whole entry: its fields one after
/// another, then the entry terminator.
pub open spec fn is_entry_encoding(s: Seq<u8>, fields: Seq<(Seq<u8>, SpecRawValue)>) -> bool
    decreases fields.len(),
{
    if fields.len() == 0 {
        s == seq![10u8]
    } else {
        exists|n: int|
            0 < n <= s.len() && is_field_encoding(
                #[trigger] s.subrange(0, n),
                fields[0].0,
                fields[0].1,
            ) && is_entry_encoding(s.subrange(n, s.len() as int), fields.drop_first())
    }
}

/// A byte stream that is exactly a concatenation of entry encodings.
pub open spec fn is_entry_stream(s: Seq<u8>, entries: Seq<Seq<(Seq<u8>, SpecRawValue)>>) -> bool
    decreases entries.len(),
{
    if entries.len() == 0 {
        s.len() == 0
    } else {
        exists|n: int|
            0 < n <= s.len() && is_entry_encoding(#[trigger] s.subrange(0, n), entries[0])
                && is_entry_stream(s.subrange(n, s.len() as int), entries.drop_first())
    }
}

/// Keys and text values are valid UTF-8 throughout an entry.
pub open spec fn entry_fields_utf8_ok(fields: Seq<(Seq<u8>, SpecRawValue)>) -> bool {
    forall|i: int| 0 <= i < fields.len() ==> field_utf8_ok((#[trigger] fields[i]).0, fields[i].1)
}

/// Keys and text values are valid UTF-8 throughout a stream.
pub open spec fn stream_utf8_ok(entries: Seq<Seq<(Seq<u8>, SpecRawValue)>>) -> bool {
    forall|i: int| 0 <= i < entries.len() ==> entry_fields_utf8_ok(#[trigger] entries[i])
}

/// The mapping denoted by raw fields inserted in order into `cur`.
pub open spec fn raw_fields_fold(
    cur: Map<Seq<char>, ValueView>,
    fields: Seq<(Seq<u8>, SpecRawValue)>,
) -> Map<Seq<char>, ValueView>
    decreases fields.len(),
{
    if fields.len() == 0 {
        cur
    } else {
        raw_fields_fold(
            cur.insert(decode_utf8(fields[0].0), raw_value_view(fields[0].1)),
            fields.drop_first(),
        )
    }
}

/// An entry encoding is at least one byte long.
proof fn lemma_entry_encoding_len(s: Seq<u8>, fields: Seq<(Seq<u8>, SpecRawValue)>)
    requires
        is_entry_encoding(s, fields),
    ensures
        s.len() >= 1,
    decreases fields.len(),
{
    if fields.len() > 0 {
        let n = choose|n: int|
            0 < n <= s.len() && is_field_encoding(
                #[trigger] s.subrange(0, n),
                fields[0].0,
                fields[0].1,
            ) && is_entry_encoding(s.subrange(n, s.len() as int), fields.drop_first());
        lemma_entry_encoding_len(s.subrange(n, s.len() as int), fields.drop_first());
    }
}

// The reader, entering a field at any point, consumes exactly that field
// into the entry under construction and reads one byte beyond it.
proof fn lemma_drive_field(
    s: Seq<u8>,
    b: int,
    pos: int,
    e: int,
    key: Seq<u8>,
    val: SpecRawValue,
    cur: Map<Seq<char>, ValueView>,
    out: Seq<Map<Seq<char>, ValueView>>,
)
    requires
        0 <= b <= pos <= e < s.len(),
        crate::parser::is_field_encoding(s.subrange(b, e), key, val),
        field_utf8_ok(key, val),
    ensures
        spec_drive(s, pos, s.subrange(b, pos), cur, out) == spec_drive(
            s,
            e + 1,
            s.subrange(e, e + 1),
            cur.insert(decode_utf8(key), raw_value_view(val)),
            out,
        ),
    decreases e - pos,
{
    let f = s.subrange(b, e);
    let buf = s.subrange(b, pos);
    let j = pos - b;
    assert(buf =~= f.subrange(0, j));
    if pos == e {
        crate::parser::lemma_parse_field_encoding(f, key, val, Seq::empty());
        assert(f + Seq::<u8>::empty() =~= f);
        assert(spec_parse_field(buf) == (SpecFieldParse::Done {
            consumed: f.len() as int,
            key,
            value: val,
        }));
        assert(buf.subrange(f.len() as int, buf.len() as int) =~= Seq::<u8>::empty());
        assert(Seq::<u8>::empty() + s.subrange(e, e + 1) =~= s.subrange(e, e + 1));
    } else {
        crate::parser::lemma_parse_field_prefix(f, key, val, j);
        match spec_parse_field(buf) {
            SpecFieldParse::Incomplete { demand } => {
                match demand {
                    SpecDemand::Unknown => {
                        assert(buf + s.subrange(pos, pos + 1) =~= s.subrange(b, pos + 1));
                        lemma_drive_field(s, b, pos + 1, e, key, val, cur, out);
                    },
                    SpecDemand::Exact(m) => {
                        assert(pos + m < s.len());
                        assert(buf + s.subrange(pos, pos + m) =~= s.subrange(b, pos + m));
                        lemma_drive_field(s, b, pos + m, e, key, val, cur, out);
                    },
                }
            },
            SpecFieldParse::Fail { kind } => {
                assert(kind is Eof && buf != seq![10u8]);
                assert(buf + s.subrange(pos, pos + 1) =~= s.subrange(b, pos + 1));
                lemma_drive_field(s, b, pos + 1, e, key, val, cur, out);
            },
            SpecFieldParse::Done { .. } => {
                assert(false);
            },
        }
    }
}

// The reader, entering an entry with one byte of it in the buffer,
// consumes the whole entry, emits its mapping, and reads one byte beyond
// its terminator (or ends the stream there).
proof fn lemma_drive_entry(
    s: Seq<u8>,
    a: int,
    z: int,
    fields: Seq<(Seq<u8>, SpecRawValue)>,
    cur: Map<Seq<char>, ValueView>,
    out: Seq<Map<Seq<char>, ValueView>>,
)
    requires
        0 <= a < z <= s.len(),
        is_entry_encoding(s.subrange(a, z), fields),
        entry_fields_utf8_ok(fields),
    ensures
        spec_drive(s, a + 1, s.subrange(a, a + 1), cur, out) == (if z == s.len() {
            SpecReadResult::Entries(out.push(raw_fields_fold(cur, fields)))
        } else {
            spec_drive(
                s,
                z + 1,
                s.subrange(z, z + 1),
                Map::empty(),
                out.push(raw_fields_fold(cur, fields)),
            )
        }),
    decreases fields.len(),
{
    let seg = s.subrange(a, z);
    if fields.len() == 0 {
        assert(seg == seq![10u8]);
        assert(z == a + 1);
        let buf = s.subrange(a, a + 1);
        assert(buf =~= seg);
        assert(spec_parse_field(buf) == (SpecFieldParse::Fail { kind: ParseErrorKind::Eof }));
        if z < s.len() {
            assert(Seq::<u8>::empty() + s.subrange(z, z + 1) =~= s.subrange(z, z + 1));
        }
    } else {
        let n = choose|n: int|
            0 < n <= seg.len() && is_field_encoding(
                #[trigger] seg.subrange(0, n),
                fields[0].0,
                fields[0].1,
            ) && is_entry_encoding(seg.subrange(n, seg.len() as int), fields.drop_first());
        let e = a + n;
        assert(seg.subrange(0, n) =~= s.subrange(a, e));
        assert(seg.subrange(n, seg.len() as int) =~= s.subrange(e, z));
        lemma_entry_encoding_len(s.subrange(e, z), fields.drop_first());
        assert(e < z);
        assert(field_utf8_ok(fields[0].0, fields[0].1));
        lemma_drive_field(s, a, a + 1, e, fields[0].0, fields[0].1, cur, out);
        assert(forall|i: int|
            0 <= i < fields.drop_first().len() ==> fields.drop_first()[i] == fields[i + 1]);
        lemma_drive_entry(
            s,
            e,
            z,
            fields.drop_first(),
            cur.insert(decode_utf8(fields[0].0), raw_value_view(fields[0].1)),
            out,
        );
    }
}

// The reader, entering a stream of entries with one byte in the buffer,
// emits exactly their mappings, in order.
proof fn lemma_drive_stream(
    s: Seq<u8>,
    a: int,
    entries: Seq<Seq<(Seq<u8>, SpecRawValue)>>,
    out: Seq<Map<Seq<char>, ValueView>>,
)
    requires
        0 <= a < s.len(),
        is_entry_stream(s.subrange(a, s.len() as int), entries),
        stream_utf8_ok(entries),
        entries.len() > 0,
    ensures
        spec_drive(s, a + 1, s.subrange(a, a + 1), Map::empty(), out) == SpecReadResult::Entries(
            out + entries.map_values(
                |fs: Seq<(Seq<u8>, SpecRawValue)>| raw_fields_fold(Map::empty(), fs),
            ),
        ),
    decreases entries.len(),
{
    let rest = s.subrange(a, s.len() as int);
    let n = choose|n: int|
        0 < n <= rest.len() && is_entry_encoding(#[trigger] rest.subrange(0, n), entries[0])
            && is_entry_stream(rest.subrange(n, rest.len() as int), entries.drop_first());
    let z = a + n;
    assert(rest.subrange(0, n) =~= s.subrange(a, z));
    assert(rest.subrange(n, rest.len() as int) =~= s.subrange(z, s.len() as int));
    assert(entry_fields_utf8_ok(entries[0]));
    lemma_drive_entry(s, a, z, entries[0], Map::empty(), out);
    let m0 = raw_fields_fold(Map::<Seq<char>, ValueView>::empty(), entries[0]);
    let maps = entries.map_values(
        |fs: Seq<(Seq<u8>, SpecRawValue)>| raw_fields_fold(Map::empty(), fs),
    );
    if z == s.len() {
        assert(s.subrange(z, s.len() as int).len() == 0);
        assert(entries.drop_first().len() == 0);
        assert(entries.len() == 1);
        assert(out.push(m0) =~= out + maps);
    } else {
        assert(forall|i: int|
            0 <= i < entries.drop_first().len() ==> entries.drop_first()[i] == entries[i + 1]);
        lemma_drive_stream(s, z, entries.drop_first(), out.push(m0));
        let rest_maps = entries.drop_first().map_values(
            |fs: Seq<(Seq<u8>, SpecRawValue)>| raw_fields_fold(Map::empty(), fs),
        );
        assert(out.push(m0) + rest_maps =~= out + maps);
    }
}

/// Reading a stream that is exactly a concatenation of well-formed
/// entries yields exactly those entries' mappings, in input order: no
/// entry is lost, reordered, or emitted in part.
pub proof fn lemma_stream_round_trip(s: Seq<u8>, entries: Seq<Seq<(Seq<u8>, SpecRawValue)>>)
    requires
        is_entry_stream(s, entries),
        stream_utf8_ok(entries),
    ensures
        spec_drive(s, 0, Seq::empty(), Map::empty(), Seq::empty()) == SpecReadResult::Entries(
            entries.map_values(
                |fs: Seq<(Seq<u8>, SpecRawValue)>| raw_fields_fold(Map::empty(), fs),
            ),
        ),
{
    let maps = entries.map_values(
        |fs: Seq<(Seq<u8>, SpecRawValue)>| raw_fields_fold(Map::empty(), fs),
    );
    assert(spec_parse_field(Seq::<u8>::empty()) == (SpecFieldParse::Incomplete {
        demand: SpecDemand::Unknown,
    }));
    if entries.len() == 0 {
        assert(s.len() == 0);
        assert(maps =~= Seq::<Map<Seq<char>, ValueView>>::empty());
    } else {
        assert(s.subrange(0, s.len() as int) =~= s);
        lemma_entry_encoding_len(
            s.subrange(
                0,
                choose|n: int|
                    0 < n <= s.len() && is_entry_encoding(#[trigger] s.subrange(0, n), entries[0])
                        && is_entry_stream(s.subrange(n, s.len() as int), entries.drop_first()),
            ),
            entries[0],
        );
        assert(s.len() >= 1);
        assert(Seq::<u8>::empty() + s.subrange(0, 1) =~= s.subrange(0, 1));
        lemma_drive_stream(s, 0, entries, Seq::empty());
        assert(Seq::<Map<Seq<char>, ValueView>>::empty() + maps =~= maps);
    }
}

/// A structural parse failure: its kind and the buffer that caused it.
#[derive(Debug)]
pub struct ParseFailure {
    pub kind: ParseErrorKind,
    pub offending: Vec<u8>,
}

/// The incremental reader state: the bytes read but not yet consumed,
/// and the entry under construction.
#[derive(Debug)]
pub struct EntryReader {
    buf: Vec<u8>,
    current: JournalEntry,
}

/// What one reader step asks of its driver.
#[derive(Debug)]
pub enum StepEvent {
    /// Read up to this many further bytes and feed them in; nothing to
    /// read means the stream has ended.
    Need(u64),
    /// An entry is complete, in stream order.
    Emit(JournalEntry),
    /// A structural failure; reading must stop.
    Error(ParseFailure),
}

impl EntryReader {
    /// The unconsumed buffer.
    pub closed spec fn buf_bytes(&self) -> Seq<u8> {
        self.buf@
    }

    /// The entry under construction.
    pub closed spec fn cur(&self) -> Map<Seq<char>, ValueView> {
        self.current@
    }

    pub closed spec fn wf(&self) -> bool {
        self.current.wf()
    }

    /// A reader with nothing read yet.
    pub fn new() -> (r: Self)
        ensures
            r.wf(),
            r.buf_bytes() == Seq::<u8>::empty(),
            r.cur() == Map::<Seq<char>, ValueView>::empty(),
    {
        let r = EntryReader { buf: Vec::with_capacity(8192), current: JournalEntry::new() };
        proof {
            assert(r.buf_bytes() =~= Seq::<u8>::empty());
        }
        r
    }

    /// Append freshly read bytes to the buffer.
    pub fn feed(&mut self, chunk: &[u8])
        requires
            old(self).wf(),
        ensures
            final(self).wf(),
            final(self).buf_bytes() == old(self).buf_bytes() + chunk@,
            final(self).cur() == old(self).cur(),
    {
        let mut c = slice_range_to_vec(chunk, 0, chunk.len());
        let ghost before = self.buf@;
        self.buf.append(&mut c);
        proof {
            assert(self.buf@ =~= before + chunk@);
            assert(chunk@.subrange(0, chunk@.len() as int) =~= chunk@);
        }
    }

    /// Run the parser once over the buffer and act on the outcome, as the
    /// reader loop does: consume a parsed field into the entry under
    /// construction, emit the entry at a boundary, report a demand or a
    /// failure otherwise.
    pub fn step(&mut self) -> (ev: StepEvent)
        requires
            old(self).wf(),
        ensures
            final(self).wf(),
            match ev {
                StepEvent::Need(d) => match spec_parse_field(old(self).buf_bytes()) {
                    SpecFieldParse::Done { consumed, key, value } => {
                        &&& field_utf8_ok(key, value)
                        &&& d == 1
                        &&& final(self).buf_bytes() == old(self).buf_bytes().subrange(
                            consumed,
                            old(self).buf_bytes().len() as int,
                        )
                        &&& final(self).cur() == old(self).cur().insert(
                            decode_utf8(key),
                            raw_value_view(value),
                        )
                    },
                    SpecFieldParse::Incomplete { demand } => {
                        &&& match demand {
                            SpecDemand::Unknown => d == 1,
                            SpecDemand::Exact(n) => d == n,
                        }
                        &&& final(self).buf_bytes() == old(self).buf_bytes()
                        &&& final(self).cur() == old(self).cur()
                    },
                    SpecFieldParse::Fail { kind } => {
                        &&& kind is Eof
                        &&& old(self).buf_bytes() != seq![10u8]
                        &&& d == 1
                        &&& final(self).buf_bytes() == old(self).buf_bytes()
                        &&& final(self).cur() == old(self).cur()
                    },
                },
                StepEvent::Emit(e) => {
                    &&& spec_parse_field(old(self).buf_bytes()) matches SpecFieldParse::Fail {
                        kind: ParseErrorKind::Eof,
                    }
                    &&& old(self).buf_bytes() == seq![10u8]
                    &&& e@ == old(self).cur()
                    &&& e.wf()
                    &&& final(self).buf_bytes() == Seq::<u8>::empty()
                    &&& final(self).cur() == Map::<Seq<char>, ValueView>::empty()
                },
                StepEvent::Error(f) => {
                    &&& f.offending@ == old(self).buf_bytes()
                    &&& if f.kind is Utf8 {
                        spec_parse_field(old(self).buf_bytes()) matches SpecFieldParse::Done {
                            consumed,
                            key,
                            value,
                        } && !field_utf8_ok(key, value)
                    } else {
                        spec_parse_field(old(self).buf_bytes()) matches SpecFieldParse::Fail {
                            kind: k,
                        } && k == f.kind && !(k is Eof)
                    }
                },
            },
    {
        match parse_journal_field(self.buf.as_slice()) {
            FieldParse::Done { consumed, field } => {
                proof {
                    crate::parser::lemma_parse_done_bounds(self.buf@);
                }
                let rest = slice_range_to_vec(self.buf.as_slice(), consumed, self.buf.len());
                self.buf = rest;
                let _ = self.current.put(field.key, field.value);
                StepEvent::Need(1)
            },
            FieldParse::Incomplete { demand } => match demand {
                Demand::Unknown => StepEvent::Need(1),
                Demand::Exact(n) => StepEvent::Need(n),
            },
            FieldParse::Fail { kind } => {
                if kind == ParseErrorKind::Eof {
                    if self.buf.len() == 1 && self.buf[0] == 10 {
                        proof {
                            assert(self.buf@ =~= seq![10u8]);
                        }
                        self.buf.clear();
                        let mut done = JournalEntry::new();
                        core::mem::swap(&mut done, &mut self.current);
                        StepEvent::Emit(done)
                    } else {
                        proof {
                            assert(self.buf@ != seq![10u8]);
                        }
                        StepEvent::Need(1)
                    }
                } else {
                    let offending = slice_range_to_vec(self.buf.as_slice(), 0, self.buf.len());
                    proof {
                        assert(offending@ =~= self.buf@);
                    }
                    StepEvent::Error(ParseFailure { kind, offending })
                }
            },
        }
    }
}

/// Read every entry from a complete in-memory stream, in input order.
/// Input that ends inside a field or an unterminated entry is dropped
/// silently, as an end of stream.
pub fn read_entries_bytes(input: &[u8]) -> (r: Result<Vec<JournalEntry>, ParseFailure>)
    ensures
        match r {
            Result::Ok(entries) => {
                &&& spec_drive(input@, 0, Seq::empty(), Map::empty(), Seq::empty())
                    == SpecReadResult::Entries(entries@.map_values(|e: JournalEntry| e@))
                &&& forall|i: int| 0 <= i < entries@.len() ==> (#[trigger] entries@[i]).wf()
            },
            Result::Err(f) => spec_drive(input@, 0, Seq::empty(), Map::empty(), Seq::empty())
                == (SpecReadResult::Fail { kind: f.kind, offending: f.offending@ }),
        },
{
    let ghost target = spec_drive(input@, 0, Seq::empty(), Map::empty(), Seq::empty());
    let mut pos: usize = 0;
    let mut buf: Vec<u8> = Vec::with_capacity(8192);
    let mut cur = JournalEntry::new();
    let mut out: Vec<JournalEntry> = Vec::new();
    proof {
        assert(buf@ =~= Seq::<u8>::empty());
        assert(out@.map_values(|e: JournalEntry| e@) =~= Seq::<
            Map<Seq<char>, ValueView>,
        >::empty());
    }
    loop
        invariant
            0 <= pos <= input@.len(),
            cur.wf(),
            forall|i: int| 0 <= i < out@.len() ==> (#[trigger] out@[i]).wf(),
            target == spec_drive(input@, 0, Seq::empty(), Map::empty(), Seq::empty()),
            target == spec_drive(
                input@,
                pos as int,
                buf@,
                cur@,
                out@.map_values(|e: JournalEntry| e@),
            ),
        decreases input@.len() - pos,
    {
        let ghost outs = out@.map_values(|e: JournalEntry| e@);
        let demand: u64 = match parse_journal_field(buf.as_slice()) {
            FieldParse::Done { consumed, field } => {
                proof {
                    crate::parser::lemma_parse_done_bounds(buf@);
                }
                let rest = slice_range_to_vec(buf.as_slice(), consumed, buf.len());
                buf = rest;
                let _ = cur.put(field.key, field.value);
                1
            },
            FieldParse::Incomplete { demand } => match demand {
                Demand::Unknown => 1,
                Demand::Exact(n) => n,
            },
            FieldParse::Fail { kind } => {
                if kind == ParseErrorKind::Eof {
                    if buf.len() == 1 && buf[0] == 10 {
                        proof {
                            assert(buf@ =~= seq![10u8]);
                        }
                        out.push(cur);
                        cur = JournalEntry::new();
                        buf.clear();
                        proof {
                            assert(out@.map_values(|e: JournalEntry| e@) =~= outs.push(
                                out@[out@.len() - 1]@,
                            ));
                        }
                    } else {
                        proof {
                            assert(buf@ != seq![10u8]);
                        }
                    }
                    1
                } else {
                    return Result::Err(ParseFailure { kind, offending: buf });
                }
            },
        };
        let remaining = input.len() - pos;
        let grab: usize = if demand <= remaining as u64 {
            demand as usize
        } else {
            remaining
        };
        if grab == 0 {
            return Result::Ok(out);
        }
        let mut chunk = slice_range_to_vec(input, pos, pos + grab);
        let ghost before = buf@;
        buf.append(&mut chunk);
        proof {
            assert(buf@ =~= before + input@.subrange(pos as int, pos as int + grab as int));
        }
        pos += grab;
    }
}

} // verus!
