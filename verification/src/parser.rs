//! The streaming field parser for the Journal Export Format.
//!
//! One field is `KEY=TEXT\n` or `KEY\n<le_u64 length><payload>\n`, where
//! `KEY` is one or more bytes none of which is `=` or `\n`. The parser
//! reads a prefix of the byte stream and reports either a parsed field,
//! how much more input it needs, or a structural error.

use vstd::prelude::*;
use vstd::bytes::{spec_u64_from_le_bytes, u64_from_le_bytes};
use vstd::utf8::{decode_utf8, valid_utf8};
use crate::field::{JournalField, JournalFieldValue};
use crate::text::utf8_to_string;

verus! {

/// How much more input the parser needs before it can make progress.
#[derive(Clone, Copy, Debug, PartialEq, Eq, Structural)]
pub enum Demand {
    /// Some small amount; the caller picks its read step.
    Unknown,
    /// At least this many further bytes.
    Exact(u64),
}

/// The expectation that a structural error violated.
#[derive(Clone, Copy, Debug, PartialEq, Eq, Structural)]
pub enum ParseErrorKind {
    /// The input begins at an entry boundary or ends inside a binary
    /// length prefix; there is no field to parse here.
    Eof,
    /// The key is empty.
    Key,
    /// The byte after a binary payload is not a line feed.
    Terminator,
    /// A key or text value is not valid UTF-8.
    Utf8,
}

/// The outcome of one parse attempt.
#[derive(Debug)]
pub enum FieldParse {
    /// A full field; `consumed` bytes of the input were used.
    Done { consumed: usize, field: JournalField },
    /// The input ends inside a field.
    Incomplete { demand: Demand },
    /// A structural violation.
    Fail { kind: ParseErrorKind },
}

/// The outcome of one parse attempt, at the byte level.
pub enum SpecFieldParse {
    Done { consumed: int, key: Seq<u8>, value: SpecRawValue },
    Incomplete { demand: SpecDemand },
    Fail { kind: ParseErrorKind },
}

/// A field value before UTF-8 decoding.
pub enum SpecRawValue {
    Text(Seq<u8>),
    Binary(Seq<u8>),
}

pub enum SpecDemand {
    Unknown,
    Exact(int),
}

/// True for the two bytes that end a key: `=` and `\n`.
pub open spec fn is_key_break(b: u8) -> bool {
    b == 61 || b == 10
}

/// Index of the first `=` or `\n` at or after `from`.
pub open spec fn find_break(s: Seq<u8>, from: int) -> Option<int>
    decreases s.len() - from,
{
    if from < 0 || from >= s.len() {
        None
    } else if is_key_break(s[from]) {
        Some(from)
    } else {
        find_break(s, from + 1)
    }
}

/// Index of the first `\n` at or after `from`.
pub open spec fn find_nl(s: Seq<u8>, from: int) -> Option<int>
    decreases s.len() - from,
{
    if from < 0 || from >= s.len() {
        None
    } else if s[from] == 10 {
        Some(from)
    } else {
        find_nl(s, from + 1)
    }
}

/// What parsing one field from the byte sequence `s` yields.
///
/// The key runs to the first `=` or `\n`. After `=`, the text value runs
/// to the next `\n`. After `\n`, eight little-endian length bytes precede
/// the payload, which a mandatory `\n` must follow. A missing piece is
/// reported as incomplete — with the exact outstanding payload count when
/// that is known — except a truncated length prefix and an input that
/// starts at an entry boundary (a leading `\n`), which report `Eof`.
pub open spec fn spec_parse_field(s: Seq<u8>) -> SpecFieldParse {
    match find_break(s, 0) {
        Option::None => SpecFieldParse::Incomplete { demand: SpecDemand::Unknown },
        Option::Some(k) => {
            if s[k] == 61 {
                if k == 0 {
                    SpecFieldParse::Fail { kind: ParseErrorKind::Key }
                } else {
                    match find_nl(s, k + 1) {
                        Option::None => SpecFieldParse::Incomplete {
                            demand: SpecDemand::Unknown,
                        },
                        Option::Some(j) => SpecFieldParse::Done {
                            consumed: j + 1,
                            key: s.subrange(0, k),
                            value: SpecRawValue::Text(s.subrange(k + 1, j)),
                        },
                    }
                }
            } else {
                if k == 0 {
                    SpecFieldParse::Fail { kind: ParseErrorKind::Eof }
                } else if s.len() < k + 9 {
                    SpecFieldParse::Fail { kind: ParseErrorKind::Eof }
                } else {
                    let n = spec_u64_from_le_bytes(s.subrange(k + 1, k + 9)) as int;
                    let avail = s.len() - (k + 9);
                    if avail < n {
                        SpecFieldParse::Incomplete { demand: SpecDemand::Exact(n - avail) }
                    } else if s.len() == k + 9 + n {
                        SpecFieldParse::Incomplete { demand: SpecDemand::Unknown }
                    } else if s[k + 9 + n] == 10 {
                        SpecFieldParse::Done {
                            consumed: k + 9 + n + 1,
                            key: s.subrange(0, k),
                            value: SpecRawValue::Binary(s.subrange(k + 9, k + 9 + n)),
                        }
                    } else {
                        SpecFieldParse::Fail { kind: ParseErrorKind::Terminator }
                    }
                }
            }
        },
    }
}

/// How the result of [`parse_journal_field`] relates to
/// [`spec_parse_field`] on the same input.
pub open spec fn parse_result_matches(r: FieldParse, s: Seq<u8>) -> bool {
    match r {
        FieldParse::Done { consumed, field } => {
            &&& spec_parse_field(s) matches SpecFieldParse::Done { consumed: c, key, value }
            &&& consumed == c
            &&& valid_utf8(key)
            &&& field.key@ == decode_utf8(key)
            &&& match value {
                SpecRawValue::Text(t) => {
                    &&& valid_utf8(t)
                    &&& field.value matches JournalFieldValue::UTF8(v) && v@ == decode_utf8(t)
                },
                SpecRawValue::Binary(b) => {
                    field.value matches JournalFieldValue::Bytes(p) && p@ == b
                },
            }
        },
        FieldParse::Incomplete { demand } => {
            &&& spec_parse_field(s) matches SpecFieldParse::Incomplete { demand: d }
            &&& match demand {
                Demand::Unknown => d is Unknown,
                Demand::Exact(n) => d matches SpecDemand::Exact(m) && n == m,
            }
        },
        FieldParse::Fail { kind } => {
            if kind is Utf8 {
                &&& spec_parse_field(s) matches SpecFieldParse::Done { consumed, key, value }
                &&& (!valid_utf8(key) || (value matches SpecRawValue::Text(t) && !valid_utf8(t)))
            } else {
                spec_parse_field(s) matches SpecFieldParse::Fail { kind: k } && k == kind
            }
        },
    }
}

/// Copy `s[from..to]` into a fresh vector.
pub fn slice_range_to_vec(s: &[u8], from: usize, to: usize) -> (r: Vec<u8>)
    requires
        from <= to <= s@.len(),
    ensures
        r@ == s@.subrange(from as int, to as int),
{
    let mut r: Vec<u8> = Vec::new();
    let mut i: usize = from;
    while i < to
        invariant
            from <= i <= to <= s@.len(),
            r@ == s@.subrange(from as int, i as int),
        decreases to - i,
    {
        r.push(s[i]);
        assert(r@ =~= s@.subrange(from as int, i + 1 as int));
        i += 1;
    }
    r
}

fn find_key_break_exec(s: &[u8]) -> (r: Option<usize>)
    ensures
        match r {
            Option::Some(k) => find_break(s@, 0) == Option::Some(k as int),
            Option::None => find_break(s@, 0) is None,
        },
{
    let mut i: usize = 0;
    while i < s.len()
        invariant
            0 <= i <= s@.len(),
            find_break(s@, 0) == find_break(s@, i as int),
        decreases s@.len() - i,
    {
        let b = s[i];
        if b == 61 || b == 10 {
            return Some(i);
        }
        i += 1;
    }
    None
}

fn find_nl_exec(s: &[u8], from: usize) -> (r: Option<usize>)
    requires
        from <= s@.len(),
    ensures
        match r {
            Option::Some(k) => find_nl(s@, from as int) == Option::Some(k as int),
            Option::None => find_nl(s@, from as int) is None,
        },
{
    let mut i: usize = from;
    while i < s.len()
        invariant
            from <= i <= s@.len(),
            find_nl(s@, from as int) == find_nl(s@, i as int),
        decreases s@.len() - i,
    {
        if s[i] == 10 {
            return Some(i);
        }
        i += 1;
    }
    None
}

/// Parse one field from a prefix of the byte stream.
pub fn parse_journal_field(input: &[u8]) -> (r: FieldParse)
    ensures
        parse_result_matches(r, input@),
{
    let len = input.len();
    let k = match find_key_break_exec(input) {
        Option::None => {
            return FieldParse::Incomplete { demand: Demand::Unknown };
        },
        Option::Some(k) => k,
    };
    proof {
        lemma_find_break_props(input@, 0);
    }
    if input[k] == 61 {
        if k == 0 {
            return FieldParse::Fail { kind: ParseErrorKind::Key };
        }
        let j = match find_nl_exec(input, k + 1) {
            Option::None => {
                return FieldParse::Incomplete { demand: Demand::Unknown };
            },
            Option::Some(j) => j,
        };
        proof {
            lemma_find_nl_props(input@, k + 1);
        }
        let key_bytes = slice_range_to_vec(input, 0, k);
        let value_bytes = slice_range_to_vec(input, k + 1, j);
        let key = match utf8_to_string(key_bytes) {
            Option::None => {
                return FieldParse::Fail { kind: ParseErrorKind::Utf8 };
            },
            Option::Some(s) => s,
        };
        let value = match utf8_to_string(value_bytes) {
            Option::None => {
                return FieldParse::Fail { kind: ParseErrorKind::Utf8 };
            },
            Option::Some(s) => s,
        };
        FieldParse::Done {
            consumed: j + 1,
            field: JournalField { key, value: JournalFieldValue::UTF8(value) },
        }
    } else {
        if k == 0 {
            return FieldParse::Fail { kind: ParseErrorKind::Eof };
        }
        if len - (k + 1) < 8 {
            return FieldParse::Fail { kind: ParseErrorKind::Eof };
        }
        let len_bytes = slice_range_to_vec(input, k + 1, k + 9);
        let n = u64_from_le_bytes(len_bytes.as_slice());
        let avail = (len - (k + 9)) as u64;
        if avail < n {
            return FieldParse::Incomplete { demand: Demand::Exact(n - avail) };
        }
        let n_us = n as usize;
        if len == k + 9 + n_us {
            return FieldParse::Incomplete { demand: Demand::Unknown };
        }
        if input[k + 9 + n_us] == 10 {
            let key_bytes = slice_range_to_vec(input, 0, k);
            let payload = slice_range_to_vec(input, k + 9, k + 9 + n_us);
            let key = match utf8_to_string(key_bytes) {
                Option::None => {
                    return FieldParse::Fail { kind: ParseErrorKind::Utf8 };
                },
                Option::Some(s) => s,
            };
            FieldParse::Done {
                consumed: k + 9 + n_us + 1,
                field: JournalField { key, value: JournalFieldValue::Bytes(payload) },
            }
        } else {
            FieldParse::Fail { kind: ParseErrorKind::Terminator }
        }
    }
}

/// Everything `find_break` guarantees about its result.
pub proof fn lemma_find_break_props(s: Seq<u8>, from: int)
    requires
        0 <= from <= s.len(),
    ensures
        match find_break(s, from) {
            Option::Some(m) => from <= m < s.len() && is_key_break(s[m]) && forall|j: int|
                from <= j < m ==> !is_key_break(s[j]),
            Option::None => forall|j: int| from <= j < s.len() ==> !is_key_break(s[j]),
        },
    decreases s.len() - from,
{
    if from < s.len() && !is_key_break(s[from]) {
        lemma_find_break_props(s, from + 1);
    }
}

/// Everything `find_nl` guarantees about its result.
pub proof fn lemma_find_nl_props(s: Seq<u8>, from: int)
    requires
        0 <= from <= s.len(),
    ensures
        match find_nl(s, from) {
            Option::Some(m) => from <= m < s.len() && s[m] == 10 && forall|j: int|
                from <= j < m ==> s[j] != 10,
            Option::None => forall|j: int| from <= j < s.len() ==> s[j] != 10,
        },
    decreases s.len() - from,
{
    if from < s.len() && s[from] != 10 {
        lemma_find_nl_props(s, from + 1);
    }
}

/// `find_break` finds a position known to be the first break.
pub proof fn lemma_find_break_found(s: Seq<u8>, from: int, m: int)
    requires
        0 <= from <= m < s.len(),
        is_key_break(s[m]),
        forall|j: int| from <= j < m ==> !is_key_break(s[j]),
    ensures
        find_break(s, from) == Option::Some(m),
    decreases m - from,
{
    if from < m {
        lemma_find_break_found(s, from + 1, m);
    }
}

/// `find_nl` finds a position known to be the first line feed.
pub proof fn lemma_find_nl_found(s: Seq<u8>, from: int, m: int)
    requires
        0 <= from <= m < s.len(),
        s[m] == 10,
        forall|j: int| from <= j < m ==> s[j] != 10,
    ensures
        find_nl(s, from) == Option::Some(m),
    decreases m - from,
{
    if from < m {
        lemma_find_nl_found(s, from + 1, m);
    }
}

/// `find_break` returns none when no break exists.
pub proof fn lemma_find_break_none(s: Seq<u8>, from: int)
    requires
        0 <= from <= s.len(),
        forall|j: int| from <= j < s.len() ==> !is_key_break(s[j]),
    ensures
        find_break(s, from) is None,
    decreases s.len() - from,
{
    if from < s.len() {
        lemma_find_break_none(s, from + 1);
    }
}

/// `find_nl` returns none when no line feed exists.
pub proof fn lemma_find_nl_none(s: Seq<u8>, from: int)
    requires
        0 <= from <= s.len(),
        forall|j: int| from <= j < s.len() ==> s[j] != 10,
    ensures
        find_nl(s, from) is None,
    decreases s.len() - from,
{
    if from < s.len() {
        lemma_find_nl_none(s, from + 1);
    }
}

/// A parsed field consumes at least three bytes and at most the input.
pub proof fn lemma_parse_done_bounds(s: Seq<u8>)
    ensures
        match spec_parse_field(s) {
            SpecFieldParse::Done { consumed, key, value } => {
                &&& 3 <= consumed <= s.len()
                &&& key.len() > 0
            },
            _ => true,
        },
{
    lemma_find_break_props(s, 0);
    match find_break(s, 0) {
        Option::Some(k) => {
            if s[k] == 61 && k > 0 {
                lemma_find_nl_props(s, k + 1);
            }
        },
        Option::None => {},
    }
}

/// A byte sequence that encodes exactly one field.
pub open spec fn is_field_encoding(s: Seq<u8>, key: Seq<u8>, value: SpecRawValue) -> bool {
    &&& key.len() > 0
    &&& (forall|i: int| 0 <= i < key.len() ==> !is_key_break(#[trigger] key[i]))
    &&& match value {
        SpecRawValue::Text(t) => {
            &&& (forall|i: int| 0 <= i < t.len() ==> #[trigger] t[i] != 10)
            &&& s == key + seq![61u8] + t + seq![10u8]
        },
        SpecRawValue::Binary(b) => {
            &&& b.len() <= u64::MAX
            &&& s == key + seq![10u8] + vstd::bytes::spec_u64_to_le_bytes(b.len() as u64) + b
                + seq![10u8]
        },
    }
}

/// Parsing a field encoding followed by anything consumes exactly the
/// encoding and yields its key and value.
pub proof fn lemma_parse_field_encoding(f: Seq<u8>, key: Seq<u8>, value: SpecRawValue, rest: Seq<u8>)
    requires
        is_field_encoding(f, key, value),
    ensures
        spec_parse_field(f + rest) == (SpecFieldParse::Done {
            consumed: f.len() as int,
            key,
            value,
        }),
{
    let s = f + rest;
    let k = key.len() as int;
    assert(forall|i: int| 0 <= i < k ==> s[i] == key[i]);
    match value {
        SpecRawValue::Text(t) => {
            let j = k + 1 + t.len() as int;
            assert(s[k] == 61);
            assert(forall|i: int| 0 <= i < t.len() ==> s[k + 1 + i] == t[i]);
            assert(s[j] == 10);
            lemma_find_break_found(s, 0, k);
            assert(forall|i: int| k + 1 <= i < j ==> s[i] != 10) by {
                assert(forall|i: int| k + 1 <= i < j ==> s[i] == t[i - k - 1]);
            }
            lemma_find_nl_found(s, k + 1, j);
            assert(s.subrange(0, k) =~= key);
            assert(s.subrange(k + 1, j) =~= t);
            assert(f.len() == j + 1);
        },
        SpecRawValue::Binary(b) => {
            let n = b.len() as int;
            let lenb = vstd::bytes::spec_u64_to_le_bytes(b.len() as u64);
            vstd::bytes::lemma_auto_spec_u64_to_from_le_bytes();
            assert(lenb.len() == 8);
            assert(s[k] == 10);
            lemma_find_break_found(s, 0, k);
            assert(s.subrange(0, k) =~= key);
            assert(s.len() >= k + 9);
            assert(s.subrange(k + 1, k + 9) =~= lenb);
            assert(spec_u64_from_le_bytes(lenb) == b.len() as u64);
            assert(s.len() - (k + 9) >= n + 1);
            assert(s[k + 9 + n] == 10);
            assert(s.subrange(k + 9, k + 9 + n) =~= b);
            assert(f.len() == k + 9 + n + 1);
        },
    }
}

/// Parsing a proper prefix of a field encoding never yields a field: it
/// asks for more input, or reports `Eof` on a buffer that is not an entry
/// boundary. An exact demand always stays within the encoding.
pub proof fn lemma_parse_field_prefix(f: Seq<u8>, key: Seq<u8>, value: SpecRawValue, j: int)
    requires
        is_field_encoding(f, key, value),
        0 <= j < f.len(),
    ensures
        match spec_parse_field(f.subrange(0, j)) {
            SpecFieldParse::Incomplete { demand } => match demand {
                SpecDemand::Unknown => true,
                SpecDemand::Exact(m) => m > 0 && j + m < f.len(),
            },
            SpecFieldParse::Fail { kind } => kind is Eof && f.subrange(0, j) != seq![10u8],
            SpecFieldParse::Done { .. } => false,
        },
{
    let p = f.subrange(0, j);
    let k = key.len() as int;
    assert(forall|i: int| 0 <= i < k && i < j ==> p[i] == key[i]);
    if j <= k {
        assert(forall|i: int| 0 <= i < p.len() ==> !is_key_break(p[i]));
        lemma_find_break_none(p, 0);
    } else {
        match value {
            SpecRawValue::Text(t) => {
                assert(p[k] == 61);
                lemma_find_break_found(p, 0, k);
                // the only line feed in `f` is its last byte, beyond `p`
                assert(forall|i: int| k + 1 <= i < j ==> p[i] == t[i - k - 1]);
                assert(forall|i: int| k + 1 <= i < p.len() ==> p[i] != 10);
                lemma_find_nl_none(p, k + 1);
            },
            SpecRawValue::Binary(b) => {
                let n = b.len() as int;
                let lenb = vstd::bytes::spec_u64_to_le_bytes(b.len() as u64);
                vstd::bytes::lemma_auto_spec_u64_to_from_le_bytes();
                assert(p[k] == 10);
                lemma_find_break_found(p, 0, k);
                assert(p != seq![10u8]) by {
                    assert(p[0] == key[0]);
                    assert(!is_key_break(key[0]));
                }
                if j < k + 9 {
                    // truncated length prefix
                    assert(p.len() < k + 9);
                } else {
                    assert(p.subrange(k + 1, k + 9) =~= lenb);
                    assert(spec_u64_from_le_bytes(lenb) == b.len() as u64);
                    let avail = j - (k + 9);
                    assert(avail <= n);
                    if avail < n {
                        assert(spec_parse_field(p) == (SpecFieldParse::Incomplete {
                            demand: SpecDemand::Exact(n - avail),
                        }));
                        assert(j + (n - avail) < f.len());
                    } else {
                        assert(p.len() == k + 9 + n);
                    }
                }
            },
        }
    }
}

/// Round trip, text field: for any key with no `=` or line feed and any
/// value with no line feed, parsing `key = value \n rest` yields the text
/// field and leaves `rest`.
pub proof fn lemma_round_trip_text(key: Seq<u8>, value: Seq<u8>, rest: Seq<u8>)
    requires
        key.len() > 0,
        forall|i: int| 0 <= i < key.len() ==> !is_key_break(#[trigger] key[i]),
        forall|i: int| 0 <= i < value.len() ==> #[trigger] value[i] != 10,
    ensures
        spec_parse_field(key + seq![61u8] + value + seq![10u8] + rest) == (SpecFieldParse::Done {
            consumed: key.len() + value.len() + 2int,
            key,
            value: SpecRawValue::Text(value),
        }),
{
    let f = key + seq![61u8] + value + seq![10u8];
    lemma_parse_field_encoding(f, key, SpecRawValue::Text(value), rest);
    assert(f + rest =~= key + seq![61u8] + value + seq![10u8] + rest);
}

/// Round trip, binary field: for any key with no `=` or line feed and any
/// byte sequence, parsing `key \n le64(len) payload \n rest` yields the
/// binary field and leaves `rest`.
pub proof fn lemma_round_trip_binary(key: Seq<u8>, payload: Seq<u8>, rest: Seq<u8>)
    requires
        key.len() > 0,
        forall|i: int| 0 <= i < key.len() ==> !is_key_break(#[trigger] key[i]),
        payload.len() <= u64::MAX,
    ensures
        spec_parse_field(
            key + seq![10u8] + vstd::bytes::spec_u64_to_le_bytes(payload.len() as u64) + payload
                + seq![10u8] + rest,
        ) == (SpecFieldParse::Done {
            consumed: key.len() + payload.len() + 10int,
            key,
            value: SpecRawValue::Binary(payload),
        }),
{
    let f = key + seq![10u8] + vstd::bytes::spec_u64_to_le_bytes(payload.len() as u64) + payload
        + seq![10u8];
    vstd::bytes::lemma_auto_spec_u64_to_from_le_bytes();
    lemma_parse_field_encoding(f, key, SpecRawValue::Binary(payload), rest);
    assert(f + rest =~= key + seq![10u8] + vstd::bytes::spec_u64_to_le_bytes(payload.len() as u64)
        + payload + seq![10u8] + rest);
}

/// Incomplete demand: a binary field truncated inside its payload reports
/// exactly the outstanding byte count.
pub proof fn lemma_incomplete_exact_demand(key: Seq<u8>, n: u64, part: Seq<u8>)
    requires
        key.len() > 0,
        forall|i: int| 0 <= i < key.len() ==> !is_key_break(#[trigger] key[i]),
        part.len() < n,
    ensures
        spec_parse_field(key + seq![10u8] + vstd::bytes::spec_u64_to_le_bytes(n) + part)
            == (SpecFieldParse::Incomplete { demand: SpecDemand::Exact(n - part.len()) }),
{
    let s = key + seq![10u8] + vstd::bytes::spec_u64_to_le_bytes(n) + part;
    let k = key.len() as int;
    vstd::bytes::lemma_auto_spec_u64_to_from_le_bytes();
    assert(forall|i: int| 0 <= i < k ==> s[i] == key[i]);
    assert(s[k] == 10);
    lemma_find_break_found(s, 0, k);
    assert(s.len() == k + 9 + part.len());
    assert(s.subrange(k + 1, k + 9) =~= vstd::bytes::spec_u64_to_le_bytes(n));
    assert(spec_u64_from_le_bytes(vstd::bytes::spec_u64_to_le_bytes(n)) == n);
}

} // verus!
