//! A journal field: a key and a text or binary value.

use vstd::prelude::*;
use crate::text::{ansi_stripped, base64_standard, lossy_decoded, strip_ansi, utf8_lossy_to_string,
    base64_encode};

verus! {

/// The value of one journal field: UTF-8 text, or raw bytes.
#[derive(Debug)]
pub enum JournalFieldValue {
    UTF8(String),
    Bytes(Vec<u8>),
}

/// The mathematical value of a field value.
pub enum ValueView {
    Text(Seq<char>),
    Binary(Seq<u8>),
}

impl View for JournalFieldValue {
    type V = ValueView;

    open spec fn view(&self) -> ValueView {
        match self {
            JournalFieldValue::UTF8(s) => ValueView::Text(s@),
            JournalFieldValue::Bytes(b) => ValueView::Binary(b@),
        }
    }
}

/// The row text of a value: text verbatim; binary values stripped of ANSI
/// escapes and decoded as UTF-8 with replacement.
pub open spec fn spec_value_text(v: ValueView) -> Seq<char> {
    match v {
        ValueView::Text(s) => s,
        ValueView::Binary(b) => lossy_decoded(ansi_stripped(b)),
    }
}

/// The text of a value with binary values base64-encoded behind a
/// `base64:` prefix.
pub open spec fn spec_value_text_base64(v: ValueView) -> Seq<char> {
    match v {
        ValueView::Text(s) => s,
        ValueView::Binary(b) => "base64:"@ + base64_standard(b),
    }
}

impl JournalFieldValue {
    /// The value as row text, in the lossy mode.
    pub fn as_string(&self) -> (r: String)
        ensures
            r@ == spec_value_text(self@),
    {
        match self {
            JournalFieldValue::UTF8(s) => s.clone(),
            JournalFieldValue::Bytes(b) => {
                let stripped = strip_ansi(b.as_slice());
                utf8_lossy_to_string(stripped.as_slice())
            },
        }
    }

    /// The value as row text, in the base64 mode.
    pub fn as_string_base64(&self) -> (r: String)
        ensures
            r@ == spec_value_text_base64(self@),
    {
        match self {
            JournalFieldValue::UTF8(s) => s.clone(),
            JournalFieldValue::Bytes(b) => {
                let encoded = base64_encode(b.as_slice());
                let mut out = "base64:".to_owned();
                out.append(encoded.as_str());
                out
            },
        }
    }

    /// True for a text value.
    pub fn is_text(&self) -> (r: bool)
        ensures
            r == (self@ is Text),
    {
        match self {
            JournalFieldValue::UTF8(_) => true,
            JournalFieldValue::Bytes(_) => false,
        }
    }
}

/// One parsed field: key and value.
#[derive(Debug)]
pub struct JournalField {
    pub key: String,
    pub value: JournalFieldValue,
}

/// The mathematical value of a field.
pub struct FieldView {
    pub key: Seq<char>,
    pub value: ValueView,
}

impl View for JournalField {
    type V = FieldView;

    open spec fn view(&self) -> FieldView {
        FieldView { key: self.key@, value: self.value@ }
    }
}

} // verus!
