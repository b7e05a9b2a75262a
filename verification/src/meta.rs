//! The fields of `meta.json` that the document reads.

use vstd::prelude::*;
use crate::error::ParseError;
use crate::types::opt_str_view;

verus! {

/// What the document takes from `meta.json`: the `file_name` string, whether
/// a `document_id` key is present and its string value, and the `file_id`
/// string. A field that is missing or not a string is `None`.
#[derive(Debug, Clone)]
pub struct MetaFields {
    pub file_name: Option<String>,
    pub has_document_id: bool,
    pub document_id: Option<String>,
    pub file_id: Option<String>,
}

/// Plain view of the meta fields, in declaration order.
pub type MetaView = (Option<Seq<char>>, bool, Option<Seq<char>>, Option<Seq<char>>);

impl View for MetaFields {
    type V = MetaView;

    open spec fn view(&self) -> MetaView {
        (opt_str_view(self.file_name), self.has_document_id, opt_str_view(self.document_id), opt_str_view(self.file_id))
    }
}

impl MetaFields {
    /// The meta fields of an absent (empty) `meta.json`: nothing is set.
    pub fn empty() -> (r: Self)
        ensures
            r@ == (None::<Seq<char>>, false, None::<Seq<char>>, None::<Seq<char>>),
    {
        MetaFields { file_name: None, has_document_id: false, document_id: None, file_id: None }
    }
}

/// The document's file name: `file_name`, or "Untitled".
pub open spec fn meta_file_name(m: MetaView) -> Seq<char> {
    match m.0 {
        Some(s) => s,
        None => "Untitled"@,
    }
}

/// The document id: the `document_id` string when that key is present
/// (even if it is not a string), otherwise the `file_id` string.
pub open spec fn meta_document_id(m: MetaView) -> Option<Seq<char>> {
    if m.1 {
        m.2
    } else {
        m.3
    }
}

/// What `serde_json::from_slice::<serde_json::Value>` makes of `bytes`, looked
/// up at the top-level key `key` with `Value::get` and `Value::as_str`:
/// whether the key is present, and its value when that is a string; or the
/// text of the `serde_json::Error` when the bytes are not one JSON value.
pub uninterp spec fn json_top_field(bytes: Seq<u8>, key: Seq<char>) -> Result<(bool, Option<Seq<char>>), Seq<char>>;

/// Parses `bytes` with `serde_json::from_slice` into a `serde_json::Value`
/// and looks `key` up with `Value::get`, then `Value::as_str`; a parse
/// failure is handed back as the error's text.
/// Claimed: the result is a function of the bytes and the key alone.
#[verifier::external_body]
fn json_field_call(bytes: &[u8], key: &str) -> (r: Result<(bool, Option<String>), String>)
    ensures
        match json_top_field(bytes@, key@) {
            Ok(f) => r matches Ok(v) && v.0 == f.0 && opt_str_view(v.1) == f.1,
            Err(m) => r matches Err(t) && t@ == m,
        },
{
    match serde_json::from_slice::<serde_json::Value>(bytes) {
        Ok(v) => match v.get(key) {
            Some(x) => Ok((true, x.as_str().map(str::to_string))),
            None => Ok((false, None)),
        },
        Err(e) => Err(e.to_string()),
    }
}

/// The meta fields of `meta.json` as stored: none when it is empty, else
/// the `file_name`, `document_id` (present or not) and `file_id` keys of the
/// JSON value; the JSON error's text when the bytes are not JSON.
pub open spec fn meta_of(bytes: Seq<u8>) -> Result<MetaView, Seq<char>> {
    if bytes.len() == 0 {
        Ok((None, false, None, None))
    } else {
        match json_top_field(bytes, "file_name"@) {
            Err(m) => Err(m),
            Ok(name) => match json_top_field(bytes, "document_id"@) {
                Err(m) => Err(m),
                Ok(doc) => match json_top_field(bytes, "file_id"@) {
                    Err(m) => Err(m),
                    Ok(file) => Ok((name.1, doc.0, doc.1, file.1)),
                },
            },
        }
    }
}

/// Read `meta.json`: empty bytes mean no meta fields; otherwise the bytes
/// must be JSON.
pub fn read_meta(bytes: &[u8]) -> (r: Result<MetaFields, ParseError>)
    ensures
        match meta_of(bytes@) {
            Ok(f) => (r matches Ok(m) && m@ == f),
            Err(t) => (r matches Err(ParseError::MetaJson(s)) && s@ == t),
        },
{
    if bytes.len() == 0 {
        return Ok(MetaFields::empty());
    }
    let file_name = match json_field_call(bytes, "file_name") {
        Ok(f) => f.1,
        Err(t) => return Err(ParseError::MetaJson(t)),
    };
    let (has_document_id, document_id) = match json_field_call(bytes, "document_id") {
        Ok(f) => f,
        Err(t) => return Err(ParseError::MetaJson(t)),
    };
    let file_id = match json_field_call(bytes, "file_id") {
        Ok(f) => f.1,
        Err(t) => return Err(ParseError::MetaJson(t)),
    };
    Ok(MetaFields { file_name, has_document_id, document_id, file_id })
}

} // verus!
