//! JSON documents as the decoders see them.
//!
//! `JsonRep` is the mathematical shape of a parsed JSON document. Parsing
//! itself, and every step that reads a `serde_json::Value`, is an outside
//! call behind a trusted item whose contract ties the call's result to that
//! shape. The field-reading helpers at the end are ordinary verified code.

use vstd::prelude::*;
use vstd::utf8::{encode_utf8, valid_utf8};

verus! {

/// The shape of a JSON document: everything the decoders may read of a
/// parsed value. A number carries its `u64` reading when it has one; no
/// other numeric detail is consulted by this crate. String contents and
/// object keys are the UTF-8 bytes of their characters.
pub enum JsonRep {
    Null,
    Bool(bool),
    Num(Option<u64>),
    Str(Seq<u8>),
    Arr(Seq<JsonRep>),
    Obj(Map<Seq<u8>, JsonRep>),
}

/// serde_json's parsed document type, opaque to the verifier.
#[verifier::external_type_specification]
#[verifier::external_body]
pub struct ExValue(serde_json::Value);

/// The shape of a parsed `serde_json::Value`.
pub uninterp spec fn value_rep(v: serde_json::Value) -> JsonRep;

/// The document that the given bytes parse to, if they are valid JSON:
/// what `serde_json::from_slice` returns, a function of the bytes alone.
pub uninterp spec fn json_of(bytes: Seq<u8>) -> Option<JsonRep>;

/// The JSON string literal (quotes and escapes included) that encodes the
/// given UTF-8 text: what serde_json's string serialization produces, a
/// function of the text alone.
pub uninterp spec fn json_quoted(text: Seq<u8>) -> Seq<u8>;

/// Field lookup in an object shape.
pub open spec fn jfield(fields: Map<Seq<u8>, JsonRep>, key: Seq<u8>) -> Option<JsonRep> {
    if fields.contains_key(key) {
        Some(fields[key])
    } else {
        None
    }
}

/// The shapes behind an optional reference, for relating a looked-up field
/// to its spec-level counterpart.
pub open spec fn rep_of_opt(o: Option<&serde_json::Value>) -> Option<JsonRep> {
    match o {
        Some(v) => Some(value_rep(*v)),
        None => None,
    }
}

/// Relies on `serde_json::from_slice::<Value>`: the parsed document is a
/// function of the payload bytes alone. On failure the parser's rendered
/// error comes back for diagnostics; nothing is claimed of its text.
#[verifier::external_body]
pub fn parse_json(payload: &[u8]) -> (r: Result<serde_json::Value, String>)
    ensures
        match r {
            Ok(v) => json_of(payload@) == Some(value_rep(v)),
            Err(_) => json_of(payload@) is None,
        },
{
    serde_json::from_slice::<serde_json::Value>(payload).map_err(|e| format!("{}", e))
}

/// Relies on `serde_json::Value::get`: object field lookup; `None` both on
/// a missing key and on a value that is not an object.
#[verifier::external_body]
pub fn get_field<'a>(v: &'a serde_json::Value, key: &str) -> (r: Option<&'a serde_json::Value>)
    ensures
        match value_rep(*v) {
            JsonRep::Obj(fields) => rep_of_opt(r) == jfield(fields, encode_utf8(key@)),
            _ => r is None,
        },
{
    v.get(key)
}

/// Relies on `serde_json::Value::as_str`: `Some` exactly on a JSON string;
/// the bytes of a `&str` are valid UTF-8.
#[verifier::external_body]
pub fn str_bytes_of(v: &serde_json::Value) -> (r: Option<Vec<u8>>)
    ensures
        match value_rep(*v) {
            JsonRep::Str(s) => r matches Some(b) && b@ == s && valid_utf8(s),
            _ => r is None,
        },
{
    v.as_str().map(|s| s.as_bytes().to_vec())
}

/// Relies on `serde_json::Value::as_array`: `Some` exactly on a JSON
/// array, handing the elements back in document order.
#[verifier::external_body]
pub fn elements_of<'a>(v: &'a serde_json::Value) -> (r: Option<&'a Vec<serde_json::Value>>)
    ensures
        match value_rep(*v) {
            JsonRep::Arr(elems) => r matches Some(a) && a@.len() == elems.len() && forall|i: int|
                0 <= i < elems.len() ==> #[trigger] value_rep(a@[i]) == elems[i],
            _ => r is None,
        },
{
    v.as_array()
}

/// Relies on `serde_json::Value::as_u64`: `Some` exactly on a number with
/// a `u64` reading.
#[verifier::external_body]
pub fn u64_of(v: &serde_json::Value) -> (r: Option<u64>)
    ensures
        match value_rep(*v) {
            JsonRep::Num(n) => r == n,
            _ => r is None,
        },
{
    v.as_u64()
}

/// Relies on `serde_json::Value::is_null`.
#[verifier::external_body]
pub fn is_null(v: &serde_json::Value) -> (r: bool)
    ensures
        r == (value_rep(*v) is Null),
{
    v.is_null()
}

/// Relies on `serde_json::Value::is_object`.
#[verifier::external_body]
pub fn is_object(v: &serde_json::Value) -> (r: bool)
    ensures
        r == (value_rep(*v) is Obj),
{
    v.is_object()
}

/// Relies on `serde_json::to_vec` on a `&str` — serializing a string
/// cannot fail, and the produced literal depends on the text alone — and
/// on `core::str::from_utf8` to view the byte argument as text.
#[verifier::external_body]
pub fn quote_json_string(text: &[u8]) -> (r: Option<Vec<u8>>)
    ensures
        valid_utf8(text@) ==> r is Some,
        r matches Some(b) ==> b@ == json_quoted(text@),
{
    match core::str::from_utf8(text) {
        Ok(s) => serde_json::to_vec(s).ok(),
        Err(_) => None,
    }
}

// --- verified field readers over the trusted lookups ---

/// An optional string field: absent, JSON null, or a string.
pub open spec fn opt_str_ok(o: Option<JsonRep>) -> bool {
    match o {
        None => true,
        Some(j) => j is Null || j is Str,
    }
}

/// The field's text when it is a present string.
pub open spec fn opt_str_val(o: Option<JsonRep>) -> Option<Seq<u8>> {
    match o {
        Some(JsonRep::Str(s)) => Some(s),
        _ => None,
    }
}

/// A required string field.
pub open spec fn req_str_ok(o: Option<JsonRep>) -> bool {
    o matches Some(JsonRep::Str(_))
}

/// An optional unsigned integer field that fits in 32 bits.
pub open spec fn opt_u32_ok(o: Option<JsonRep>) -> bool {
    match o {
        None => true,
        Some(JsonRep::Null) => true,
        Some(JsonRep::Num(Some(n))) => n <= 0xffff_ffff,
        _ => false,
    }
}

/// Reads an optional string field; `Err` when the field is present but
/// neither null nor a string.
pub fn read_opt_str(o: Option<&serde_json::Value>) -> (r: Result<Option<Vec<u8>>, ()>)
    ensures
        match r {
            Ok(t) => opt_str_ok(rep_of_opt(o)) && (match t {
                Some(b) => opt_str_val(rep_of_opt(o)) == Some(b@) && valid_utf8(b@),
                None => opt_str_val(rep_of_opt(o)) is None,
            }),
            Err(_) => !opt_str_ok(rep_of_opt(o)),
        },
{
    match o {
        None => Ok(None),
        Some(x) => {
            if is_null(x) {
                Ok(None)
            } else {
                match str_bytes_of(x) {
                    Some(b) => Ok(Some(b)),
                    None => Err(()),
                }
            }
        },
    }
}

/// Reads a required string field; `Err` when it is missing or not a string.
pub fn read_req_str(o: Option<&serde_json::Value>) -> (r: Result<Vec<u8>, ()>)
    ensures
        match r {
            Ok(b) => req_str_ok(rep_of_opt(o)) && opt_str_val(rep_of_opt(o)) == Some(b@)
                && valid_utf8(b@),
            Err(_) => !req_str_ok(rep_of_opt(o)),
        },
{
    match o {
        None => Err(()),
        Some(x) => match str_bytes_of(x) {
            Some(b) => Ok(b),
            None => Err(()),
        },
    }
}

/// Checks an optional 32-bit unsigned integer field.
pub fn check_opt_u32(o: Option<&serde_json::Value>) -> (r: bool)
    ensures
        r == opt_u32_ok(rep_of_opt(o)),
{
    match o {
        None => true,
        Some(x) => {
            if is_null(x) {
                true
            } else {
                match u64_of(x) {
                    Some(n) => n <= 0xffff_ffff,
                    None => false,
                }
            }
        },
    }
}

} // verus!
