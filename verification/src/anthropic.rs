//! The Anthropic wire format: a discriminated top-level `type` field.
//!
//! A `content_block_delta` event carrying a `text_delta` sub-object emits
//! its text; an `error` event carrying `{type, message}` is reported
//! without closing the session; every other recognized or unknown type is
//! ignored. A payload whose fields do not fit this schema is malformed and
//! yields nothing, exactly as a typed deserialization would reject it.

use vstd::prelude::*;
use vstd::utf8::{encode_utf8, valid_utf8};

use crate::decode::{decision_valid, Decision, DecisionRep};
use crate::json::{
    check_opt_u32, get_field, is_null, is_object, jfield, opt_str_ok, opt_str_val, opt_u32_ok,
    read_opt_str, read_req_str, req_str_ok, value_rep, JsonRep,
};
use crate::text::{bytes_eq, push_bytes};

verus! {

/// Streams against the Anthropic messages endpoint.
pub struct AnthropicProvider {
    api_key: String,
}

impl View for AnthropicProvider {
    type V = Seq<char>;

    closed spec fn view(&self) -> Seq<char> {
        self.api_key@
    }
}

impl AnthropicProvider {
    /// A provider handle for the given API key.
    pub fn new(api_key: String) -> (r: Self)
        ensures
            r@ == api_key@,
    {
        Self { api_key }
    }

    /// The key the transport must authenticate with.
    pub fn api_key(&self) -> (r: &str)
        ensures
            r@ == self@,
    {
        self.api_key.as_str()
    }
}

/// The `delta` field: absent, null, or an object of optional strings.
pub open spec fn a_delta_ok(o: Option<JsonRep>) -> bool {
    match o {
        None => true,
        Some(JsonRep::Null) => true,
        Some(JsonRep::Obj(df)) => opt_str_ok(jfield(df, encode_utf8("type"@))) && opt_str_ok(
            jfield(df, encode_utf8("text"@)),
        ),
        _ => false,
    }
}

/// The `error` field: absent, null, or an object with required string
/// `type` and `message` fields.
pub open spec fn a_error_ok(o: Option<JsonRep>) -> bool {
    match o {
        None => true,
        Some(JsonRep::Null) => true,
        Some(JsonRep::Obj(ef)) => req_str_ok(jfield(ef, encode_utf8("type"@))) && req_str_ok(
            jfield(ef, encode_utf8("message"@)),
        ),
        _ => false,
    }
}

/// Whether a parsed payload fits the Anthropic event schema.
pub open spec fn a_shape_ok(rep: JsonRep) -> bool {
    match rep {
        JsonRep::Obj(f) => req_str_ok(jfield(f, encode_utf8("type"@))) && a_delta_ok(
            jfield(f, encode_utf8("delta"@)),
        ) && a_error_ok(jfield(f, encode_utf8("error"@))) && opt_u32_ok(
            jfield(f, encode_utf8("index"@)),
        ),
        _ => false,
    }
}

/// The message a provider-reported error event is surfaced with.
pub open spec fn error_event_message(etype: Seq<u8>, emsg: Seq<u8>) -> Seq<u8> {
    encode_utf8("API Error Event: ["@) + etype + encode_utf8("] "@) + emsg
}

/// The decision for a payload that fits the schema.
pub open spec fn a_decide(rep: JsonRep) -> DecisionRep
    recommends
        a_shape_ok(rep),
{
    match rep {
        JsonRep::Obj(f) => {
            let t = opt_str_val(jfield(f, encode_utf8("type"@)));
            if t == Some(encode_utf8("content_block_delta"@)) {
                match jfield(f, encode_utf8("delta"@)) {
                    Some(JsonRep::Obj(df)) => {
                        if opt_str_val(jfield(df, encode_utf8("type"@))) == Some(
                            encode_utf8("text_delta"@),
                        ) {
                            match opt_str_val(jfield(df, encode_utf8("text"@))) {
                                Some(txt) => DecisionRep::EmitText(txt),
                                None => DecisionRep::Ignore,
                            }
                        } else {
                            DecisionRep::Ignore
                        }
                    },
                    _ => DecisionRep::Ignore,
                }
            } else if t == Some(encode_utf8("error"@)) {
                match jfield(f, encode_utf8("error"@)) {
                    Some(JsonRep::Obj(ef)) => match (
                        opt_str_val(jfield(ef, encode_utf8("type"@))),
                        opt_str_val(jfield(ef, encode_utf8("message"@))),
                    ) {
                        (Some(et), Some(em)) => DecisionRep::ReportError(
                            error_event_message(et, em),
                        ),
                        _ => DecisionRep::Ignore,
                    },
                    _ => DecisionRep::Ignore,
                }
            } else {
                DecisionRep::Ignore
            }
        },
        _ => DecisionRep::Ignore,
    }
}

/// The classification of a parsed Anthropic payload.
pub open spec fn a_classify(rep: JsonRep) -> DecisionRep {
    if a_shape_ok(rep) {
        a_decide(rep)
    } else {
        DecisionRep::MalformedIgnore
    }
}

/// Builds the surfaced message for a provider-reported error event.
fn build_error_message(etype: &[u8], emsg: &[u8]) -> (r: Vec<u8>)
    ensures
        r@ == error_event_message(etype@, emsg@),
        valid_utf8(etype@) && valid_utf8(emsg@) ==> valid_utf8(r@),
{
    broadcast use vstd::utf8::encode_utf8_valid_utf8, vstd::utf8::valid_utf8_concat;

    let mut r: Vec<u8> = Vec::new();
    push_bytes(&mut r, "API Error Event: [".as_bytes());
    push_bytes(&mut r, etype);
    push_bytes(&mut r, "] ".as_bytes());
    push_bytes(&mut r, emsg);
    proof {
        assert(r@ =~= error_event_message(etype@, emsg@));
        if valid_utf8(etype@) && valid_utf8(emsg@) {
            let head = encode_utf8("API Error Event: ["@);
            let mid = encode_utf8("] "@);
            assert(valid_utf8(head));
            assert(valid_utf8(mid));
            vstd::utf8::valid_utf8_concat(head, etype@);
            vstd::utf8::valid_utf8_concat(head + etype@, mid);
            vstd::utf8::valid_utf8_concat((head + etype@) + mid, emsg@);
            assert(r@ =~= ((head + etype@) + mid) + emsg@);
        }
    }
    r
}

/// Classifies one parsed Anthropic payload.
pub fn classify_anthropic(v: &serde_json::Value) -> (r: Decision)
    ensures
        r@ == a_classify(value_rep(*v)),
        decision_valid(r@),
{
    if !is_object(v) {
        return Decision::MalformedIgnore;
    }
    let t = match read_req_str(get_field(v, "type")) {
        Ok(b) => b,
        Err(_) => {
            return Decision::MalformedIgnore;
        },
    };
    // delta: the text to emit, present only when the sub-object says
    // text_delta and carries text
    let delta_text: Option<Vec<u8>>;
    match get_field(v, "delta") {
        None => {
            delta_text = None;
        },
        Some(d) => {
            if is_null(d) {
                delta_text = None;
            } else if !is_object(d) {
                return Decision::MalformedIgnore;
            } else {
                let dt = match read_opt_str(get_field(d, "type")) {
                    Ok(x) => x,
                    Err(_) => {
                        return Decision::MalformedIgnore;
                    },
                };
                let dtx = match read_opt_str(get_field(d, "text")) {
                    Ok(x) => x,
                    Err(_) => {
                        return Decision::MalformedIgnore;
                    },
                };
                let is_text_delta = match dt {
                    Some(b) => bytes_eq(b.as_slice(), "text_delta".as_bytes()),
                    None => false,
                };
                delta_text = if is_text_delta {
                    dtx
                } else {
                    None
                };
            }
        },
    }
    // error: the reported pair, when the sub-object is present
    let error_parts: Option<(Vec<u8>, Vec<u8>)>;
    match get_field(v, "error") {
        None => {
            error_parts = None;
        },
        Some(e) => {
            if is_null(e) {
                error_parts = None;
            } else if !is_object(e) {
                return Decision::MalformedIgnore;
            } else {
                let et = match read_req_str(get_field(e, "type")) {
                    Ok(x) => x,
                    Err(_) => {
                        return Decision::MalformedIgnore;
                    },
                };
                let em = match read_req_str(get_field(e, "message")) {
                    Ok(x) => x,
                    Err(_) => {
                        return Decision::MalformedIgnore;
                    },
                };
                error_parts = Some((et, em));
            }
        },
    }
    if !check_opt_u32(get_field(v, "index")) {
        return Decision::MalformedIgnore;
    }
    if bytes_eq(t.as_slice(), "content_block_delta".as_bytes()) {
        match delta_text {
            Some(txt) => Decision::EmitText(txt),
            None => Decision::Ignore,
        }
    } else if bytes_eq(t.as_slice(), "error".as_bytes()) {
        match error_parts {
            Some((et, em)) => Decision::ReportError(
                build_error_message(et.as_slice(), em.as_slice()),
            ),
            None => Decision::Ignore,
        }
    } else {
        Decision::Ignore
    }
}

} // verus!
