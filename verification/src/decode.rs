//! Provider event decoding: one payload in, a normalized classification out.
//!
//! Each extracted payload is decoded independently. The shared rules sit
//! here: the stream-termination sentinel is ignored (termination is
//! signalled by the transport closing, not by the sentinel), and a payload
//! that fails to parse as JSON is a recoverable condition that must not
//! abort the session. Everything provider-specific lives in the
//! `anthropic` and `openai` modules.

use vstd::prelude::*;
use vstd::utf8::{encode_utf8, valid_utf8};

use crate::anthropic::{a_classify, classify_anthropic};
use crate::json::{json_of, parse_json};
use crate::openai::{b_classify, classify_openai};
use crate::text::{bytes_eq, trim_bytes, trim_spec};

verus! {

/// The provider a session speaks to; fixed when the request is made.
#[derive(Clone, Copy, PartialEq, Eq, Structural, Debug)]
pub enum Provider {
    Anthropic,
    OpenAI,
}

/// What one payload contributes to the normalized stream: emit a text
/// fragment, emit a provider-reported error, or nothing. A payload that is
/// not valid JSON is kept apart from an ignorable one so a driver can log
/// it, though neither reaches the sink.
pub enum Decision {
    EmitText(Vec<u8>),
    Ignore,
    ReportError(Vec<u8>),
    MalformedIgnore,
}

/// The mathematical shape of a `Decision`.
pub enum DecisionRep {
    EmitText(Seq<u8>),
    Ignore,
    ReportError(Seq<u8>),
    MalformedIgnore,
}

impl View for Decision {
    type V = DecisionRep;

    open spec fn view(&self) -> DecisionRep {
        match self {
            Decision::EmitText(t) => DecisionRep::EmitText(t@),
            Decision::Ignore => DecisionRep::Ignore,
            Decision::ReportError(m) => DecisionRep::ReportError(m@),
            Decision::MalformedIgnore => DecisionRep::MalformedIgnore,
        }
    }
}

/// Any text this decision would put on the wire is valid UTF-8.
pub open spec fn decision_valid(d: DecisionRep) -> bool {
    match d {
        DecisionRep::EmitText(t) => valid_utf8(t),
        DecisionRep::ReportError(m) => valid_utf8(m),
        _ => true,
    }
}

/// All of the decisions carry valid UTF-8 text.
pub open spec fn decisions_valid(ds: Seq<DecisionRep>) -> bool {
    forall|i: int| 0 <= i < ds.len() ==> decision_valid(#[trigger] ds[i])
}

/// The stream-termination sentinel: the payload is `[DONE]` once trimmed.
pub open spec fn is_sentinel(payload: Seq<u8>) -> bool {
    trim_spec(payload) == encode_utf8("[DONE]"@)
}

/// What decoding one payload yields, in order: the sentinel is ignored, a
/// payload that is not valid JSON is malformed, and a parsed document is
/// classified by the session's provider.
pub open spec fn decode_spec(provider: Provider, payload: Seq<u8>) -> Seq<DecisionRep> {
    if is_sentinel(payload) {
        seq![DecisionRep::Ignore]
    } else {
        match json_of(payload) {
            None => seq![DecisionRep::MalformedIgnore],
            Some(rep) => match provider {
                Provider::Anthropic => seq![a_classify(rep)],
                Provider::OpenAI => b_classify(rep),
            },
        }
    }
}

/// A one-element decision list.
pub fn single_decision(d: Decision) -> (r: Vec<Decision>)
    ensures
        r@.map_values(|x: Decision| x@) =~= seq![d@],
{
    let mut r: Vec<Decision> = Vec::new();
    r.push(d);
    r
}

/// Decodes one payload for the given provider.
pub fn decode(provider: Provider, payload: &[u8]) -> (r: Vec<Decision>)
    ensures
        r@.map_values(|d: Decision| d@) == decode_spec(provider, payload@),
        decisions_valid(r@.map_values(|d: Decision| d@)),
{
    let trimmed = trim_bytes(payload);
    if bytes_eq(trimmed.as_slice(), "[DONE]".as_bytes()) {
        return single_decision(Decision::Ignore);
    }
    match parse_json(payload) {
        Err(_) => single_decision(Decision::MalformedIgnore),
        Ok(v) => match provider {
            Provider::Anthropic => single_decision(classify_anthropic(&v)),
            Provider::OpenAI => classify_openai(&v),
        },
    }
}

} // verus!
