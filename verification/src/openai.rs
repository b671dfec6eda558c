//! The OpenAI wire format: a chat-completion chunk with an array of
//! choices.
//!
//! Every choice whose delta carries a non-empty `content` string emits one
//! text fragment, in array order; an empty or absent content, an absent
//! delta, and a `finish_reason`, yield nothing. A payload without a
//! `choices` array, or with a choice whose fields do not fit this schema,
//! is malformed and yields nothing.

use vstd::prelude::*;
use vstd::utf8::encode_utf8;

use crate::decode::{decision_valid, decisions_valid, Decision, DecisionRep};
use crate::json::{
    elements_of, get_field, is_null, is_object, jfield, opt_str_ok, opt_str_val, read_opt_str,
    value_rep, JsonRep,
};

verus! {

/// Streams against the OpenAI chat-completions endpoint.
pub struct OpenAIProvider {
    api_key: String,
}

impl View for OpenAIProvider {
    type V = Seq<char>;

    closed spec fn view(&self) -> Seq<char> {
        self.api_key@
    }
}

impl OpenAIProvider {
    /// A provider handle for the given API key.
    pub fn new(api_key: String) -> (r: Self)
        ensures
            r@ == api_key@,
    {
        Self { api_key }
    }

    /// The key the transport must authenticate with.
    pub fn api_key(&self) -> (r: &str)
        ensures
            r@ == self@,
    {
        self.api_key.as_str()
    }
}

/// A choice's `delta`: absent, null, or an object of optional strings.
pub open spec fn b_delta_ok(o: Option<JsonRep>) -> bool {
    match o {
        None => true,
        Some(JsonRep::Null) => true,
        Some(JsonRep::Obj(df)) => opt_str_ok(jfield(df, encode_utf8("role"@))) && opt_str_ok(
            jfield(df, encode_utf8("content"@)),
        ),
        _ => false,
    }
}

/// Whether one element of the `choices` array fits the schema.
pub open spec fn b_choice_ok(c: JsonRep) -> bool {
    match c {
        JsonRep::Obj(cf) => b_delta_ok(jfield(cf, encode_utf8("delta"@))) && opt_str_ok(
            jfield(cf, encode_utf8("finish_reason"@)),
        ),
        _ => false,
    }
}

/// Whether a parsed payload fits the chat-completion chunk schema: an
/// object whose `choices` field is an array of well-formed choices.
pub open spec fn b_shape_ok(rep: JsonRep) -> bool {
    match rep {
        JsonRep::Obj(f) => match jfield(f, encode_utf8("choices"@)) {
            Some(JsonRep::Arr(cs)) => forall|i: int| 0 <= i < cs.len() ==> b_choice_ok(
                #[trigger] cs[i],
            ),
            _ => false,
        },
        _ => false,
    }
}

/// What one well-formed choice contributes: its non-empty content, else
/// nothing.
pub open spec fn b_choice_decision(c: JsonRep) -> DecisionRep
    recommends
        b_choice_ok(c),
{
    match c {
        JsonRep::Obj(cf) => match jfield(cf, encode_utf8("delta"@)) {
            Some(JsonRep::Obj(df)) => match opt_str_val(jfield(df, encode_utf8("content"@))) {
                Some(txt) => if txt.len() > 0 {
                    DecisionRep::EmitText(txt)
                } else {
                    DecisionRep::Ignore
                },
                None => DecisionRep::Ignore,
            },
            _ => DecisionRep::Ignore,
        },
        _ => DecisionRep::Ignore,
    }
}

/// The classification of a parsed OpenAI payload: one decision per choice,
/// in array order.
pub open spec fn b_classify(rep: JsonRep) -> Seq<DecisionRep> {
    if b_shape_ok(rep) {
        match rep {
            JsonRep::Obj(f) => match jfield(f, encode_utf8("choices"@)) {
                Some(JsonRep::Arr(cs)) => cs.map_values(|c: JsonRep| b_choice_decision(c)),
                _ => seq![DecisionRep::MalformedIgnore],
            },
            _ => seq![DecisionRep::MalformedIgnore],
        }
    } else {
        seq![DecisionRep::MalformedIgnore]
    }
}

/// A one-element malformed classification.
fn malformed_list() -> (r: Vec<Decision>)
    ensures
        r@.map_values(|x: Decision| x@) =~= seq![DecisionRep::MalformedIgnore],
        decisions_valid(r@.map_values(|x: Decision| x@)),
{
    let mut r: Vec<Decision> = Vec::new();
    r.push(Decision::MalformedIgnore);
    r
}

/// Classifies one parsed OpenAI payload.
pub fn classify_openai(v: &serde_json::Value) -> (r: Vec<Decision>)
    ensures
        r@.map_values(|d: Decision| d@) == b_classify(value_rep(*v)),
        decisions_valid(r@.map_values(|d: Decision| d@)),
{
    if !is_object(v) {
        return malformed_list();
    }
    let choices_v = match get_field(v, "choices") {
        Some(c) => c,
        None => {
            return malformed_list();
        },
    };
    let elems = match elements_of(choices_v) {
        Some(a) => a,
        None => {
            return malformed_list();
        },
    };
    let ghost crs = value_rep(*choices_v)->Arr_0;
    let mut out: Vec<Decision> = Vec::new();
    let mut i: usize = 0;
    while i < elems.len()
        invariant
            value_rep(*v) matches JsonRep::Obj(f) && jfield(f, encode_utf8("choices"@)) == Some(
                JsonRep::Arr(crs),
            ),
            elems@.len() == crs.len(),
            forall|j: int| 0 <= j < crs.len() ==> value_rep(#[trigger] elems@[j]) == crs[j],
            0 <= i <= crs.len(),
            forall|j: int| 0 <= j < i ==> b_choice_ok(#[trigger] crs[j]),
            out@.map_values(|d: Decision| d@) == crs.take(i as int).map_values(
                |c: JsonRep| b_choice_decision(c),
            ),
            decisions_valid(out@.map_values(|d: Decision| d@)),
        decreases crs.len() - i,
    {
        let c = &elems[i];
        if !is_object(c) {
            return malformed_list();
        }
        let content: Option<Vec<u8>>;
        match get_field(c, "delta") {
            None => {
                content = None;
            },
            Some(d) => {
                if is_null(d) {
                    content = None;
                } else if !is_object(d) {
                    return malformed_list();
                } else {
                    if read_opt_str(get_field(d, "role")).is_err() {
                        return malformed_list();
                    }
                    match read_opt_str(get_field(d, "content")) {
                        Ok(x) => {
                            content = x;
                        },
                        Err(_) => {
                            return malformed_list();
                        },
                    }
                }
            },
        }
        if read_opt_str(get_field(c, "finish_reason")).is_err() {
            return malformed_list();
        }
        proof {
            assert(b_choice_ok(crs[i as int]));
        }
        let decision = match content {
            Some(txt) => {
                if txt.len() > 0 {
                    Decision::EmitText(txt)
                } else {
                    Decision::Ignore
                }
            },
            None => Decision::Ignore,
        };
        proof {
            assert(decision@ == b_choice_decision(crs[i as int]));
        }
        let ghost prior = out@.map_values(|d: Decision| d@);
        out.push(decision);
        proof {
            assert(crs.take(i + 1 as int) =~= crs.take(i as int).push(crs[i as int]));
            assert(crs.take(i + 1 as int).map_values(|c: JsonRep| b_choice_decision(c))
                =~= crs.take(i as int).map_values(|c: JsonRep| b_choice_decision(c)).push(
                b_choice_decision(crs[i as int]),
            ));
            assert(out@.map_values(|d: Decision| d@) =~= prior.push(decision@));
            let newds = out@.map_values(|d: Decision| d@);
            assert(decision_valid(decision@));
            assert forall|k: int| 0 <= k < newds.len() implies decision_valid(
                #[trigger] newds[k],
            ) by {
                if k < newds.len() - 1 {
                    assert(newds[k] == prior[k]);
                } else {
                    assert(newds[k] == decision@);
                }
            }
        }
        i += 1;
    }
    proof {
        assert(crs.take(crs.len() as int) =~= crs);
        assert(b_shape_ok(value_rep(*v)));
    }
    out
}

} // verus!
