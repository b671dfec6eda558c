//! Provider selection and the proxy error taxonomy.
//!
//! Only a transport-level failure — a connection error or a non-success
//! initial status — counts as a function-level failure of a streaming
//! session; everything else is absorbed and surfaced at most as a sink
//! event.

use vstd::prelude::*;
use vstd::string::StringSliceAdditionalSpecFns;
use vstd::utf8::{encode_utf8, is_char_boundary};

use crate::decode::Provider;
use crate::json::{json_of, parse_json, value_rep};
use crate::text::{concat2, concat3, decimal_of, decimal_string, lemma_encode_concat, str_eq};

verus! {

/// Errors a proxy session surfaces to its caller.
#[derive(Debug)]
pub enum ProxyError {
    /// A missing or malformed key, or a provider this backend does not know.
    ApiKey(String),
    /// A transport-level failure, by its rendered description.
    Http(String),
    /// A non-success initial response status.
    Status(u16),
    /// A failure to encode an outgoing chunk.
    Parse(String),
    /// A failure to deliver an event to the sink.
    Emit(String),
}

/// Whether an initial response status counts as success (2xx).
pub fn status_is_success(status: u16) -> (r: bool)
    ensures
        r == (200 <= status && status < 300),
{
    200 <= status && status < 300
}

/// The environment variable that holds the given provider's API key.
pub fn api_key_env_name(provider: &str) -> (r: Result<&'static str, ProxyError>)
    ensures
        provider@ == "anthropic"@ ==> (r matches Ok(n) && n@ == "ANTHROPIC_API_KEY"@),
        provider@ == "openai"@ ==> (r matches Ok(n) && n@ == "OPENAI_API_KEY"@),
        !(provider@ == "anthropic"@) && !(provider@ == "openai"@) ==> (r matches Err(e)
            && e matches ProxyError::ApiKey(m) && m@ == "Unsupported provider: "@ + provider@),
{
    proof {
        reveal_strlit("anthropic");
        reveal_strlit("openai");
        assert("anthropic"@.len() != "openai"@.len());
    }
    if str_eq(provider, "anthropic") {
        Ok("ANTHROPIC_API_KEY")
    } else if str_eq(provider, "openai") {
        Ok("OPENAI_API_KEY")
    } else {
        Err(ProxyError::ApiKey(concat2("Unsupported provider: ", provider)))
    }
}

/// The form an API key takes in diagnostics: its first and last five bytes
/// around an ellipsis, or a fixed note when it is too short to redact
/// safely. The cuts must fall on character boundaries; elsewhere the key
/// cannot be sliced.
pub fn redact_api_key(key: &str) -> (r: String)
    requires
        encode_utf8(key@).len() <= usize::MAX,
        encode_utf8(key@).len() > 10 ==> is_char_boundary(encode_utf8(key@), 5) && is_char_boundary(
            encode_utf8(key@),
            encode_utf8(key@).len() - 5,
        ),
    ensures
        encode_utf8(key@).len() > 10 ==> encode_utf8(r@) == encode_utf8(key@).take(5)
            + encode_utf8("..."@) + encode_utf8(key@).skip(encode_utf8(key@).len() - 5),
        encode_utf8(key@).len() <= 10 ==> r@ == "Key too short to redact safely"@,
{
    proof {
        assert(key.spec_bytes() == encode_utf8(key@));
    }
    let n = key.len();
    if n > 10 {
        let (head, _) = key.split_at(5);
        let (_, tail) = key.split_at(n - 5);
        let r = concat3(head, "...", tail);
        proof {
            assert(head.spec_bytes() == encode_utf8(head@));
            assert(tail.spec_bytes() == encode_utf8(tail@));
            assert(encode_utf8(head@) =~= encode_utf8(key@).take(5));
            assert(encode_utf8(tail@) =~= encode_utf8(key@).skip(encode_utf8(key@).len() - 5));
            lemma_encode_concat(head@, "..."@);
            lemma_encode_concat(head@ + "..."@, tail@);
            assert(head@ + "..."@ + tail@ == r@);
            assert(encode_utf8(r@) =~= encode_utf8(key@).take(5) + encode_utf8("..."@)
                + encode_utf8(key@).skip(encode_utf8(key@).len() - 5));
        }
        r
    } else {
        "Key too short to redact safely".to_owned()
    }
}

/// Parses the request payload a caller hands in; a request that is not
/// valid JSON is rejected before anything is sent upstream, with the
/// parser's rendered detail behind a fixed prefix.
pub fn parse_request_body(payload: &[u8]) -> (r: Result<serde_json::Value, ProxyError>)
    ensures
        match r {
            Ok(v) => json_of(payload@) == Some(value_rep(v)),
            Err(e) => json_of(payload@) is None && (e matches ProxyError::Parse(m)
                && exists|detail: Seq<char>| m@ == "Failed to parse payload into JSON: "@ + detail),
        },
{
    match parse_json(payload) {
        Ok(v) => Ok(v),
        Err(detail) => {
            let m = concat2("Failed to parse payload into JSON: ", detail.as_str());
            proof {
                assert(m@ == "Failed to parse payload into JSON: "@ + detail@);
            }
            Err(ProxyError::Parse(m))
        },
    }
}

impl ProxyError {
    /// The message this error displays as.
    pub fn message(&self) -> (r: String)
        ensures
            self matches ProxyError::ApiKey(m) ==> r@ == "API key error: "@ + m@,
            self matches ProxyError::Http(m) ==> r@ == "HTTP error: "@ + m@,
            self matches ProxyError::Status(c) ==> r@ == "API returned status code "@ + decimal_of(
                *c as int,
            ),
            self matches ProxyError::Parse(m) ==> r@ == "Failed to parse response: "@ + m@,
            self matches ProxyError::Emit(m) ==> r@ == "Failed to emit event: "@ + m@,
    {
        match self {
            ProxyError::ApiKey(m) => concat2("API key error: ", m.as_str()),
            ProxyError::Http(m) => concat2("HTTP error: ", m.as_str()),
            ProxyError::Status(c) => {
                let rendered = decimal_string(*c as u64);
                concat2("API returned status code ", rendered.as_str())
            },
            ProxyError::Parse(m) => concat2("Failed to parse response: ", m.as_str()),
            ProxyError::Emit(m) => concat2("Failed to emit event: ", m.as_str()),
        }
    }
}

/// Selects the provider a request names.
pub fn provider_of_name(provider: &str) -> (r: Result<Provider, ProxyError>)
    ensures
        provider@ == "anthropic"@ ==> (r matches Ok(p) && p == Provider::Anthropic),
        provider@ == "openai"@ ==> (r matches Ok(p) && p == Provider::OpenAI),
        !(provider@ == "anthropic"@) && !(provider@ == "openai"@) ==> (r matches Err(e)
            && e matches ProxyError::ApiKey(m) && m@ == "Unsupported provider: "@ + provider@),
{
    proof {
        reveal_strlit("anthropic");
        reveal_strlit("openai");
        assert("anthropic"@.len() != "openai"@.len());
    }
    if str_eq(provider, "anthropic") {
        Ok(Provider::Anthropic)
    } else if str_eq(provider, "openai") {
        Ok(Provider::OpenAI)
    } else {
        Err(ProxyError::ApiKey(concat2("Unsupported provider: ", provider)))
    }
}

} // verus!
