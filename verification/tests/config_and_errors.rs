use stream_relay::anthropic::AnthropicProvider;
use stream_relay::decode::Provider;
use stream_relay::openai::OpenAIProvider;
use stream_relay::mcp::{McpError, ServiceResponse};
use stream_relay::proxy::{
    api_key_env_name, provider_of_name, redact_api_key, status_is_success, ProxyError,
};

#[test]
fn provider_handles_keep_their_key() {
    let a = AnthropicProvider::new("ka".to_string());
    assert_eq!(a.api_key(), "ka");
    let o = OpenAIProvider::new("ko".to_string());
    assert_eq!(o.api_key(), "ko");
}

#[test]
fn provider_names_select_the_decoder() {
    assert!(matches!(provider_of_name("anthropic"), Ok(Provider::Anthropic)));
    assert!(matches!(provider_of_name("openai"), Ok(Provider::OpenAI)));
}

#[test]
fn unknown_provider_is_an_api_key_error() {
    match provider_of_name("bedrock") {
        Err(ProxyError::ApiKey(m)) => assert_eq!(m, "Unsupported provider: bedrock"),
        _ => panic!("expected an unsupported-provider error"),
    }
    match api_key_env_name("") {
        Err(ProxyError::ApiKey(m)) => assert_eq!(m, "Unsupported provider: "),
        _ => panic!("expected an unsupported-provider error"),
    }
}

#[test]
fn api_key_env_names() {
    assert_eq!(api_key_env_name("anthropic").unwrap(), "ANTHROPIC_API_KEY");
    assert_eq!(api_key_env_name("openai").unwrap(), "OPENAI_API_KEY");
}

#[test]
fn status_success_is_the_2xx_range() {
    assert!(status_is_success(200));
    assert!(status_is_success(204));
    assert!(status_is_success(299));
    assert!(!status_is_success(199));
    assert!(!status_is_success(300));
    assert!(!status_is_success(500));
}

#[test]
fn request_body_must_be_json() {
    let v = stream_relay::proxy::parse_request_body(b"{\"model\":\"m\",\"stream\":true}").unwrap();
    assert!(v.is_object());
    match stream_relay::proxy::parse_request_body(b"model=m") {
        Err(ProxyError::Parse(m)) => {
            assert!(m.starts_with("Failed to parse payload into JSON: "));
            assert!(m.len() > "Failed to parse payload into JSON: ".len());
        },
        _ => panic!("expected a parse failure"),
    }
}

#[test]
fn proxy_error_messages() {
    assert_eq!(
        ProxyError::ApiKey("no key".to_string()).message(),
        "API key error: no key",
    );
    assert_eq!(
        ProxyError::Http("connection reset".to_string()).message(),
        "HTTP error: connection reset",
    );
    assert_eq!(ProxyError::Status(500).message(), "API returned status code 500");
    assert_eq!(
        ProxyError::Parse("bad escape".to_string()).message(),
        "Failed to parse response: bad escape",
    );
    assert_eq!(
        ProxyError::Emit("channel closed".to_string()).message(),
        "Failed to emit event: channel closed",
    );
}

#[test]
fn sink_signal_names_are_fixed() {
    assert_eq!(stream_relay::session::chunk_event_name(), "ai-stream-chunk");
    assert_eq!(stream_relay::session::error_event_name(), "ai-stream-error");
    assert_eq!(stream_relay::session::end_event_name(), "ai-stream-end");
}

#[test]
fn redacted_key_shows_only_the_edges() {
    assert_eq!(redact_api_key("sk-abcde12345fghij"), "sk-ab...fghij");
    assert_eq!(redact_api_key("short"), "Key too short to redact safely");
    assert_eq!(redact_api_key("0123456789"), "Key too short to redact safely");
}

#[test]
fn service_response_messages() {
    let r = ServiceResponse::started("files");
    assert!(r.success);
    assert_eq!(r.message, "Service files started successfully");
    let r = ServiceResponse::stopped("files");
    assert!(r.success);
    assert_eq!(r.message, "Service files stopped successfully");
    let r = ServiceResponse::not_found("files");
    assert!(!r.success);
    assert_eq!(r.message, "Service files not found");
    let r = ServiceResponse::tool_called("search");
    assert!(r.success);
    assert_eq!(r.message, "Tool search called successfully");
}

#[test]
fn tools_found_renders_the_count() {
    assert_eq!(ServiceResponse::tools_found(0).message, "Found 0 tools");
    assert_eq!(ServiceResponse::tools_found(7).message, "Found 7 tools");
    assert_eq!(ServiceResponse::tools_found(42).message, "Found 42 tools");
    assert_eq!(ServiceResponse::tools_found(1000).message, "Found 1000 tools");
    assert_eq!(
        ServiceResponse::tools_found(u64::MAX).message,
        "Found 18446744073709551615 tools",
    );
}

#[test]
fn mcp_error_messages() {
    assert_eq!(
        McpError::ServiceNotFound("files".to_string()).message(),
        "Service not found: files",
    );
    assert_eq!(
        McpError::LockError("poisoned".to_string()).message(),
        "Failed to acquire lock: poisoned",
    );
    assert_eq!(McpError::IoError("broken pipe".to_string()).message(), "IO error: broken pipe");
    assert_eq!(
        McpError::RmcpError("handshake".to_string()).message(),
        "RMCP service error: handshake",
    );
    assert_eq!(
        McpError::SerializationError("eof".to_string()).message(),
        "Serialization error: eof",
    );
    assert_eq!(
        McpError::InvalidArguments("Arguments must be a valid JSON object".to_string()).message(),
        "Invalid arguments: Arguments must be a valid JSON object",
    );
    assert_eq!(
        McpError::JsonRpcError("code -32600".to_string()).message(),
        "JSON-RPC error: code -32600",
    );
    assert_eq!(
        McpError::TaskJoinError("cancelled".to_string()).message(),
        "Task join/cancellation error: cancelled",
    );
}
