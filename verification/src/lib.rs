//! Streaming response normalization for chat-completion providers.
//!
//! The library turns a provider-specific, line-delimited server-sent-event
//! stream into one provider-agnostic sequence of chunk, error and end events.
//! The transport (HTTP, process management, the UI event channel) lives
//! outside; this crate holds the logic that is worth proving: frame
//! splitting over an arbitrarily chunked byte stream, payload extraction,
//! per-provider event classification, and the session state machine with
//! its terminal-once guarantee.

pub mod anthropic;
pub mod decode;
pub mod extract;
pub mod frames;
pub mod json;
pub mod mcp;
pub mod openai;
pub mod proxy;
pub mod session;
pub mod text;
