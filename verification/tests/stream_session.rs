use stream_relay::decode::Provider;
use stream_relay::proxy::ProxyError;
use stream_relay::session::{NormalizedEvent, StreamSession};

fn chunk_payloads(events: &[NormalizedEvent]) -> Vec<Vec<u8>> {
    let mut out = Vec::new();
    for e in events {
        if let NormalizedEvent::Chunk(b) = e {
            out.push(b.clone());
        }
    }
    out
}

fn error_messages(events: &[NormalizedEvent]) -> Vec<Vec<u8>> {
    let mut out = Vec::new();
    for e in events {
        if let NormalizedEvent::Error(m) = e {
            out.push(m.clone());
        }
    }
    out
}

fn end_count(events: &[NormalizedEvent]) -> usize {
    let mut n = 0;
    for e in events {
        if let NormalizedEvent::End = e {
            n += 1;
        }
    }
    n
}

#[test]
fn text_fidelity_openai_hi() {
    let mut s = StreamSession::begin(Provider::OpenAI);
    let events = s.on_bytes(b"data: {\"choices\":[{\"delta\":{\"content\":\"Hi\"}}]}\n\n");
    assert_eq!(events.len(), 1);
    match &events[0] {
        NormalizedEvent::Chunk(b) => assert_eq!(b.as_slice(), b"0:\"Hi\"\n"),
        _ => panic!("expected a chunk event"),
    }
}

#[test]
fn multi_choice_ordering() {
    let mut s = StreamSession::begin(Provider::OpenAI);
    let events = s.on_bytes(
        b"data: {\"choices\":[{\"delta\":{\"content\":\"A\"}},{\"delta\":{\"content\":\"B\"}}]}\n\n",
    );
    let chunks = chunk_payloads(&events);
    assert_eq!(chunks.len(), 2);
    assert_eq!(chunks[0].as_slice(), b"0:\"A\"\n");
    assert_eq!(chunks[1].as_slice(), b"0:\"B\"\n");
    assert_eq!(events.len(), 2);
}

#[test]
fn sentinel_yields_nothing_and_keeps_session_open() {
    let mut s = StreamSession::begin(Provider::OpenAI);
    let events = s.on_bytes(b"data: [DONE]\n\n");
    assert!(events.is_empty());
    assert!(!s.is_finished());
    // the session still processes later frames
    let more = s.on_bytes(b"data: {\"choices\":[{\"delta\":{\"content\":\"x\"}}]}\n\n");
    assert_eq!(chunk_payloads(&more).len(), 1);
}

#[test]
fn malformed_payload_is_recoverable() {
    let mut s = StreamSession::begin(Provider::OpenAI);
    let events = s.on_bytes(b"data: {not json at all\n\n");
    assert!(events.is_empty());
    assert!(!s.is_finished());
    let more = s.on_bytes(b"data: {\"choices\":[{\"delta\":{\"content\":\"ok\"}}]}\n\n");
    assert_eq!(chunk_payloads(&more).len(), 1);
}

#[test]
fn failed_status_short_circuits() {
    let mut s = StreamSession::begin(Provider::OpenAI);
    let body: Vec<u8> = b"overloaded".to_vec();
    let (events, err) = s.fail_status(500, "500 Internal Server Error", Some(&body));
    assert_eq!(error_messages(&events).len(), 1);
    assert_eq!(chunk_payloads(&events).len(), 0);
    assert_eq!(end_count(&events), 0);
    assert_eq!(
        error_messages(&events)[0].as_slice(),
        b"OpenAI API request failed with status 500 Internal Server Error: overloaded".as_slice(),
    );
    match err {
        ProxyError::Status(code) => assert_eq!(code, 500),
        _ => panic!("expected a status-coded failure"),
    }
    assert!(s.is_finished());
    // no events ever follow the terminal error
    let after = s.on_bytes(b"data: {\"choices\":[{\"delta\":{\"content\":\"x\"}}]}\n\n");
    assert!(after.is_empty());
}

#[test]
fn failed_status_without_body_uses_fallback() {
    let mut s = StreamSession::begin(Provider::Anthropic);
    let (events, _err) = s.fail_status(503, "503 Service Unavailable", None);
    assert_eq!(
        error_messages(&events)[0].as_slice(),
        b"Anthropic API request failed with status 503 Service Unavailable: Failed to read error body"
            .as_slice(),
    );
}

#[test]
fn terminal_end_emitted_once_and_nothing_after() {
    let mut s = StreamSession::begin(Provider::Anthropic);
    let events = s.on_close();
    assert_eq!(events.len(), 1);
    assert_eq!(end_count(&events), 1);
    assert!(s.is_finished());
    assert!(s.on_close().is_empty());
    assert!(s.on_bytes(b"data: [DONE]\n\n").is_empty());
    let (after_err, _) = s.on_read_error("late failure");
    assert!(after_err.is_empty());
}

#[test]
fn read_error_is_terminal() {
    let mut s = StreamSession::begin(Provider::OpenAI);
    let (events, err) = s.on_read_error("connection reset");
    assert_eq!(events.len(), 1);
    assert_eq!(
        error_messages(&events)[0].as_slice(),
        b"Error reading stream chunk: connection reset".as_slice(),
    );
    match err {
        ProxyError::Http(m) => assert_eq!(m, "connection reset"),
        _ => panic!("expected a transport failure"),
    }
    assert!(s.is_finished());
    assert!(s.on_close().is_empty());
}

#[test]
fn provider_a_error_event_keeps_streaming() {
    let mut s = StreamSession::begin(Provider::Anthropic);
    let events = s.on_bytes(
        b"data: {\"type\":\"error\",\"error\":{\"type\":\"overloaded\",\"message\":\"busy\"}}\n\n",
    );
    let errors = error_messages(&events);
    assert_eq!(errors.len(), 1);
    assert_eq!(events.len(), 1);
    let msg = String::from_utf8(errors[0].clone()).unwrap();
    assert!(msg.contains("overloaded"));
    assert!(msg.contains("busy"));
    assert_eq!(msg, "API Error Event: [overloaded] busy");
    assert!(!s.is_finished());
    let more = s.on_bytes(
        b"data: {\"type\":\"content_block_delta\",\"delta\":{\"type\":\"text_delta\",\"text\":\"on\"}}\n\n",
    );
    assert_eq!(chunk_payloads(&more).len(), 1);
}

#[test]
fn boundary_split_across_reads() {
    let whole = b"data: {\"choices\":[{\"delta\":{\"content\":\"Hi\"}}]}\n\n";
    let mut all_at_once = StreamSession::begin(Provider::OpenAI);
    let expect = all_at_once.on_bytes(whole);
    // cut the stream between the two newline bytes of the boundary
    let cut = whole.len() - 1;
    let mut piecewise = StreamSession::begin(Provider::OpenAI);
    let first = piecewise.on_bytes(&whole[..cut]);
    assert!(first.is_empty());
    let second = piecewise.on_bytes(&whole[cut..]);
    assert_eq!(chunk_payloads(&second), chunk_payloads(&expect));
    assert_eq!(second.len(), expect.len());
}

#[test]
fn every_cut_point_gives_the_same_chunks() {
    let whole: &[u8] =
        b"event: x\ndata: {\"choices\":[{\"delta\":{\"content\":\"a\"}}]}\n\ndata: {\"choices\":[{\"delta\":{\"content\":\"b\"}}]}\n\n";
    let mut reference = StreamSession::begin(Provider::OpenAI);
    let expect = chunk_payloads(&reference.on_bytes(whole));
    assert_eq!(expect.len(), 2);
    for cut in 0..=whole.len() {
        let mut s = StreamSession::begin(Provider::OpenAI);
        let mut got = chunk_payloads(&s.on_bytes(&whole[..cut]));
        got.extend(chunk_payloads(&s.on_bytes(&whole[cut..])));
        assert_eq!(got, expect, "cut at {}", cut);
    }
}

#[test]
fn invalid_utf8_chunk_is_reported_and_dropped() {
    let mut s = StreamSession::begin(Provider::OpenAI);
    let events = s.on_bytes(&[0xff, 0xfe, 0x20]);
    let errors = error_messages(&events);
    assert_eq!(errors.len(), 1);
    let msg = String::from_utf8(errors[0].clone()).unwrap();
    assert!(msg.starts_with("Failed to decode chunk as UTF-8: "));
    assert!(msg.contains("invalid utf-8"));
    assert!(!s.is_finished());
    // the bad chunk's bytes were dropped, not buffered
    let more = s.on_bytes(b"data: {\"choices\":[{\"delta\":{\"content\":\"ok\"}}]}\n\n");
    assert_eq!(chunk_payloads(&more).len(), 1);
}

#[test]
fn chunk_envelope_escapes_like_the_wire_format() {
    let mut s = StreamSession::begin(Provider::OpenAI);
    let events = s.on_bytes(b"data: {\"choices\":[{\"delta\":{\"content\":\"a\\\"b\\nc\"}}]}\n\n");
    let chunks = chunk_payloads(&events);
    assert_eq!(chunks.len(), 1);
    assert_eq!(chunks[0].as_slice(), b"0:\"a\\\"b\\nc\"\n".as_slice());
}
