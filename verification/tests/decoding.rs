use stream_relay::decode::{decode, Decision, Provider};
use stream_relay::extract::extract_payload;
use stream_relay::frames::take_frames;
use stream_relay::session::{NormalizedEvent, StreamSession};

fn emitted(provider: Provider, payload: &[u8]) -> Vec<Vec<u8>> {
    let mut out = Vec::new();
    for d in decode(provider, payload) {
        if let Decision::EmitText(t) = d {
            out.push(t);
        }
    }
    out
}

fn is_single_malformed(ds: &[Decision]) -> bool {
    ds.len() == 1 && matches!(ds[0], Decision::MalformedIgnore)
}

#[test]
fn sentinel_is_ignored_even_with_spaces() {
    let ds = decode(Provider::OpenAI, b"  [DONE]  ");
    assert_eq!(ds.len(), 1);
    assert!(matches!(ds[0], Decision::Ignore));
    let ds = decode(Provider::Anthropic, b"[DONE]");
    assert_eq!(ds.len(), 1);
    assert!(matches!(ds[0], Decision::Ignore));
}

#[test]
fn invalid_json_is_malformed() {
    assert!(is_single_malformed(&decode(Provider::OpenAI, b"{")));
    assert!(is_single_malformed(&decode(Provider::Anthropic, b"not json")));
}

#[test]
fn anthropic_ignored_event_types() {
    for payload in [
        b"{\"type\":\"message_start\",\"message\":{}}".as_slice(),
        b"{\"type\":\"message_delta\",\"usage\":{\"output_tokens\":3}}".as_slice(),
        b"{\"type\":\"message_stop\"}".as_slice(),
        b"{\"type\":\"ping\"}".as_slice(),
        b"{\"type\":\"sometime_new\"}".as_slice(),
    ] {
        let ds = decode(Provider::Anthropic, payload);
        assert_eq!(ds.len(), 1);
        assert!(matches!(ds[0], Decision::Ignore), "payload {:?}", payload);
    }
}

#[test]
fn anthropic_text_delta_emits() {
    let texts = emitted(
        Provider::Anthropic,
        b"{\"type\":\"content_block_delta\",\"index\":0,\"delta\":{\"type\":\"text_delta\",\"text\":\"Hello\"}}",
    );
    assert_eq!(texts.len(), 1);
    assert_eq!(texts[0].as_slice(), b"Hello".as_slice());
}

#[test]
fn anthropic_non_text_delta_is_ignored() {
    let ds = decode(
        Provider::Anthropic,
        b"{\"type\":\"content_block_delta\",\"delta\":{\"type\":\"input_json_delta\",\"partial_json\":\"{\"}}",
    );
    assert_eq!(ds.len(), 1);
    assert!(matches!(ds[0], Decision::Ignore));
}

#[test]
fn anthropic_delta_without_text_is_ignored() {
    let ds = decode(
        Provider::Anthropic,
        b"{\"type\":\"content_block_delta\",\"delta\":{\"type\":\"text_delta\"}}",
    );
    assert_eq!(ds.len(), 1);
    assert!(matches!(ds[0], Decision::Ignore));
}

#[test]
fn anthropic_wrongly_typed_fields_are_malformed() {
    // delta must be an object when present
    assert!(is_single_malformed(&decode(
        Provider::Anthropic,
        b"{\"type\":\"ping\",\"delta\":\"x\"}",
    )));
    // the discriminant itself must be a string
    assert!(is_single_malformed(&decode(Provider::Anthropic, b"{\"type\":7}")));
    // and must be present
    assert!(is_single_malformed(&decode(Provider::Anthropic, b"{\"delta\":{}}")));
    // index must be an unsigned 32-bit number when present
    assert!(is_single_malformed(&decode(
        Provider::Anthropic,
        b"{\"type\":\"ping\",\"index\":-1}",
    )));
    assert!(is_single_malformed(&decode(
        Provider::Anthropic,
        b"{\"type\":\"ping\",\"index\":4294967296}",
    )));
    // an error event needs both of its string fields
    assert!(is_single_malformed(&decode(
        Provider::Anthropic,
        b"{\"type\":\"error\",\"error\":{\"type\":\"overloaded\"}}",
    )));
}

#[test]
fn anthropic_error_event_message() {
    let ds = decode(
        Provider::Anthropic,
        b"{\"type\":\"error\",\"error\":{\"type\":\"overloaded\",\"message\":\"busy\"}}",
    );
    assert_eq!(ds.len(), 1);
    match &ds[0] {
        Decision::ReportError(m) => {
            assert_eq!(m.as_slice(), b"API Error Event: [overloaded] busy".as_slice())
        },
        _ => panic!("expected a reported error"),
    }
}

#[test]
fn openai_empty_or_absent_content_is_ignored() {
    let ds = decode(Provider::OpenAI, b"{\"choices\":[{\"delta\":{\"content\":\"\"}}]}");
    assert_eq!(ds.len(), 1);
    assert!(matches!(ds[0], Decision::Ignore));
    let ds = decode(
        Provider::OpenAI,
        b"{\"choices\":[{\"delta\":{\"role\":\"assistant\"},\"finish_reason\":null}]}",
    );
    assert_eq!(ds.len(), 1);
    assert!(matches!(ds[0], Decision::Ignore));
    let ds = decode(Provider::OpenAI, b"{\"choices\":[{\"finish_reason\":\"stop\"}]}");
    assert_eq!(ds.len(), 1);
    assert!(matches!(ds[0], Decision::Ignore));
}

#[test]
fn openai_choices_shape_is_required() {
    assert!(is_single_malformed(&decode(Provider::OpenAI, b"{\"id\":\"x\"}")));
    assert!(is_single_malformed(&decode(Provider::OpenAI, b"{\"choices\":\"x\"}")));
    assert!(is_single_malformed(&decode(Provider::OpenAI, b"{\"choices\":[3]}")));
    assert!(is_single_malformed(&decode(
        Provider::OpenAI,
        b"{\"choices\":[{\"delta\":{\"content\":7}}]}",
    )));
    assert!(is_single_malformed(&decode(Provider::OpenAI, b"[]")));
}

#[test]
fn openai_each_choice_decides_in_order() {
    let texts = emitted(
        Provider::OpenAI,
        b"{\"choices\":[{\"delta\":{\"content\":\"one\"}},{\"delta\":{}},{\"delta\":{\"content\":\"two\"}}]}",
    );
    assert_eq!(texts.len(), 2);
    assert_eq!(texts[0].as_slice(), b"one".as_slice());
    assert_eq!(texts[1].as_slice(), b"two".as_slice());
}

#[test]
fn extract_last_data_line_wins() {
    let payload = extract_payload(b"event: delta\ndata: first\ndata: second").unwrap();
    assert_eq!(payload.as_slice(), b"second".as_slice());
}

#[test]
fn extract_without_data_line_is_none() {
    assert!(extract_payload(b"event: ping\nid: 7").is_none());
    assert!(extract_payload(b"").is_none());
}

#[test]
fn extract_strips_carriage_returns() {
    let payload = extract_payload(b"data: hello\r\nevent: x\r").unwrap();
    assert_eq!(payload.as_slice(), b"hello".as_slice());
}

#[test]
fn take_frames_splits_and_keeps_the_tail() {
    let mut buf: Vec<u8> = b"  one \n\ntwo\n\npart".to_vec();
    let frames = take_frames(&mut buf);
    assert_eq!(frames.len(), 2);
    assert_eq!(frames[0].as_slice(), b"one".as_slice());
    assert_eq!(frames[1].as_slice(), b"two".as_slice());
    assert_eq!(buf.as_slice(), b"part".as_slice());
    let frames = take_frames(&mut buf);
    assert!(frames.is_empty());
    assert_eq!(buf.as_slice(), b"part".as_slice());
}

#[test]
fn empty_reads_and_blank_frames_yield_nothing() {
    let mut s = StreamSession::begin(Provider::OpenAI);
    assert!(s.on_bytes(b"").is_empty());
    assert!(s.on_bytes(b"\n\n\n\n").is_empty());
    assert!(!s.is_finished());
    let mut buf: Vec<u8> = b"\n\n".to_vec();
    let frames = take_frames(&mut buf);
    assert_eq!(frames.len(), 1);
    assert!(frames[0].is_empty());
    assert!(buf.is_empty());
}

#[test]
fn anthropic_stream_end_to_end() {
    let mut s = StreamSession::begin(Provider::Anthropic);
    let mut chunks: Vec<Vec<u8>> = Vec::new();
    let mut ends = 0;
    let stream: &[u8] = b"event: message_start\ndata: {\"type\":\"message_start\",\"message\":{}}\n\nevent: content_block_delta\ndata: {\"type\":\"content_block_delta\",\"delta\":{\"type\":\"text_delta\",\"text\":\"Hel\"}}\n\nevent: content_block_delta\ndata: {\"type\":\"content_block_delta\",\"delta\":{\"type\":\"text_delta\",\"text\":\"lo\"}}\n\nevent: message_stop\ndata: {\"type\":\"message_stop\"}\n\n";
    for piece in stream.chunks(7) {
        for e in s.on_bytes(piece) {
            match e {
                NormalizedEvent::Chunk(b) => chunks.push(b),
                NormalizedEvent::Error(m) => panic!("unexpected error: {:?}", m),
                NormalizedEvent::End => ends += 1,
            }
        }
    }
    for e in s.on_close() {
        if let NormalizedEvent::End = e {
            ends += 1;
        }
    }
    assert_eq!(chunks.len(), 2);
    assert_eq!(chunks[0].as_slice(), b"0:\"Hel\"\n".as_slice());
    assert_eq!(chunks[1].as_slice(), b"0:\"lo\"\n".as_slice());
    assert_eq!(ends, 1);
    assert!(s.is_finished());
}
