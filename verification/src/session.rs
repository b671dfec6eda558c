//! The session driver: one streaming request as a state machine.
//!
//! A session starts `Streaming` and moves to `Finished` exactly once: on
//! stream exhaustion (with an `End` event), on a transport read failure, or
//! on a non-success initial response (each with a terminal `Error` event).
//! Text fragments become `Chunk` events in arrival order; provider-reported
//! error events are surfaced without closing the session; a malformed
//! payload or an undecodable chunk is absorbed and the session continues.
//! `lemma_terminal_once` proves the terminal-once guarantee over every
//! input sequence.

use vstd::prelude::*;
use vstd::utf8::{encode_utf8, valid_utf8};

use crate::decode::{decode, decode_spec, decision_valid, Decision, DecisionRep, Provider};
use crate::extract::{extract_payload, extract_spec};
use crate::frames::{split_frames, split_rest, take_frames};
use crate::json::{json_quoted, quote_json_string};
use crate::proxy::ProxyError;
use crate::text::{push_bytes, utf8_error};

verus! {

/// One normalized event, as handed to the sink: a text chunk in its wire
/// envelope, an error notification, or the end of the stream.
pub enum NormalizedEvent {
    Chunk(Vec<u8>),
    Error(Vec<u8>),
    End,
}

/// The mathematical shape of a `NormalizedEvent`.
pub enum EventRep {
    Chunk(Seq<u8>),
    Error(Seq<u8>),
    End,
}

impl View for NormalizedEvent {
    type V = EventRep;

    open spec fn view(&self) -> EventRep {
        match self {
            NormalizedEvent::Chunk(b) => EventRep::Chunk(b@),
            NormalizedEvent::Error(m) => EventRep::Error(m@),
            NormalizedEvent::End => EventRep::End,
        }
    }
}

/// What a session reacts to: a chunk of transport bytes, a transport read
/// failure, a non-success initial response (status text and best-effort
/// error body), or the transport closing.
pub enum InputRep {
    Bytes(Seq<u8>),
    ReadError(Seq<u8>),
    FailedStatus(Seq<u8>, Option<Seq<u8>>),
    Closed,
}

/// The wire envelope of one text chunk: `0:`, the JSON string literal of
/// the text, and a newline — a fixed contract with the UI layer.
pub open spec fn chunk_envelope_spec(text: Seq<u8>) -> Seq<u8> {
    encode_utf8("0:"@) + json_quoted(text) + encode_utf8("\n"@)
}

/// The message surfaced when a chunk is not valid UTF-8 (recoverable):
/// the fixed prefix and the decoder's rendered detail.
pub open spec fn utf8_error_message(chunk: Seq<u8>) -> Seq<u8> {
    encode_utf8("Failed to decode chunk as UTF-8: "@) + encode_utf8(
        crate::text::utf8_error_detail(chunk),
    )
}

/// The message surfaced when reading the stream fails (terminal).
pub open spec fn read_error_message(detail: Seq<u8>) -> Seq<u8> {
    encode_utf8("Error reading stream chunk: "@) + detail
}

/// The name a provider goes by in surfaced messages.
pub open spec fn provider_label(p: Provider) -> Seq<u8> {
    match p {
        Provider::Anthropic => encode_utf8("Anthropic"@),
        Provider::OpenAI => encode_utf8("OpenAI"@),
    }
}

/// The error body, or the fixed fallback when it could not be read.
pub open spec fn body_or_fallback(body: Option<Seq<u8>>) -> Seq<u8> {
    match body {
        Some(b) => b,
        None => encode_utf8("Failed to read error body"@),
    }
}

/// The message surfaced when the initial response is not a success.
pub open spec fn status_error_message(p: Provider, status_text: Seq<u8>, body: Option<Seq<u8>>)
    -> Seq<u8> {
    provider_label(p) + encode_utf8(" API request failed with status "@) + status_text
        + encode_utf8(": "@) + body_or_fallback(body)
}

/// The events one decision contributes.
pub open spec fn decision_events(d: DecisionRep) -> Seq<EventRep> {
    match d {
        DecisionRep::EmitText(t) => seq![EventRep::Chunk(chunk_envelope_spec(t))],
        DecisionRep::ReportError(m) => seq![EventRep::Error(m)],
        _ => Seq::empty(),
    }
}

/// The events a list of decisions contributes, in order.
pub open spec fn decisions_events(ds: Seq<DecisionRep>) -> Seq<EventRep>
    decreases ds.len(),
{
    if ds.len() == 0 {
        Seq::empty()
    } else {
        decisions_events(ds.drop_last()) + decision_events(ds.last())
    }
}

/// The events one frame contributes: nothing without a payload.
pub open spec fn frame_events(p: Provider, frame: Seq<u8>) -> Seq<EventRep> {
    match extract_spec(frame) {
        Some(payload) => decisions_events(decode_spec(p, payload)),
        None => Seq::empty(),
    }
}

/// The events a list of frames contributes, in order.
pub open spec fn frames_events(p: Provider, frames: Seq<Seq<u8>>) -> Seq<EventRep>
    decreases frames.len(),
{
    if frames.len() == 0 {
        Seq::empty()
    } else {
        frames_events(p, frames.drop_last()) + frame_events(p, frames.last())
    }
}

/// A frame whose payload is the stream-termination sentinel contributes no
/// events; termination awaits the transport closing instead.
pub proof fn lemma_sentinel_frame_silent(p: Provider, frame: Seq<u8>)
    requires
        extract_spec(frame) is Some,
        crate::decode::is_sentinel(extract_spec(frame)->0),
    ensures
        frame_events(p, frame) =~= Seq::<EventRep>::empty(),
{
    let ds = decode_spec(p, extract_spec(frame)->0);
    assert(ds =~= seq![DecisionRep::Ignore]);
    assert(ds.drop_last() =~= Seq::<DecisionRep>::empty());
    assert(ds.last() == DecisionRep::Ignore);
    assert(decisions_events(Seq::<DecisionRep>::empty()) =~= Seq::<EventRep>::empty());
    assert(decisions_events(ds) =~= Seq::<EventRep>::empty());
}

/// A frame whose payload is not valid JSON contributes no events either.
pub proof fn lemma_malformed_frame_silent(p: Provider, frame: Seq<u8>)
    requires
        extract_spec(frame) is Some,
        !crate::decode::is_sentinel(extract_spec(frame)->0),
        crate::json::json_of(extract_spec(frame)->0) is None,
    ensures
        frame_events(p, frame) =~= Seq::<EventRep>::empty(),
{
    let ds = decode_spec(p, extract_spec(frame)->0);
    assert(ds =~= seq![DecisionRep::MalformedIgnore]);
    assert(ds.drop_last() =~= Seq::<DecisionRep>::empty());
    assert(ds.last() == DecisionRep::MalformedIgnore);
    assert(decisions_events(Seq::<DecisionRep>::empty()) =~= Seq::<EventRep>::empty());
    assert(decisions_events(ds) =~= Seq::<EventRep>::empty());
}

/// A frame that contributes nothing does not disturb the frames around it:
/// the surrounding stream decodes exactly as if the frame were not there.
pub proof fn lemma_silent_frame_removable(
    p: Provider,
    before: Seq<Seq<u8>>,
    silent: Seq<u8>,
    after: Seq<Seq<u8>>,
)
    requires
        frame_events(p, silent) == Seq::<EventRep>::empty(),
    ensures
        frames_events(p, before + seq![silent] + after) == frames_events(p, before + after),
{
    lemma_frames_events_concat(p, before + seq![silent], after);
    lemma_frames_events_concat(p, before, seq![silent]);
    lemma_frames_events_concat(p, before, after);
    assert(seq![silent].drop_last() =~= Seq::<Seq<u8>>::empty());
    assert(seq![silent].last() == silent);
    assert(frames_events(p, Seq::<Seq<u8>>::empty()) =~= Seq::<EventRep>::empty());
    assert(frames_events(p, seq![silent]) =~= Seq::<EventRep>::empty());
    assert(frames_events(p, before) + (frames_events(p, seq![silent]) + frames_events(p, after))
        =~= frames_events(p, before) + frames_events(p, after));
}

/// The abstract state of a session.
pub struct SessionRep {
    pub provider: Provider,
    pub buffer: Seq<u8>,
    pub finished: bool,
}

/// How a session reacts to one input: the state after it and the events
/// emitted for it. A finished session emits nothing and never changes.
pub open spec fn step(s: SessionRep, inp: InputRep) -> (SessionRep, Seq<EventRep>) {
    if s.finished {
        (s, Seq::empty())
    } else {
        match inp {
            InputRep::Bytes(b) => if !valid_utf8(b) {
                (s, seq![EventRep::Error(utf8_error_message(b))])
            } else {
                let data = s.buffer + b;
                (
                    (SessionRep { buffer: split_rest(data), ..s }),
                    frames_events(s.provider, split_frames(data)),
                )
            },
            InputRep::ReadError(d) => (
                (SessionRep { finished: true, ..s }),
                seq![EventRep::Error(read_error_message(d))],
            ),
            InputRep::FailedStatus(st, body) => (
                (SessionRep { finished: true, ..s }),
                seq![EventRep::Error(status_error_message(s.provider, st, body))],
            ),
            InputRep::Closed => ((SessionRep { finished: true, ..s }), seq![EventRep::End]),
        }
    }
}

/// One in-flight streaming request: the provider it speaks to, the
/// accumulated undecoded bytes, and whether a terminal event went out.
pub struct StreamSession {
    provider: Provider,
    buffer: Vec<u8>,
    finished: bool,
}

impl View for StreamSession {
    type V = SessionRep;

    closed spec fn view(&self) -> SessionRep {
        SessionRep { provider: self.provider, buffer: self.buffer@, finished: self.finished }
    }
}

/// The sink signal that carries one text chunk — a fixed name the UI
/// layer listens on.
pub fn chunk_event_name() -> (r: &'static str)
    ensures
        r@ == "ai-stream-chunk"@,
{
    "ai-stream-chunk"
}

/// The sink signal that carries an error notification.
pub fn error_event_name() -> (r: &'static str)
    ensures
        r@ == "ai-stream-error"@,
{
    "ai-stream-error"
}

/// The sink signal that ends the stream; it carries no payload.
pub fn end_event_name() -> (r: &'static str)
    ensures
        r@ == "ai-stream-end"@,
{
    "ai-stream-end"
}

/// Builds the wire envelope for one text fragment; total on valid UTF-8.
pub fn chunk_envelope(text: &[u8]) -> (r: Option<Vec<u8>>)
    ensures
        valid_utf8(text@) ==> r is Some,
        r matches Some(b) ==> b@ == chunk_envelope_spec(text@),
{
    match quote_json_string(text) {
        Some(q) => {
            let mut out: Vec<u8> = Vec::new();
            push_bytes(&mut out, "0:".as_bytes());
            push_bytes(&mut out, q.as_slice());
            push_bytes(&mut out, "\n".as_bytes());
            proof {
                assert(out@ =~= chunk_envelope_spec(text@));
            }
            Some(out)
        },
        None => None,
    }
}

impl StreamSession {
    /// A fresh session for one request, in the `Streaming` state.
    pub fn begin(provider: Provider) -> (r: StreamSession)
        ensures
            r@ == (SessionRep { provider, buffer: Seq::empty(), finished: false }),
    {
        let r = StreamSession { provider, buffer: Vec::new(), finished: false };
        proof {
            assert(r@.buffer =~= Seq::<u8>::empty());
        }
        r
    }

    /// The provider this session speaks to.
    pub fn provider(&self) -> (r: Provider)
        ensures
            r == self@.provider,
    {
        self.provider
    }

    /// Whether the terminal event already went out.
    pub fn is_finished(&self) -> (r: bool)
        ensures
            r == self@.finished,
    {
        self.finished
    }

    /// Reacts to one chunk of transport bytes: buffers it, takes every
    /// complete frame, and turns the decoded decisions into events, in
    /// arrival order. Never terminal.
    pub fn on_bytes(&mut self, chunk: &[u8]) -> (events: Vec<NormalizedEvent>)
        ensures
            final(self)@ == step(old(self)@, InputRep::Bytes(chunk@)).0,
            events@.map_values(|e: NormalizedEvent| e@) == step(
                old(self)@,
                InputRep::Bytes(chunk@),
            ).1,
    {
        let ghost pre = self@;
        if self.finished {
            let events: Vec<NormalizedEvent> = Vec::new();
            proof {
                assert(events@.map_values(|e: NormalizedEvent| e@) =~= Seq::<EventRep>::empty());
            }
            return events;
        }
        match utf8_error(chunk) {
            Some(detail) => {
                let mut msg: Vec<u8> = Vec::new();
                push_bytes(&mut msg, "Failed to decode chunk as UTF-8: ".as_bytes());
                push_bytes(&mut msg, detail.as_str().as_bytes());
                let mut events: Vec<NormalizedEvent> = Vec::new();
                events.push(NormalizedEvent::Error(msg));
                proof {
                    assert(msg@ =~= utf8_error_message(chunk@));
                    assert(events@.map_values(|e: NormalizedEvent| e@) =~= seq![
                        EventRep::Error(utf8_error_message(chunk@)),
                    ]);
                }
                return events;
            },
            None => {},
        }
        push_bytes(&mut self.buffer, chunk);
        let ghost data = pre.buffer + chunk@;
        let frames = take_frames(&mut self.buffer);
        let ghost fs = frames@.map_values(|f: Vec<u8>| f@);
        let mut events: Vec<NormalizedEvent> = Vec::new();
        let mut i: usize = 0;
        while i < frames.len()
            invariant
                fs == frames@.map_values(|f: Vec<u8>| f@),
                0 <= i <= fs.len(),
                events@.map_values(|e: NormalizedEvent| e@) == frames_events(
                    pre.provider,
                    fs.take(i as int),
                ),
                self@.provider == pre.provider,
            decreases fs.len() - i,
        {
            let frame = &frames[i];
            match extract_payload(frame.as_slice()) {
                None => {
                    proof {
                        lemma_frames_events_step(pre.provider, fs, i as int);
                        assert(frame_events(pre.provider, fs[i as int]) =~= Seq::<
                            EventRep,
                        >::empty());
                        assert(events@.map_values(|e: NormalizedEvent| e@) =~= frames_events(
                            pre.provider,
                            fs.take(i + 1 as int),
                        ));
                    }
                },
                Some(payload) => {
                    let decisions = decode(self.provider, payload.as_slice());
                    let ghost ds = decisions@.map_values(|d: Decision| d@);
                    let mut j: usize = 0;
                    while j < decisions.len()
                        invariant
                            ds == decisions@.map_values(|d: Decision| d@),
                            crate::decode::decisions_valid(ds),
                            0 <= j <= ds.len(),
                            events@.map_values(|e: NormalizedEvent| e@) == frames_events(
                                pre.provider,
                                fs.take(i as int),
                            ) + decisions_events(ds.take(j as int)),
                        decreases ds.len() - j,
                    {
                        let ghost before = events@.map_values(|e: NormalizedEvent| e@);
                        match &decisions[j] {
                            Decision::EmitText(t) => {
                                proof {
                                    assert(decision_valid(ds[j as int]));
                                }
                                match chunk_envelope(t.as_slice()) {
                                    Some(env) => {
                                        events.push(NormalizedEvent::Chunk(env));
                                    },
                                    None => vstd::pervasive::unreached(),
                                }
                            },
                            Decision::ReportError(m) => {
                                let mut msg: Vec<u8> = Vec::new();
                                push_bytes(&mut msg, m.as_slice());
                                events.push(NormalizedEvent::Error(msg));
                            },
                            Decision::Ignore => {},
                            Decision::MalformedIgnore => {},
                        }
                        proof {
                            assert(ds.take(j + 1 as int) =~= ds.take(j as int).push(ds[j as int]));
                            lemma_decisions_events_push(ds.take(j as int), ds[j as int]);
                            assert(events@.map_values(|e: NormalizedEvent| e@) =~= before
                                + decision_events(ds[j as int]));
                            assert(events@.map_values(|e: NormalizedEvent| e@) =~= frames_events(
                                pre.provider,
                                fs.take(i as int),
                            ) + decisions_events(ds.take(j + 1 as int)));
                        }
                        j += 1;
                    }
                    proof {
                        assert(ds.take(ds.len() as int) =~= ds);
                        lemma_frames_events_step(pre.provider, fs, i as int);
                        assert(frame_events(pre.provider, fs[i as int]) == decisions_events(
                            decode_spec(pre.provider, payload@),
                        ));
                        assert(events@.map_values(|e: NormalizedEvent| e@) =~= frames_events(
                            pre.provider,
                            fs.take(i + 1 as int),
                        ));
                    }
                },
            }
            i += 1;
        }
        proof {
            assert(fs.take(fs.len() as int) =~= fs);
            assert(fs == split_frames(data));
            assert(self@ == step(pre, InputRep::Bytes(chunk@)).0);
        }
        events
    }

    /// Reacts to a transport read failure: surfaces one terminal error
    /// event and hands back the failure the caller must propagate.
    pub fn on_read_error(&mut self, detail: &str) -> (r: (Vec<NormalizedEvent>, ProxyError))
        ensures
            final(self)@ == step(old(self)@, InputRep::ReadError(encode_utf8(detail@))).0,
            r.0@.map_values(|e: NormalizedEvent| e@) == step(
                old(self)@,
                InputRep::ReadError(encode_utf8(detail@)),
            ).1,
            r.1 matches ProxyError::Http(m) && m@ == detail@,
    {
        let err = ProxyError::Http(detail.to_owned());
        let mut events: Vec<NormalizedEvent> = Vec::new();
        if self.finished {
            proof {
                assert(events@.map_values(|e: NormalizedEvent| e@) =~= Seq::<EventRep>::empty());
            }
            return (events, err);
        }
        self.finished = true;
        let mut msg: Vec<u8> = Vec::new();
        push_bytes(&mut msg, "Error reading stream chunk: ".as_bytes());
        push_bytes(&mut msg, detail.as_bytes());
        events.push(NormalizedEvent::Error(msg));
        proof {
            assert(msg@ =~= read_error_message(encode_utf8(detail@)));
            assert(events@.map_values(|e: NormalizedEvent| e@) =~= seq![
                EventRep::Error(read_error_message(encode_utf8(detail@))),
            ]);
        }
        (events, err)
    }

    /// Reacts to a non-success initial response: surfaces one terminal
    /// error event built from the rendered status and the best-effort
    /// error body, and hands back the status-coded failure. No chunk is
    /// ever produced for a failed response.
    pub fn fail_status(&mut self, status: u16, status_text: &str, body: Option<&Vec<u8>>) -> (r: (
        Vec<NormalizedEvent>,
        ProxyError,
    ))
        ensures
            final(self)@ == step(
                old(self)@,
                InputRep::FailedStatus(
                    encode_utf8(status_text@),
                    (match body {
                        Some(b) => Some(b@),
                        None => None,
                    }),
                ),
            ).0,
            r.0@.map_values(|e: NormalizedEvent| e@) == step(
                old(self)@,
                InputRep::FailedStatus(
                    encode_utf8(status_text@),
                    (match body {
                        Some(b) => Some(b@),
                        None => None,
                    }),
                ),
            ).1,
            r.1 matches ProxyError::Status(c) && c == status,
    {
        let ghost inp = InputRep::FailedStatus(
            encode_utf8(status_text@),
            match body {
                Some(b) => Some(b@),
                None => None,
            },
        );
        let err = ProxyError::Status(status);
        let mut events: Vec<NormalizedEvent> = Vec::new();
        if self.finished {
            proof {
                assert(events@.map_values(|e: NormalizedEvent| e@) =~= Seq::<EventRep>::empty());
            }
            return (events, err);
        }
        self.finished = true;
        let mut msg: Vec<u8> = Vec::new();
        match self.provider {
            Provider::Anthropic => push_bytes(&mut msg, "Anthropic".as_bytes()),
            Provider::OpenAI => push_bytes(&mut msg, "OpenAI".as_bytes()),
        }
        push_bytes(&mut msg, " API request failed with status ".as_bytes());
        push_bytes(&mut msg, status_text.as_bytes());
        push_bytes(&mut msg, ": ".as_bytes());
        match body {
            Some(b) => push_bytes(&mut msg, b.as_slice()),
            None => push_bytes(&mut msg, "Failed to read error body".as_bytes()),
        }
        events.push(NormalizedEvent::Error(msg));
        proof {
            assert(msg@ =~= status_error_message(
                self@.provider,
                encode_utf8(status_text@),
                (match body {
                    Some(b) => Some(b@),
                    None => None,
                }),
            ));
            assert(events@.map_values(|e: NormalizedEvent| e@) =~= step(old(self)@, inp).1);
        }
        (events, err)
    }

    /// Reacts to the transport closing normally: the one `End` event.
    pub fn on_close(&mut self) -> (events: Vec<NormalizedEvent>)
        ensures
            final(self)@ == step(old(self)@, InputRep::Closed).0,
            events@.map_values(|e: NormalizedEvent| e@) == step(old(self)@, InputRep::Closed).1,
    {
        let mut events: Vec<NormalizedEvent> = Vec::new();
        if self.finished {
            proof {
                assert(events@.map_values(|e: NormalizedEvent| e@) =~= Seq::<EventRep>::empty());
            }
            return events;
        }
        self.finished = true;
        events.push(NormalizedEvent::End);
        proof {
            assert(events@.map_values(|e: NormalizedEvent| e@) =~= seq![EventRep::End]);
        }
        events
    }
}

/// Unfolds `frames_events` by one frame at the front of the remainder.
proof fn lemma_frames_events_step(p: Provider, fs: Seq<Seq<u8>>, i: int)
    requires
        0 <= i < fs.len(),
    ensures
        frames_events(p, fs.take(i + 1)) == frames_events(p, fs.take(i)) + frame_events(p, fs[i]),
{
    assert(fs.take(i + 1).drop_last() =~= fs.take(i));
    assert(fs.take(i + 1).last() == fs[i]);
}

/// Unfolds `decisions_events` over a push.
proof fn lemma_decisions_events_push(ds: Seq<DecisionRep>, d: DecisionRep)
    ensures
        decisions_events(ds.push(d)) == decisions_events(ds) + decision_events(d),
{
    assert(ds.push(d).drop_last() =~= ds);
    assert(ds.push(d).last() == d);
}

/// The events of a frame list split anywhere.
proof fn lemma_frames_events_concat(p: Provider, a: Seq<Seq<u8>>, b: Seq<Seq<u8>>)
    ensures
        frames_events(p, a + b) == frames_events(p, a) + frames_events(p, b),
    decreases b.len(),
{
    if b.len() == 0 {
        assert(a + b =~= a);
        assert(frames_events(p, a) + frames_events(p, b) =~= frames_events(p, a));
    } else {
        assert((a + b).drop_last() =~= a + b.drop_last());
        assert((a + b).last() == b.last());
        lemma_frames_events_concat(p, a, b.drop_last());
        assert(frames_events(p, a) + frames_events(p, b) =~= (frames_events(p, a) + frames_events(
            p,
            b.drop_last(),
        )) + frame_events(p, b.last()));
    }
}

/// How the transport chunks its reads is invisible: two reads leave the
/// session in the state, and emit together the events, of one read of
/// their concatenation.
pub proof fn lemma_chunking_invisible(s: SessionRep, b1: Seq<u8>, b2: Seq<u8>)
    requires
        !s.finished,
        valid_utf8(b1),
        valid_utf8(b2),
    ensures
        step(step(s, InputRep::Bytes(b1)).0, InputRep::Bytes(b2)).0 == step(
            s,
            InputRep::Bytes(b1 + b2),
        ).0,
        step(s, InputRep::Bytes(b1)).1 + step(step(s, InputRep::Bytes(b1)).0, InputRep::Bytes(b2)).1
            == step(s, InputRep::Bytes(b1 + b2)).1,
{
    broadcast use vstd::utf8::valid_utf8_concat;

    let first = s.buffer + b1;
    assert(valid_utf8(b1 + b2));
    assert(first + b2 =~= s.buffer + (b1 + b2));
    crate::frames::lemma_split_incremental(first, b2);
    lemma_frames_events_concat(
        s.provider,
        split_frames(first),
        split_frames(split_rest(first) + b2),
    );
    assert(step(s, InputRep::Bytes(b1)).1 + step(
        step(s, InputRep::Bytes(b1)).0,
        InputRep::Bytes(b2),
    ).1 =~= step(s, InputRep::Bytes(b1 + b2)).1);
}

// --- the terminal-once guarantee ---

/// The session state after a list of inputs.
pub open spec fn run_state(s: SessionRep, inputs: Seq<InputRep>) -> SessionRep
    decreases inputs.len(),
{
    if inputs.len() == 0 {
        s
    } else {
        step(run_state(s, inputs.drop_last()), inputs.last()).0
    }
}

/// The events the i-th input of a run emits.
pub open spec fn run_output(s: SessionRep, inputs: Seq<InputRep>, i: int) -> Seq<EventRep>
    recommends
        0 <= i < inputs.len(),
{
    step(run_state(s, inputs.take(i)), inputs[i]).1
}

/// An input that, handled while streaming, emits the terminal event: a
/// transport read failure, a failed initial response, or the close.
pub open spec fn is_terminal_input(inp: InputRep) -> bool {
    !(inp is Bytes)
}

/// Whether the i-th step of a run emits `End` or a transport-fatal error.
pub open spec fn emits_terminal(s: SessionRep, inputs: Seq<InputRep>, i: int) -> bool
    recommends
        0 <= i < inputs.len(),
{
    !run_state(s, inputs.take(i)).finished && is_terminal_input(inputs[i])
}

/// Running splits over concatenation of the input list.
pub proof fn lemma_run_append(s: SessionRep, a: Seq<InputRep>, b: Seq<InputRep>)
    ensures
        run_state(s, a + b) == run_state(run_state(s, a), b),
    decreases b.len(),
{
    if b.len() == 0 {
        assert(a + b =~= a);
    } else {
        assert((a + b).drop_last() =~= a + b.drop_last());
        assert((a + b).last() == b.last());
        lemma_run_append(s, a, b.drop_last());
    }
}

/// A finished session stays finished, whatever else arrives.
pub proof fn lemma_finished_persists(s: SessionRep, inputs: Seq<InputRep>)
    requires
        s.finished,
    ensures
        run_state(s, inputs).finished,
    decreases inputs.len(),
{
    if inputs.len() > 0 {
        lemma_finished_persists(s, inputs.drop_last());
    }
}

/// The terminal-once guarantee: across any input sequence, once a step
/// emits `End` or a transport-fatal error — which exactly the terminal
/// inputs handled while streaming do — every later step emits nothing at
/// all. So the terminal event is emitted at most once and is never
/// followed by any further event for that session.
pub proof fn lemma_terminal_once(s: SessionRep, inputs: Seq<InputRep>, i: int, j: int)
    requires
        0 <= i < j < inputs.len(),
        emits_terminal(s, inputs, i),
    ensures
        run_output(s, inputs, j) == Seq::<EventRep>::empty(),
        !emits_terminal(s, inputs, j),
{
    let si = run_state(s, inputs.take(i));
    let after = step(si, inputs[i]).0;
    assert(after.finished);
    assert(inputs.take(i + 1).drop_last() =~= inputs.take(i));
    assert(inputs.take(i + 1).last() == inputs[i]);
    assert(run_state(s, inputs.take(i + 1)) == after);
    let mid = inputs.take(j).subrange(i + 1, j);
    assert(inputs.take(j) =~= inputs.take(i + 1) + mid);
    lemma_run_append(s, inputs.take(i + 1), mid);
    lemma_finished_persists(after, mid);
    assert(run_state(s, inputs.take(j)).finished);
}

} // verus!
