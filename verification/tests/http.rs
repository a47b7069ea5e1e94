use hipfire_serve::backpressure::{SendStep, StreamBackpressure, StreamStallError, TrySend};
use hipfire_serve::http::{
    admission_status, announces_too_much, append_bounded, body_error_status, body_failed_text,
    delta_chunk, finish_sse_stream, first_chunk, health_body, leased_model, models_body,
    openai_error, read_chat_facts, read_json_body, request_error_status, request_id, route,
    sse_data, stats_body, stream_model, terminal_payload, worker_failure, AckBody,
    AdmissionErrorKind, BodyStep, ChannelBody, FlushAcks, LocalModel, Method, Polled,
    ResponseChunk, Route, ServeCounts, Settled, StreamEnd, WorkerEnd,
};
use serde_json::Value;
use std::sync::mpsc::{channel, Sender};
use tokio::sync::mpsc::error::{TryRecvError, TrySendError};

type Ack = Sender<Result<(), ()>>;

fn settle(acks: Vec<Settled<Ack>>) {
    for a in acks {
        let _ = a.ack.send(if a.delivered { Ok(()) } else { Err(()) });
    }
}

#[test]
fn ack_body_poll_alone_does_not_ack() {
    let mut acks: FlushAcks<Ack> = FlushAcks::new();
    let (ack_tx, ack_rx) = channel();
    let mut body = AckBody::new(b"{}".to_vec(), ack_tx);
    // Yields the data frame and registers with the tracker.
    assert_eq!(body.poll_frame(&mut acks), Some(b"{}".to_vec()));
    // The second poll is the end: still no acknowledgement.
    assert_eq!(body.poll_frame(&mut acks), None);
    assert!(
        ack_rx.try_recv().is_err(),
        "body poll must not ack before socket flush"
    );
    settle(acks.drain_ok());
    assert_eq!(ack_rx.try_recv(), Ok(Ok(())));
    assert!(body.abandon().is_none(), "registered: nothing left to settle");
}

/// Polls a body over a real channel.
fn poll(
    body: &mut ChannelBody,
    rx: &mut tokio::sync::mpsc::Receiver<ResponseChunk<Ack>>,
    acks: &mut FlushAcks<Ack>,
) -> BodyStep<Ack> {
    let polled = match rx.try_recv() {
        Ok(chunk) => Polled::Chunk(chunk),
        Err(TryRecvError::Empty) => Polled::Pending,
        Err(TryRecvError::Disconnected) => Polled::Closed,
    };
    body.poll_frame(polled, acks)
}

#[test]
fn channel_body_poll_alone_does_not_ack() {
    let mut acks: FlushAcks<Ack> = FlushAcks::new();
    let (tx, mut rx) = tokio::sync::mpsc::channel(1);
    let (ack_tx, ack_rx) = channel();
    let mut body = ChannelBody::new();
    assert!(matches!(poll(&mut body, &mut rx, &mut acks), BodyStep::Wait));
    tx.try_send(ResponseChunk {
        bytes: b"data: hi\n\n".to_vec(),
        ack: Some(ack_tx),
        fail: false,
    })
    .expect("send chunk");
    drop(tx);
    match poll(&mut body, &mut rx, &mut acks) {
        BodyStep::Yield(bytes) => assert_eq!(bytes, b"data: hi\n\n".to_vec()),
        _ => panic!("expected data frame"),
    }
    // Further polls (EOF) must not complete the terminal ack.
    assert!(matches!(poll(&mut body, &mut rx, &mut acks), BodyStep::End));
    assert!(
        ack_rx.try_recv().is_err(),
        "channel body poll must not ack before socket flush"
    );
    settle(acks.drain_ok());
    assert_eq!(ack_rx.try_recv(), Ok(Ok(())));
}

#[test]
fn tracked_io_drop_before_flush_fails_ack() {
    let mut acks: FlushAcks<Ack> = FlushAcks::new();
    let (ack_tx, ack_rx) = channel();
    let mut body = AckBody::new(b"x".to_vec(), ack_tx);
    assert!(body.poll_frame(&mut acks).is_some());
    // The connection goes away without a flush.
    settle(acks.drain_err());
    assert_eq!(ack_rx.try_recv(), Ok(Err(())));
    assert!(acks.queue.is_empty());
}

#[test]
fn ack_body_drop_before_registration_fails() {
    let (ack_tx, ack_rx) = channel();
    let body = AckBody::new(b"x".to_vec(), ack_tx);
    settle(body.abandon().into_iter().collect());
    assert_eq!(ack_rx.try_recv(), Ok(Err(())));
}

#[test]
fn failed_and_empty_chunks_never_acknowledge() {
    let mut acks: FlushAcks<Ack> = FlushAcks::new();
    let mut body = ChannelBody::new();
    let (ack_tx, ack_rx) = channel();
    let empty = ResponseChunk {
        bytes: Vec::new(),
        ack: Some(ack_tx),
        fail: false,
    };
    match body.on_chunk(empty, &mut acks) {
        BodyStep::Skip(s) => settle(s.into_iter().collect()),
        _ => panic!("an empty chunk is skipped"),
    }
    assert_eq!(ack_rx.try_recv(), Ok(Err(())));
    assert!(matches!(
        body.on_chunk(ResponseChunk::<Ack>::fail(), &mut acks),
        BodyStep::Fail(None)
    ));
    assert!(body.failed);
    let late = ResponseChunk::<Ack>::plain(b"late".to_vec());
    assert!(matches!(body.on_chunk(late, &mut acks), BodyStep::Fail(None)));
    assert_eq!(body_failed_text(), "response body failed after terminal delivery");
}

#[test]
fn acks_settle_in_order() {
    let mut acks: FlushAcks<u32> = FlushAcks::new();
    for n in [5, 3, 9] {
        acks.register(n);
    }
    let got: Vec<(u32, bool)> = acks.drain_ok().iter().map(|s| (s.ack, s.delivered)).collect();
    assert_eq!(got, vec![(5, true), (3, true), (9, true)]);
    assert!(acks.drain_err().is_empty());
}

// ---- Stream backpressure ----

/// Offers a chunk to a real bounded channel.
fn send(
    bp: &mut StreamBackpressure,
    tx: &tokio::sync::mpsc::Sender<ResponseChunk<Ack>>,
    chunk: ResponseChunk<Ack>,
    now_ms: u64,
) -> Result<(), StreamStallError> {
    bp.before_send()?;
    let n = chunk.bytes.len() as u64;
    let outcome = match tx.try_send(chunk) {
        Ok(()) => TrySend::Sent,
        Err(TrySendError::Full(_)) => TrySend::Full,
        Err(TrySendError::Closed(_)) => TrySend::Closed,
    };
    match bp.on_try_send(outcome, n, now_ms) {
        SendStep::Sent => Ok(()),
        SendStep::Wait => panic!("no test waits for room"),
        SendStep::Stalled => Err(StreamStallError),
    }
}

fn plain(bytes: &[u8]) -> ResponseChunk<Ack> {
    ResponseChunk::plain(bytes.to_vec())
}

#[test]
fn stream_backpressure_sends_normally_under_buffer() {
    let (tx, _rx) = tokio::sync::mpsc::channel(32);
    let mut bp = StreamBackpressure::new(1024, 30_000);
    assert!(send(&mut bp, &tx, plain(b"data: hello\n\n"), 0).is_ok());
    assert!(!bp.is_stalled());
    assert_eq!(bp.forwarded_bytes(), 13);
}

#[test]
fn stream_backpressure_stalls_when_channel_full_and_byte_bound_exceeded() {
    let (tx, rx) = tokio::sync::mpsc::channel(2);
    let mut bp = StreamBackpressure::new(10, 50);
    assert!(send(&mut bp, &tx, plain(b"data: first\n\n"), 0).is_ok());
    assert!(send(&mut bp, &tx, plain(b"data: second\n\n"), 0).is_ok());
    let result = send(&mut bp, &tx, plain(b"data: third\n\n"), 0);
    assert!(result.is_err(), "send should stall when buffer exceeded");
    assert!(bp.is_stalled(), "should be marked stalled");
    drop(rx);
}

#[test]
fn stream_backpressure_aborts_after_stall_timeout() {
    let (tx, _rx) = tokio::sync::mpsc::channel(2);
    let mut bp = StreamBackpressure::new(10, 10);
    send(&mut bp, &tx, plain(b"data: a\n\n"), 0).ok();
    send(&mut bp, &tx, plain(b"data: b\n\n"), 0).ok();
    let result = send(&mut bp, &tx, plain(b"data: c\n\n"), 0);
    assert!(result.is_err());
    assert!(bp.is_stalled());
    // 20 ms later the stall has lasted too long.
    let result = send(&mut bp, &tx, plain(b"data: d\n\n"), 20);
    assert!(result.is_err(), "send should fail after stall timeout");
    assert!(bp.check_stall_timeout(20), "stall timeout should have elapsed");
    assert!(bp.must_abort(20));
    assert!(!bp.check_stall_timeout(9));
}

#[test]
fn stream_backpressure_clear_stall_resets_state() {
    let (tx, _rx) = tokio::sync::mpsc::channel(2);
    let mut bp = StreamBackpressure::new(10, 30_000);
    send(&mut bp, &tx, plain(b"data: a\n\n"), 0).ok();
    send(&mut bp, &tx, plain(b"data: b\n\n"), 0).ok();
    let _ = send(&mut bp, &tx, plain(b"data: c\n\n"), 0);
    assert!(bp.is_stalled());
    bp.clear_stall();
    assert!(!bp.is_stalled());
    assert!(!bp.check_stall_timeout(60_000));
}

#[test]
fn stream_backpressure_closed_channel_stalls() {
    let (tx, rx) = tokio::sync::mpsc::channel(1);
    drop(rx); // Close the channel immediately.
    let mut bp = StreamBackpressure::new(1024, 30_000);
    let result = send(&mut bp, &tx, plain(b"data: hi\n\n"), 0);
    assert!(result.is_err(), "send to closed channel should stall");
    assert!(bp.is_stalled());
}

#[test]
fn a_full_channel_with_little_pending_waits() {
    let mut bp = StreamBackpressure::new(1000, 10);
    assert_eq!(bp.on_try_send(TrySend::Sent, 30, 0), SendStep::Sent);
    assert_eq!(bp.on_try_send(TrySend::Sent, 10, 0), SendStep::Sent);
    // 32 chunks of 20 bytes on average are pending.
    assert_eq!(bp.on_try_send(TrySend::Full, 10, 0), SendStep::Wait);
    assert_eq!(bp.on_waited(true, 60), Ok(()));
    // 32 chunks of 33 bytes.
    assert_eq!(bp.on_try_send(TrySend::Full, 10, 7), SendStep::Stalled);
    assert_eq!(bp.stall_started, Some(7));
    let mut lost = StreamBackpressure::new(1000, 10);
    assert_eq!(lost.on_waited(false, 1), Err(StreamStallError));
    assert!(lost.is_stalled());
    assert_eq!(
        StreamStallError.message(),
        "stream consumer stalled beyond byte bound and timeout"
    );
}

// ---- Gateway ----

#[test]
fn routes_are_exact() {
    assert_eq!(route(Method::Get, "/health"), Route::Health);
    assert_eq!(route(Method::Get, "/stats?x=1"), Route::Stats);
    assert_eq!(route(Method::Get, "/metrics"), Route::Metrics);
    assert_eq!(route(Method::Get, "/v1/models"), Route::Models);
    assert_eq!(route(Method::Options, "/any"), Route::Preflight);
    assert_eq!(route(Method::Post, "/v1/chat/completions?a?b"), Route::ChatCompletions);
    assert_eq!(route(Method::Post, "/health"), Route::NotFound);
    assert_eq!(route(Method::Get, "/v1/chat/completions"), Route::NotFound);
    assert_eq!(route(Method::Other, "/health"), Route::NotFound);
}

#[test]
fn bodies_are_bounded() {
    assert!(announces_too_much(Some("11"), 10));
    assert!(!announces_too_much(Some("10"), 10));
    assert!(!announces_too_much(Some("ten"), 10));
    assert!(!announces_too_much(None, 10));
    let mut body = Vec::new();
    assert_eq!(append_bounded(&mut body, b"{\"a\":", 8), Ok(()));
    assert_eq!(
        append_bounded(&mut body, b"1234", 8),
        Err("request body exceeds 8 bytes".to_string())
    );
    assert_eq!(append_bounded(&mut body, b"1}", 8), Ok(()));
    let v = read_json_body(&body, 8).unwrap();
    assert_eq!(v.get("a").and_then(Value::as_u64), Some(1));
    let big = read_json_body(&body, 3).unwrap_err();
    assert_eq!(body_error_status(&big), 413);
    let bad = read_json_body(b"{", 8).unwrap_err();
    assert_eq!(bad, "request body is not valid JSON");
    assert_eq!(body_error_status(&bad), 400);
}

fn parsed(text: &str) -> Value {
    serde_json::from_str(text).unwrap()
}

#[test]
fn chat_facts_are_read_from_the_body() {
    let text = "{\"model\":\"m\",\"stream\":true,\"stream_options\":{\"include_usage\":true}}";
    let f = read_chat_facts(&parsed(text));
    assert_eq!(f.model.as_deref(), Some("m"));
    assert!(f.stream && f.include_usage);
    assert_eq!(f.request_bytes, text.len() as u64);
    assert_eq!(stream_model(&parsed(text)), "m");
    let g = read_chat_facts(&parsed("{ \"stream\": 1, \"model\": \"\u{e9}\" }"));
    assert!(!g.stream && !g.include_usage);
    assert_eq!(g.request_bytes, "{\"model\":\"\u{e9}\",\"stream\":1}".len() as u64);
    assert_eq!(stream_model(&parsed("{}")), "unknown");
    assert_eq!(leased_model(false, Some("m".to_string())), None);
    assert_eq!(leased_model(true, Some("m".to_string())), Some("m".to_string()));
}

#[test]
fn error_bodies_and_statuses() {
    let e = openai_error("bad \"x\"", 404);
    assert_eq!(
        e,
        "{\"error\":{\"message\":\"bad \\\"x\\\"\",\"type\":\"invalid_request_error\"}}"
    );
    assert_eq!(parsed(&e).to_string(), e);
    assert!(openai_error("x", 500).contains("server_error"));
    assert!(openai_error("x", 399).contains("server_error"));
    assert_eq!(admission_status(AdmissionErrorKind::QueueFull), 429);
    assert_eq!(admission_status(AdmissionErrorKind::QueueTimeout), 429);
    assert_eq!(admission_status(AdmissionErrorKind::Cancelled), 503);
    assert_eq!(admission_status(AdmissionErrorKind::Unavailable), 503);
    assert_eq!(request_error_status("Model Not Found: x, invalid"), 404);
    assert_eq!(request_error_status("exceeds KV budget"), 400);
    assert_eq!(request_error_status("max_tokens too large"), 400);
    assert_eq!(request_error_status("messages is REQUIRED"), 400);
    assert_eq!(request_error_status("endpoint adapter says no"), 400);
    assert_eq!(request_error_status("lossy"), 400);
    assert_eq!(request_error_status("malformed canonical tool call"), 400);
    assert_eq!(request_error_status("device lost"), 500);
    assert_eq!(request_id(7, 12), "chatcmpl-7-12");
}

#[test]
fn events_are_framed() {
    let v = parsed("{\"b\":1,\"a\":\"x\"}");
    assert_eq!(sse_data(&v), format!("data: {}\n\n", v).into_bytes());
    let first = String::from_utf8(first_chunk("id", 9, "m\"")).unwrap();
    assert!(first.starts_with("data: {") && first.ends_with("}\n\n"));
    let c = parsed(first.trim_start_matches("data: "));
    assert_eq!(c.pointer("/choices/0/delta/role").and_then(Value::as_str), Some("assistant"));
    assert!(c.pointer("/choices/0/finish_reason").unwrap().is_null());
    assert_eq!(c.get("model").and_then(Value::as_str), Some("m\""));
    assert_eq!(c.get("created").and_then(Value::as_u64), Some(9));
    assert_eq!(
        first,
        format!("data: {}\n\n", c),
        "members are in the order of the value's own text"
    );
    let d = String::from_utf8(delta_chunk("id", 9, "m", &parsed("{\"content\":\"hi\"}"))).unwrap();
    assert!(d.contains("\"delta\":{\"content\":\"hi\"}"));
    assert_eq!(
        terminal_payload(&[parsed("1"), parsed("2")]),
        b"data: 1\n\ndata: 2\n\ndata: [DONE]\n\n".to_vec()
    );
    assert_eq!(terminal_payload(&[]), b"data: [DONE]\n\n".to_vec());
}

#[test]
fn streams_end_cleanly_only_when_delivered_or_cancelled() {
    assert_eq!(finish_sse_stream(true, false), StreamEnd::Close);
    assert_eq!(finish_sse_stream(false, true), StreamEnd::Close);
    assert_eq!(finish_sse_stream(false, false), StreamEnd::FailThenClose);
    assert_eq!(
        worker_failure(WorkerEnd::Completed),
        ("generation completed without a response body".to_string(), 500)
    );
    assert_eq!(
        worker_failure(WorkerEnd::Failed("invalid x".to_string())),
        ("invalid x".to_string(), 400)
    );
    assert_eq!(
        worker_failure(WorkerEnd::Panicked(Some("oops".to_string()))).0,
        "generation worker panicked: oops"
    );
    assert_eq!(
        worker_failure(WorkerEnd::Panicked(None)).0,
        "generation worker panicked: non-string panic payload"
    );
    assert_eq!(
        worker_failure(WorkerEnd::Disconnected),
        ("generation worker disconnected".to_string(), 500)
    );
}

#[test]
fn status_bodies_are_json() {
    assert_eq!(
        health_body(Some("a\"b"), None, 7, "t"),
        r#"{"loading_model":null,"model":"a\"b","native":true,"pid":7,"status":"ok","token":"t"}"#
    );
    let counts = ServeCounts {
        uptime_sec: 5,
        queue_depth: 1,
        requests_served: 2,
        retries_attempted: 3,
        retries_succeeded: 4,
    };
    assert_eq!(
        stats_body(None, counts, "12.5"),
        join(&[
            r#"{"model":null,"queue_depth":1,"recent_tok_s":12.5,"requests_served":2,"#,
            r#""retries_attempted":3,"retries_succeeded":4,"uptime_sec":5}"#,
        ])
    );
    assert_eq!(models_body(&[]), r#"{"data":[],"object":"list"}"#);
    let models = [
        LocalModel {
            name: "file".to_string(),
            registry_tag: Some("tag:4b".to_string()),
        },
        LocalModel {
            name: "other".to_string(),
            registry_tag: None,
        },
    ];
    assert_eq!(
        models_body(&models),
        join(&[
            r#"{"data":[{"id":"tag:4b","object":"model","owned_by":"hipfire"},"#,
            r#"{"id":"other","object":"model","owned_by":"hipfire"}],"object":"list"}"#,
        ])
    );
}

fn join(lines: &[&str]) -> String {
    lines.concat()
}
