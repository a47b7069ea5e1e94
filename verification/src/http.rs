//! The HTTP gateway's decisions: routing, body limits, status codes, framing of
//! event streams, and when a response counts as delivered.
//!
//! Sockets and channels belong to the caller. `A` stands for whatever completes
//! a delivery acknowledgement.

use crate::json::{
    compact_text, json_compact, json_of, json_parsed, json_quoted, member, parse_json, quote,
    read_bool, read_string, JsonView,
};
use crate::text::{
    append_decimal, ascii_lower, chars_of, contains, decimal_text, joined_texts,
    lemma_pieces_occur, lower_chars, occurs, parse_u64, same_text, unsigned_value,
};
use serde_json::Value;
use vstd::prelude::*;
use vstd::string::{StrSliceExecFns, StringExecFns};
use vstd::utf8::encode_utf8;

verus! {

// ---- Status codes and error bodies ----

/// Error type of a status: the client's fault or the server's.
pub open spec fn error_type_of(status: u16) -> Seq<char> {
    if 400 <= status < 500 {
        "invalid_request_error"@
    } else {
        "server_error"@
    }
}

/// JSON body of an error response.
pub fn openai_error(message: &str, status: u16) -> (r: String)
    ensures
        r@ == "{\"error\":{\"message\":"@ + json_quoted(message@) + ",\"type\":\""@
            + error_type_of(status) + "\"}}"@,
{
    let mut t: String = String::from_str("{\"error\":{\"message\":");
    t.append(quote(message).as_str());
    t.append(",\"type\":\"");
    if 400 <= status && status < 500 {
        t.append("invalid_request_error");
    } else {
        t.append("server_error");
    }
    t.append("\"}}");
    t
}

/// Why the admission queue refused a request.
#[derive(Debug, Clone, Copy, PartialEq, Eq, Structural)]
pub enum AdmissionErrorKind {
    QueueFull,
    QueueTimeout,
    Cancelled,
    Unavailable,
}

/// Status of an admission error: 429 when the bounded queue rejected the
/// request, 503 when the backend is unavailable or the request was cancelled.
pub fn admission_status(kind: AdmissionErrorKind) -> (r: u16)
    ensures
        r == match kind {
            AdmissionErrorKind::QueueFull => 429u16,
            AdmissionErrorKind::QueueTimeout => 429u16,
            AdmissionErrorKind::Cancelled => 503u16,
            AdmissionErrorKind::Unavailable => 503u16,
        },
{
    match kind {
        AdmissionErrorKind::QueueFull => 429,
        AdmissionErrorKind::QueueTimeout => 429,
        AdmissionErrorKind::Cancelled => 503,
        AdmissionErrorKind::Unavailable => 503,
    }
}

/// Words in an error message that make it the client's fault.
pub open spec fn blames_the_request(lower: Seq<char>) -> bool {
    ||| occurs(lower, "kv budget"@)
    ||| occurs(lower, "max_tokens"@)
    ||| occurs(lower, "invalid"@)
    ||| occurs(lower, "required"@)
    ||| occurs(lower, "endpoint adapter"@)
    ||| occurs(lower, "lossy"@)
    ||| occurs(lower, "malformed canonical tool call"@)
}

/// Status of a failed request, by its message, whatever the case of its ASCII
/// letters.
pub fn request_error_status(message: &str) -> (r: u16)
    ensures
        ({
            let lower = message@.map_values(|c: char| ascii_lower(c));
            r == if occurs(lower, "model not found"@) {
                404u16
            } else if blames_the_request(lower) {
                400u16
            } else {
                500u16
            }
        }),
{
    let lower: Vec<char> = lower_chars(message);
    if contains(&lower, "model not found") {
        404
    } else if contains(&lower, "kv budget") || contains(&lower, "max_tokens") || contains(
        &lower,
        "invalid",
    ) || contains(&lower, "required") || contains(&lower, "endpoint adapter") || contains(
        &lower,
        "lossy",
    ) || contains(&lower, "malformed canonical tool call") {
        400
    } else {
        500
    }
}

/// Id of the `n`-th request of a process.
pub fn request_id(pid: u32, n: u64) -> (r: String)
    ensures
        r@ == "chatcmpl-"@ + decimal_text(pid as int) + "-"@ + decimal_text(n as int),
{
    let mut t: String = String::from_str("chatcmpl-");
    append_decimal(&mut t, pid as u64);
    t.append("-");
    append_decimal(&mut t, n);
    t
}

// ---- Routing ----

/// Request method.
#[derive(Debug, Clone, Copy, PartialEq, Eq, Structural)]
pub enum Method {
    Get,
    Post,
    Options,
    Other,
}

/// Where a request goes.
#[derive(Debug, Clone, Copy, PartialEq, Eq, Structural)]
pub enum Route {
    Health,
    Stats,
    Metrics,
    Models,
    /// A preflight of any path.
    Preflight,
    ChatCompletions,
    NotFound,
}

/// `path` up to its first question mark.
pub open spec fn path_only(path: Seq<char>) -> Seq<char>
    decreases path.len(),
{
    if path.len() == 0 || path[0] == '?' {
        Seq::empty()
    } else {
        seq![path[0]] + path_only(path.skip(1))
    }
}

/// The route of a method and a path without its query.
pub open spec fn route_of(method: Method, path: Seq<char>) -> Route {
    match method {
        Method::Get => if path == "/health"@ {
            Route::Health
        } else if path == "/stats"@ {
            Route::Stats
        } else if path == "/metrics"@ {
            Route::Metrics
        } else if path == "/v1/models"@ {
            Route::Models
        } else {
            Route::NotFound
        },
        Method::Options => Route::Preflight,
        Method::Post => if path == "/v1/chat/completions"@ {
            Route::ChatCompletions
        } else {
            Route::NotFound
        },
        Method::Other => Route::NotFound,
    }
}

fn strip_query(path: &str) -> (r: String)
    ensures
        r@ == path_only(path@),
{
    let cs: Vec<char> = chars_of(path);
    let mut out: String = String::new();
    let mut i: usize = 0;
    assert(path@.skip(0) =~= path@);
    assert(out@ + path_only(path@) =~= path_only(path@));
    while i < cs.len() && cs[i] != '?'
        invariant
            i <= cs@.len(),
            cs@ == path@,
            out@ + path_only(path@.skip(i as int)) == path_only(path@),
        decreases cs@.len() - i,
    {
        let ghost before = out@;
        let ghost rest = path@.skip(i as int);
        out.push(cs[i]);
        i = i + 1;
        proof {
            assert(rest.skip(1) =~= path@.skip(i as int));
            assert(out@ + path_only(path@.skip(i as int)) =~= before + path_only(rest));
        }
    }
    assert(path_only(path@.skip(i as int)) =~= Seq::empty());
    assert(out@ + Seq::<char>::empty() =~= out@);
    out
}

/// Decides where a request goes.
pub fn route(method: Method, path: &str) -> (r: Route)
    ensures
        r == route_of(method, path_only(path@)),
{
    let p: String = strip_query(path);
    match method {
        Method::Get => if same_text(p.as_str(), "/health") {
            Route::Health
        } else if same_text(p.as_str(), "/stats") {
            Route::Stats
        } else if same_text(p.as_str(), "/metrics") {
            Route::Metrics
        } else if same_text(p.as_str(), "/v1/models") {
            Route::Models
        } else {
            Route::NotFound
        },
        Method::Options => Route::Preflight,
        Method::Post => if same_text(p.as_str(), "/v1/chat/completions") {
            Route::ChatCompletions
        } else {
            Route::NotFound
        },
        Method::Other => Route::NotFound,
    }
}

// ---- Status bodies ----

/// JSON text of a text that may be missing.
pub open spec fn text_or_null(t: Option<Seq<char>>) -> Seq<char> {
    match t {
        Some(t) => json_quoted(t),
        None => "null"@,
    }
}

/// The characters of a text that may be missing.
pub open spec fn chars_if_any(t: Option<&str>) -> Option<Seq<char>> {
    match t {
        Some(t) => Some(t@),
        None => None,
    }
}

fn append_text_or_null(out: &mut String, t: Option<&str>)
    ensures
        final(out)@ == old(out)@ + text_or_null(chars_if_any(t)),
{
    match t {
        Some(t) => out.append(quote(t).as_str()),
        None => out.append("null"),
    }
}

/// JSON body of a health probe: the model that is served, the one being loaded,
/// and the instance that answers.
pub fn health_body(
    model: Option<&str>,
    loading_model: Option<&str>,
    pid: u32,
    token: &str,
) -> (r: String)
    ensures
        r@ == "{\"loading_model\":"@ + text_or_null(chars_if_any(loading_model))
            + ",\"model\":"@ + text_or_null(chars_if_any(model)) + ",\"native\":true,\"pid\":"@
            + decimal_text(pid as int) + ",\"status\":\"ok\",\"token\":"@ + json_quoted(token@)
            + "}"@,
{
    let mut t: String = String::from_str("{\"loading_model\":");
    append_text_or_null(&mut t, loading_model);
    t.append(",\"model\":");
    append_text_or_null(&mut t, model);
    t.append(",\"native\":true,\"pid\":");
    append_decimal(&mut t, pid as u64);
    t.append(",\"status\":\"ok\",\"token\":");
    t.append(quote(token).as_str());
    t.append("}");
    t
}

/// Counters of a serving process.
#[derive(Debug, Clone, Copy, PartialEq, Eq, Structural)]
pub struct ServeCounts {
    pub uptime_sec: u64,
    pub queue_depth: u64,
    pub requests_served: u64,
    pub retries_attempted: u64,
    pub retries_succeeded: u64,
}

/// JSON body of the statistics. `recent_tok_s` is the JSON text of the latest
/// throughput.
pub fn stats_body(model: Option<&str>, counts: ServeCounts, recent_tok_s: &str) -> (r: String)
    ensures
        r@ == "{\"model\":"@ + text_or_null(chars_if_any(model)) + ",\"queue_depth\":"@
            + decimal_text(counts.queue_depth as int) + ",\"recent_tok_s\":"@ + recent_tok_s@
            + ",\"requests_served\":"@ + decimal_text(counts.requests_served as int)
            + ",\"retries_attempted\":"@ + decimal_text(counts.retries_attempted as int)
            + ",\"retries_succeeded\":"@ + decimal_text(counts.retries_succeeded as int)
            + ",\"uptime_sec\":"@ + decimal_text(counts.uptime_sec as int) + "}"@,
{
    let mut t: String = String::from_str("{\"model\":");
    append_text_or_null(&mut t, model);
    t.append(",\"queue_depth\":");
    append_decimal(&mut t, counts.queue_depth);
    t.append(",\"recent_tok_s\":");
    t.append(recent_tok_s);
    t.append(",\"requests_served\":");
    append_decimal(&mut t, counts.requests_served);
    t.append(",\"retries_attempted\":");
    append_decimal(&mut t, counts.retries_attempted);
    t.append(",\"retries_succeeded\":");
    append_decimal(&mut t, counts.retries_succeeded);
    t.append(",\"uptime_sec\":");
    append_decimal(&mut t, counts.uptime_sec);
    t.append("}");
    t
}

/// A model on disk, with its tag where the registry knows it.
#[derive(Debug, Clone, PartialEq, Eq)]
pub struct LocalModel {
    pub name: String,
    pub registry_tag: Option<String>,
}

impl LocalModel {
    /// The id that clients ask for it by: its tag, else its name.
    pub open spec fn id(self) -> Seq<char> {
        match self.registry_tag {
            Some(tag) => tag@,
            None => self.name@,
        }
    }
}

/// JSON text of a model list, its members separated by commas.
pub open spec fn model_entries(models: Seq<LocalModel>) -> Seq<char>
    decreases models.len(),
{
    if models.len() == 0 {
        Seq::<char>::empty()
    } else {
        model_entries(models.drop_last()) + (if models.len() == 1 {
            Seq::<char>::empty()
        } else {
            ","@
        }) + "{\"id\":"@ + json_quoted(models.last().id())
            + ",\"object\":\"model\",\"owned_by\":\"hipfire\"}"@
    }
}

/// JSON body of the model list.
pub fn models_body(models: &[LocalModel]) -> (r: String)
    ensures
        r@ == "{\"data\":["@ + model_entries(models@) + "],\"object\":\"list\"}"@,
{
    let mut entries: String = String::new();
    let mut i: usize = 0;
    while i < models.len()
        invariant
            i <= models@.len(),
            entries@ == model_entries(models@.take(i as int)),
        decreases models@.len() - i,
    {
        proof {
            assert(models@.take(i + 1).drop_last() =~= models@.take(i as int));
            assert(models@.take(i + 1).last() == models@[i as int]);
        }
        if i > 0 {
            entries.append(",");
        } else {
            assert(entries@ + Seq::<char>::empty() =~= entries@);
        }
        entries.append("{\"id\":");
        match &models[i].registry_tag {
            Some(tag) => entries.append(quote(tag.as_str()).as_str()),
            None => entries.append(quote(models[i].name.as_str()).as_str()),
        }
        entries.append(",\"object\":\"model\",\"owned_by\":\"hipfire\"}");
        i = i + 1;
    }
    assert(models@.take(i as int) =~= models@);
    let mut t: String = String::from_str("{\"data\":[");
    t.append(entries.as_str());
    t.append("],\"object\":\"list\"}");
    t
}

// ---- Request bodies ----

/// Text of a body over the limit.
pub open spec fn too_large_text(max_bytes: u64) -> Seq<char> {
    "request body exceeds "@ + decimal_text(max_bytes as int) + " bytes"@
}

/// Text of a body over the limit.
pub fn too_large(max_bytes: u64) -> (r: String)
    ensures
        r@ == too_large_text(max_bytes),
{
    let mut t: String = String::from_str("request body exceeds ");
    append_decimal(&mut t, max_bytes);
    t.append(" bytes");
    t
}

/// Whether an announced content length is over the limit. A length that is no
/// number announces nothing.
pub fn announces_too_much(content_length: Option<&str>, max_bytes: u64) -> (r: bool)
    ensures
        r == match content_length {
            Some(s) => match unsigned_value(s@) {
                Some(n) => n <= u64::MAX && n > max_bytes,
                None => false,
            },
            None => false,
        },
{
    match content_length {
        Some(s) => {
            let cs: Vec<char> = chars_of(s);
            assert(cs@.subrange(0, cs@.len() as int) =~= cs@);
            match parse_u64(&cs, 0, cs.len()) {
                Some(n) => n > max_bytes,
                None => false,
            }
        },
        None => false,
    }
}

/// Appends one frame to a body. Refuses, and leaves the body as it was, when
/// that would take it over the limit.
pub fn append_bounded(body: &mut Vec<u8>, data: &[u8], max_bytes: u64) -> (r: Result<(), String>)
    ensures
        match r {
            Ok(_) => {
                &&& old(body)@.len() + data@.len() <= max_bytes
                &&& final(body)@ == old(body)@ + data@
            },
            Err(e) => {
                &&& old(body)@.len() + data@.len() > max_bytes
                &&& final(body)@ == old(body)@
                &&& e@ == too_large_text(max_bytes)
            },
        },
{
    let have: u128 = body.len() as u128;
    let more: u128 = data.len() as u128;
    if have + more > max_bytes as u128 {
        return Err(too_large(max_bytes));
    }
    let ghost before = body@;
    let mut i: usize = 0;
    assert(before + data@.take(0) =~= before);
    while i < data.len()
        invariant
            i <= data@.len(),
            body@ =~= before + data@.take(i as int),
        decreases data@.len() - i,
    {
        body.push(data[i]);
        i = i + 1;
    }
    assert(data@.take(i as int) =~= data@);
    Ok(())
}

/// Parses a complete body.
pub fn read_json_body(body: &[u8], max_bytes: u64) -> (r: Result<Value, String>)
    ensures
        match r {
            Ok(v) => body@.len() <= max_bytes && json_parsed(body@) == Some(
                json_of(v),
            ),
            Err(e) => if body@.len() > max_bytes {
                e@ == too_large_text(max_bytes)
            } else {
                json_parsed(body@) is None && e@ == "request body is not valid JSON"@
            },
        },
{
    if body.len() as u64 > max_bytes {
        return Err(too_large(max_bytes));
    }
    match parse_json(body) {
        Some(v) => Ok(v),
        None => Err(String::from_str("request body is not valid JSON")),
    }
}

/// Status of a body that could not be read, by its message.
pub fn body_error_status(message: &str) -> (r: u16)
    ensures
        r == if occurs(message@, "exceeds"@) {
            413u16
        } else {
            400u16
        },
{
    let cs: Vec<char> = chars_of(message);
    if contains(&cs, "exceeds") {
        413
    } else {
        400
    }
}

/// A body over the limit is answered with 413.
pub proof fn law_oversized_bodies_get_413(max_bytes: u64)
    ensures
        occurs(too_large_text(max_bytes), "exceeds"@),
{
    reveal_strlit("request body exceeds ");
    reveal_strlit("exceeds");
    let t = too_large_text(max_bytes);
    let n = "exceeds"@.len() as int;
    assert(t.subrange(13, 13 + n) =~= "exceeds"@);
}

/// What the gateway reads of a completion request.
pub struct ChatFacts {
    /// Model to lease for, if the request names one.
    pub model: Option<String>,
    /// Canonical size of the request, charged to the queue's byte budget.
    pub request_bytes: u64,
    pub stream: bool,
    pub include_usage: bool,
}

/// The usage flag of a streaming request.
pub open spec fn usage_requested(body: JsonView) -> bool {
    match body.member("stream_options"@) {
        Some(o) => o.member_truth("include_usage"@) == Some(true),
        None => false,
    }
}

/// Reads what the gateway needs of a completion request.
pub fn read_chat_facts(body: &Value) -> (r: ChatFacts)
    ensures
        match r.model {
            Some(m) => json_of(*body).member_text("model"@) == Some(m@),
            None => json_of(*body).member_text("model"@) is None,
        },
        r.request_bytes == encode_utf8(json_compact(json_of(*body))).len(),
        r.stream == (json_of(*body).member_truth("stream"@) == Some(true)),
        r.include_usage == usage_requested(json_of(*body)),
{
    let model: Option<String> = match read_string(body, "model") {
        Some(s) => Some(String::from_str(s)),
        None => None,
    };
    let text: String = compact_text(body);
    let n: usize = text.as_str().as_bytes().len();
    let stream: bool = match read_bool(body, "stream") {
        Some(b) => b,
        None => false,
    };
    let include_usage: bool = match member(body, "stream_options") {
        Some(o) => match read_bool(o, "include_usage") {
            Some(b) => b,
            None => false,
        },
        None => false,
    };
    ChatFacts { model, request_bytes: n as u64, stream, include_usage }
}

/// The model that a request leases: only a request that may run beside others
/// leases one.
pub fn leased_model(eligible: bool, model: Option<String>) -> (r: Option<String>)
    ensures
        r == if eligible {
            model
        } else {
            None
        },
{
    if eligible {
        model
    } else {
        None
    }
}

/// The model name that a streaming response carries.
pub fn stream_model(body: &Value) -> (r: String)
    ensures
        r@ == match json_of(*body).member_text("model"@) {
            Some(m) => m,
            None => "unknown"@,
        },
{
    match read_string(body, "model") {
        Some(s) => String::from_str(s),
        None => String::from_str("unknown"),
    }
}

// ---- Event streams ----

/// Bytes of one server-sent event.
pub open spec fn sse_bytes(text: Seq<char>) -> Seq<u8> {
    encode_utf8("data: "@ + text + "\n\n"@)
}

fn sse_frame(text: &str) -> (r: Vec<u8>)
    ensures
        r@ == sse_bytes(text@),
{
    let mut t: String = String::from_str("data: ");
    t.append(text);
    t.append("\n\n");
    t.as_str().as_bytes_vec()
}

/// One server-sent event with a JSON value.
pub fn sse_data(value: &Value) -> (r: Vec<u8>)
    ensures
        r@ == sse_bytes(json_compact(json_of(*value))),
{
    sse_frame(compact_text(value).as_str())
}

/// JSON text of one stream chunk. `delta` is the JSON text of the delta.
pub open spec fn stream_chunk_text(
    id: Seq<char>,
    created: u64,
    model: Seq<char>,
    delta: Seq<char>,
) -> Seq<char> {
    "{\"choices\":[{\"delta\":"@ + delta + ",\"finish_reason\":null,\"index\":0}],\"created\":"@
        + decimal_text(created as int) + ",\"id\":"@ + json_quoted(id) + ",\"model\":"@
        + json_quoted(model) + ",\"object\":\"chat.completion.chunk\"}"@
}

fn stream_chunk(id: &str, created: u64, model: &str, delta: &str) -> (r: Vec<u8>)
    ensures
        r@ == sse_bytes(stream_chunk_text(id@, created, model@, delta@)),
{
    let mut t: String = String::from_str("{\"choices\":[{\"delta\":");
    t.append(delta);
    t.append(",\"finish_reason\":null,\"index\":0}],\"created\":");
    append_decimal(&mut t, created);
    t.append(",\"id\":");
    t.append(quote(id).as_str());
    t.append(",\"model\":");
    t.append(quote(model).as_str());
    t.append(",\"object\":\"chat.completion.chunk\"}");
    sse_frame(t.as_str())
}

/// The first event of a stream: the assistant's role.
pub fn first_chunk(id: &str, created: u64, model: &str) -> (r: Vec<u8>)
    ensures
        r@ == sse_bytes(stream_chunk_text(id@, created, model@, "{\"role\":\"assistant\"}"@)),
{
    stream_chunk(id, created, model, "{\"role\":\"assistant\"}")
}

/// The event of a delta.
pub fn delta_chunk(id: &str, created: u64, model: &str, delta: &Value) -> (r: Vec<u8>)
    ensures
        r@ == sse_bytes(stream_chunk_text(id@, created, model@, json_compact(json_of(*delta)))),
{
    stream_chunk(id, created, model, compact_text(delta).as_str())
}

/// The events of the terminal chunks, one after the other.
pub open spec fn sse_chunks(chunks: Seq<Value>) -> Seq<u8>
    decreases chunks.len(),
{
    if chunks.len() == 0 {
        Seq::empty()
    } else {
        sse_chunks(chunks.drop_last()) + sse_bytes(json_compact(json_of(chunks.last())))
    }
}

fn append_bytes(out: &mut Vec<u8>, more: &Vec<u8>)
    ensures
        final(out)@ == old(out)@ + more@,
{
    let ghost before = out@;
    let mut i: usize = 0;
    assert(before + more@.take(0) =~= before);
    while i < more.len()
        invariant
            i <= more@.len(),
            out@ =~= before + more@.take(i as int),
        decreases more@.len() - i,
    {
        out.push(more[i]);
        i = i + 1;
    }
    assert(more@.take(i as int) =~= more@);
}

/// The last payload of a stream: its terminal chunks and the end marker, in one
/// piece, so that one acknowledgement covers all of it.
pub fn terminal_payload(chunks: &[Value]) -> (r: Vec<u8>)
    ensures
        r@ == sse_chunks(chunks@) + sse_bytes("[DONE]"@),
{
    let mut out: Vec<u8> = Vec::new();
    let mut i: usize = 0;
    assert(chunks@.take(0) =~= Seq::empty());
    while i < chunks.len()
        invariant
            i <= chunks@.len(),
            out@ == sse_chunks(chunks@.take(i as int)),
        decreases chunks@.len() - i,
    {
        let frame: Vec<u8> = sse_data(&chunks[i]);
        append_bytes(&mut out, &frame);
        assert(chunks@.take(i + 1).drop_last() =~= chunks@.take(i as int));
        i = i + 1;
    }
    assert(chunks@.take(i as int) =~= chunks@);
    let done: Vec<u8> = sse_frame("[DONE]");
    append_bytes(&mut out, &done);
    out
}

/// What happens to a stream once its completion has returned.
#[derive(Debug, Clone, Copy, PartialEq, Eq, Structural)]
pub enum StreamEnd {
    /// Close it: the terminal payload was delivered, or the client has gone.
    Close,
    /// Fail the body before closing it, so that the reader sees no clean end.
    FailThenClose,
}

/// Decides how a stream ends. Nothing is sent after the terminal payload; an
/// error that is not a cancellation must not look like a clean end.
pub fn finish_sse_stream(completed: bool, cancelled: bool) -> (r: StreamEnd)
    ensures
        r == if completed || cancelled {
            StreamEnd::Close
        } else {
            StreamEnd::FailThenClose
        },
{
    if completed || cancelled {
        StreamEnd::Close
    } else {
        StreamEnd::FailThenClose
    }
}

/// How the worker of a response in one piece ended without staging one.
pub enum WorkerEnd {
    /// It returned a completion that it never staged.
    Completed,
    /// It failed with this message.
    Failed(String),
    /// It panicked, with this payload if it was text.
    Panicked(Option<String>),
    /// It went away.
    Disconnected,
}

/// Message and status of a worker that ended without staging a response.
pub fn worker_failure(end: WorkerEnd) -> (r: (String, u16))
    ensures
        match end {
            WorkerEnd::Completed => r.0@ == "generation completed without a response body"@,
            WorkerEnd::Failed(m) => r.0@ == m@,
            WorkerEnd::Panicked(Some(d)) => r.0@ == "generation worker panicked: "@ + d@,
            WorkerEnd::Panicked(None) => r.0@ == "generation worker panicked: "@
                + "non-string panic payload"@,
            WorkerEnd::Disconnected => r.0@ == "generation worker disconnected"@ && r.1 == 500,
        },
        !(end is Disconnected) ==> ({
            let lower = r.0@.map_values(|c: char| ascii_lower(c));
            r.1 == if occurs(lower, "model not found"@) {
                404u16
            } else if blames_the_request(lower) {
                400u16
            } else {
                500u16
            }
        }),
{
    let text: String = match end {
        WorkerEnd::Completed => String::from_str("generation completed without a response body"),
        WorkerEnd::Failed(m) => m,
        WorkerEnd::Panicked(detail) => {
            let mut t: String = String::from_str("generation worker panicked: ");
            match detail {
                Some(d) => {
                    t.append(d.as_str());
                },
                None => {
                    t.append("non-string panic payload");
                },
            }
            t
        },
        WorkerEnd::Disconnected => {
            return (String::from_str("generation worker disconnected"), 500);
        },
    };
    let status: u16 = request_error_status(text.as_str());
    (text, status)
}

// ---- Acknowledgements ----

/// Acknowledgements of one connection, waiting for its next flush, in order.
pub struct FlushAcks<A> {
    pub queue: Vec<A>,
}

/// A settled acknowledgement: the bytes reached the socket, or they never will.
#[derive(Debug)]
pub struct Settled<A> {
    pub ack: A,
    pub delivered: bool,
}

/// All of `acks`, settled alike, in order.
pub open spec fn settled<A>(acks: Seq<A>, delivered: bool) -> Seq<Settled<A>> {
    Seq::new(acks.len(), |i: int| Settled { ack: acks[i], delivered })
}

impl<A> FlushAcks<A> {
    /// Nothing waits.
    pub fn new() -> (r: FlushAcks<A>)
        ensures
            r.queue@.len() == 0,
    {
        FlushAcks { queue: Vec::new() }
    }

    /// Adds an acknowledgement whose bytes are on their way to the socket.
    pub fn register(&mut self, ack: A)
        ensures
            final(self).queue@ == old(self).queue@.push(ack),
    {
        self.queue.push(ack);
    }

    fn drain(&mut self, delivered: bool) -> (r: Vec<Settled<A>>)
        ensures
            r@ == settled(old(self).queue@, delivered),
            final(self).queue@.len() == 0,
    {
        let ghost all = self.queue@;
        let mut pending: Vec<A> = Vec::new();
        std::mem::swap(&mut pending, &mut self.queue);
        let mut back: Vec<Settled<A>> = Vec::new();
        while pending.len() > 0
            invariant
                pending@.len() + back@.len() == all.len(),
                pending@ == all.take(pending@.len() as int),
                back@ == settled(all, delivered).skip(pending@.len() as int).reverse(),
            decreases pending@.len(),
        {
            let ghost n = pending@.len() as int;
            match pending.pop() {
                Some(ack) => {
                    back.push(Settled { ack, delivered });
                    proof {
                        assert(pending@ =~= all.take(n - 1));
                        let s = settled(all, delivered);
                        assert(s.skip(n - 1) =~= seq![s[n - 1]] + s.skip(n));
                        assert(back@ =~= s.skip(n - 1).reverse());
                    }
                },
                None => {},
            }
        }
        let mut out: Vec<Settled<A>> = Vec::new();
        let ghost s = settled(all, delivered);
        proof {
            assert(s.skip(0) =~= s);
            assert(back@.reverse() =~= s);
            assert(out@ + back@.reverse() =~= s);
        }
        while back.len() > 0
            invariant
                out@ + back@.reverse() == s,
            decreases back@.len(),
        {
            let ghost b0 = back@;
            let ghost o0 = out@;
            match back.pop() {
                Some(x) => {
                    out.push(x);
                    proof {
                        assert(b0.reverse() =~= seq![x] + back@.reverse());
                        assert(out@ + back@.reverse() =~= o0 + b0.reverse());
                    }
                },
                None => {},
            }
        }
        assert(out@ + back@.reverse() =~= out@);
        out
    }

    /// A flush succeeded: everything that waited is delivered, in order.
    pub fn drain_ok(&mut self) -> (r: Vec<Settled<A>>)
        ensures
            r@ == settled(old(self).queue@, true),
            final(self).queue@.len() == 0,
    {
        self.drain(true)
    }

    /// The connection failed or went away: nothing that waited was delivered.
    pub fn drain_err(&mut self) -> (r: Vec<Settled<A>>)
        ensures
            r@ == settled(old(self).queue@, false),
            final(self).queue@.len() == 0,
    {
        self.drain(false)
    }
}

/// A body of exactly one frame. Its acknowledgement goes to the connection when
/// the frame is yielded; it is settled only by a later flush.
pub struct AckBody<A> {
    pub data: Option<Vec<u8>>,
    pub ack: Option<A>,
}

impl<A> AckBody<A> {
    /// A body that has not been polled.
    pub fn new(bytes: Vec<u8>, ack: A) -> (r: AckBody<A>)
        ensures
            r.data == Some(bytes),
            r.ack == Some(ack),
    {
        AckBody { data: Some(bytes), ack: Some(ack) }
    }

    /// The next frame: the bytes once, then nothing. Polling settles nothing.
    pub fn poll_frame(&mut self, tracker: &mut FlushAcks<A>) -> (r: Option<Vec<u8>>)
        ensures
            r == old(self).data,
            final(self).data is None,
            match (old(self).data, old(self).ack) {
                (Some(_), Some(a)) => final(self).ack is None && final(tracker).queue@ == old(
                    tracker,
                ).queue@.push(a),
                _ => final(self).ack == old(self).ack && final(tracker).queue@ == old(
                    tracker,
                ).queue@,
            },
    {
        match self.data.take() {
            Some(bytes) => {
                match self.ack.take() {
                    Some(a) => {
                        tracker.register(a);
                    },
                    None => {},
                }
                Some(bytes)
            },
            None => None,
        }
    }

    /// The body is dropped: an acknowledgement that never got to the connection
    /// is settled as not delivered.
    pub fn abandon(self) -> (r: Option<Settled<A>>)
        ensures
            r == match self.ack {
                Some(a) => Some(Settled { ack: a, delivered: false }),
                None => None,
            },
    {
        match self.ack {
            Some(a) => Some(Settled { ack: a, delivered: false }),
            None => None,
        }
    }
}

/// One piece of a streamed body: bytes, with an acknowledgement if it is the
/// last, or the mark that the body has failed.
#[derive(Debug)]
pub struct ResponseChunk<A> {
    pub bytes: Vec<u8>,
    pub ack: Option<A>,
    pub fail: bool,
}

impl<A> ResponseChunk<A> {
    /// Bytes without an acknowledgement.
    pub fn plain(bytes: Vec<u8>) -> (r: ResponseChunk<A>)
        ensures
            r == (ResponseChunk { bytes, ack: None::<A>, fail: false }),
    {
        ResponseChunk { bytes, ack: None, fail: false }
    }

    /// The mark that the body has failed.
    pub fn fail() -> (r: ResponseChunk<A>)
        ensures
            r.bytes@.len() == 0,
            r.ack is None,
            r.fail,
    {
        ResponseChunk { bytes: Vec::new(), ack: None, fail: true }
    }
}

/// What a streamed body does with a chunk.
pub enum BodyStep<A> {
    /// Yield these bytes.
    Yield(Vec<u8>),
    /// Nothing to yield: take the next chunk, and settle this acknowledgement.
    Skip(Option<Settled<A>>),
    /// Fail, and settle this acknowledgement.
    Fail(Option<Settled<A>>),
    /// The stream has ended.
    End,
    /// Nothing has come yet.
    Wait,
}

/// What polling a streamed body's channel gave.
pub enum Polled<A> {
    Chunk(ResponseChunk<A>),
    /// No chunk can come any more.
    Closed,
    Pending,
}

/// `r`, and the body's flag and the connection's acknowledgements after it, are
/// what a chunk makes of a body: a failed body stays failed, a chunk without
/// bytes never counts as delivered, and the acknowledgement of yielded bytes
/// goes to the connection.
pub open spec fn chunk_taken<A>(
    failed: bool,
    queue: Seq<A>,
    chunk: ResponseChunk<A>,
    r: BodyStep<A>,
    failed_after: bool,
    queue_after: Seq<A>,
) -> bool {
    &&& failed_after == (failed || chunk.fail)
    &&& if failed || chunk.fail {
        r == BodyStep::Fail(undelivered(chunk.ack)) && queue_after == queue
    } else if chunk.bytes@.len() == 0 {
        r == BodyStep::Skip(undelivered(chunk.ack)) && queue_after == queue
    } else {
        &&& r == BodyStep::<A>::Yield(chunk.bytes)
        &&& queue_after == match chunk.ack {
            Some(a) => queue.push(a),
            None => queue,
        }
    }
}

/// A body streamed from a channel.
pub struct ChannelBody {
    pub failed: bool,
}

/// An acknowledgement that is settled as not delivered.
pub open spec fn undelivered<A>(ack: Option<A>) -> Option<Settled<A>> {
    match ack {
        Some(a) => Some(Settled { ack: a, delivered: false }),
        None => None,
    }
}

fn settle_undelivered<A>(ack: Option<A>) -> (r: Option<Settled<A>>)
    ensures
        r == undelivered(ack),
{
    match ack {
        Some(a) => Some(Settled { ack: a, delivered: false }),
        None => None,
    }
}

/// Error text of a body that has failed.
pub fn body_failed_text() -> (r: &'static str)
    ensures
        r@ == "response body failed after terminal delivery"@,
{
    "response body failed after terminal delivery"
}

impl ChannelBody {
    /// A body that has not failed.
    pub fn new() -> (r: ChannelBody)
        ensures
            !r.failed,
    {
        ChannelBody { failed: false }
    }

    /// What to do with the next chunk. A failed body stays failed; a chunk
    /// without bytes never counts as delivered; an acknowledgement goes to the
    /// connection when its bytes are yielded, and only a flush settles it.
    pub fn on_chunk<A>(&mut self, chunk: ResponseChunk<A>, tracker: &mut FlushAcks<A>) -> (r:
        BodyStep<A>)
        ensures
            chunk_taken(
                old(self).failed,
                old(tracker).queue@,
                chunk,
                r,
                final(self).failed,
                final(tracker).queue@,
            ),
    {
        if self.failed || chunk.fail {
            self.failed = true;
            return BodyStep::Fail(settle_undelivered(chunk.ack));
        }
        if chunk.bytes.len() == 0 {
            return BodyStep::Skip(settle_undelivered(chunk.ack));
        }
        match chunk.ack {
            Some(a) => {
                tracker.register(a);
            },
            None => {},
        }
        BodyStep::Yield(chunk.bytes)
    }

    /// What a poll of the body gives. The end of the stream, or waiting for it,
    /// acknowledges nothing.
    pub fn poll_frame<A>(&mut self, polled: Polled<A>, tracker: &mut FlushAcks<A>) -> (r: BodyStep<
        A,
    >)
        ensures
            match polled {
                Polled::Chunk(chunk) => chunk_taken(
                    old(self).failed,
                    old(tracker).queue@,
                    chunk,
                    r,
                    final(self).failed,
                    final(tracker).queue@,
                ),
                Polled::Closed => {
                    &&& final(self).failed == old(self).failed
                    &&& final(tracker).queue@ == old(tracker).queue@
                    &&& r == if old(self).failed {
                        BodyStep::<A>::Fail(None)
                    } else {
                        BodyStep::<A>::End
                    }
                },
                Polled::Pending => {
                    &&& final(self).failed == old(self).failed
                    &&& final(tracker).queue@ == old(tracker).queue@
                    &&& r == if old(self).failed {
                        BodyStep::<A>::Fail(None)
                    } else {
                        BodyStep::<A>::Wait
                    }
                },
            },
    {
        match polled {
            Polled::Chunk(chunk) => self.on_chunk(chunk, tracker),
            Polled::Closed => if self.failed {
                BodyStep::Fail(None)
            } else {
                BodyStep::End
            },
            Polled::Pending => if self.failed {
                BodyStep::Fail(None)
            } else {
                BodyStep::Wait
            },
        }
    }
}

/// Delivery is acknowledged by a flush alone and in order: what was registered
/// is settled exactly once, as delivered only by a successful flush.
pub proof fn law_only_a_flush_acknowledges<A>(before: Seq<A>, a: A, delivered: bool)
    ensures
        settled(before.push(a), delivered).len() == before.len() + 1,
        settled(before.push(a), delivered).last() == (Settled { ack: a, delivered }),
        settled(before.push(a), delivered).drop_last() == settled(before, delivered),
{
    assert(settled(before.push(a), delivered).drop_last() =~= settled(before, delivered));
}

// ---- Laws of routing, errors and streams ----

/// Every path has its route, and only under its own method: a request reaches the
/// chat exactly by posting to it, the other pages exactly by asking for them, and
/// a preflight of anything is answered as one.
pub proof fn law_paths_have_their_routes(method: Method, path: Seq<char>)
    ensures
        route_of(method, path) == Route::ChatCompletions <==> method == Method::Post && path
            == "/v1/chat/completions"@,
        route_of(method, path) == Route::Health <==> method == Method::Get && path == "/health"@,
        route_of(method, path) == Route::Stats <==> method == Method::Get && path == "/stats"@,
        route_of(method, path) == Route::Metrics <==> method == Method::Get && path
            == "/metrics"@,
        route_of(method, path) == Route::Models <==> method == Method::Get && path
            == "/v1/models"@,
        route_of(method, path) == Route::Preflight <==> method == Method::Options,
{
    reveal_strlit("/health");
    reveal_strlit("/stats");
    reveal_strlit("/metrics");
    reveal_strlit("/v1/models");
    assert("/health"@.len() == 7 && "/health"@[1] == 'h');
    assert("/stats"@.len() == 6);
    assert("/metrics"@.len() == 8);
    assert("/v1/models"@.len() == 10);
}

/// A query does not change the path: what stands before the first question mark
/// is the path, and a path without one is itself.
pub proof fn law_queries_are_ignored(path: Seq<char>, query: Seq<char>)
    requires
        forall|i: int| 0 <= i < path.len() ==> #[trigger] path[i] != '?',
    ensures
        path_only(path) == path,
        path_only(path.push('?') + query) == path,
    decreases path.len(),
{
    let all = path.push('?') + query;
    if path.len() == 0 {
        assert(all[0] == '?');
        assert(path_only(path) =~= path);
        assert(path_only(all) =~= path);
    } else {
        let tail = path.skip(1);
        assert forall|i: int| 0 <= i < tail.len() implies #[trigger] tail[i] != '?' by {
            assert(path[i + 1] != '?');
        }
        law_queries_are_ignored(tail, query);
        assert(path[0] != '?');
        assert(all[0] == path[0]);
        assert(all.skip(1) =~= tail.push('?') + query);
        assert(path =~= seq![path[0]] + tail);
    }
}

/// An error is blamed on the client exactly by a status of the four hundreds.
pub proof fn law_client_errors_are_the_four_hundreds(status: u16)
    ensures
        error_type_of(status) == "invalid_request_error"@ <==> 400 <= status <= 499,
        error_type_of(status) == "server_error"@ <==> status < 400 || status > 499,
{
    reveal_strlit("invalid_request_error");
    reveal_strlit("server_error");
    assert("invalid_request_error"@.len() != "server_error"@.len());
}

/// A message that speaks of what the client sent is the client's fault, wherever
/// in it the words stand.
pub proof fn law_words_blame_the_request(
    before: Seq<char>,
    after: Seq<char>,
    word: Seq<char>,
)
    requires
        word == "kv budget"@ || word == "max_tokens"@ || word == "invalid"@ || word
            == "required"@ || word == "endpoint adapter"@ || word == "lossy"@ || word
            == "malformed canonical tool call"@,
    ensures
        blames_the_request(before + word + after),
{
    let t = before + word + after;
    assert(t.subrange(before.len() as int, (before.len() + word.len()) as int) =~= word);
    assert(occurs(t, word));
}

/// Whether bytes come or not, an acknowledgement that a chunk brought is not lost:
/// it is settled as undelivered or waits for the connection's flush, never both,
/// and only bytes that are yielded can wait for one.
pub proof fn law_acknowledgements_are_not_lost<A>(
    failed: bool,
    queue: Seq<A>,
    chunk: ResponseChunk<A>,
    r: BodyStep<A>,
    failed_after: bool,
    queue_after: Seq<A>,
)
    requires
        chunk_taken(failed, queue, chunk, r, failed_after, queue_after),
        chunk.ack is Some,
    ensures
        match r {
            BodyStep::Yield(bytes) => {
                &&& bytes == chunk.bytes
                &&& bytes@.len() > 0
                &&& queue_after == queue.push(chunk.ack->Some_0)
            },
            BodyStep::Skip(s) => {
                &&& s == Some(Settled { ack: chunk.ack->Some_0, delivered: false })
                &&& queue_after == queue
                &&& chunk.bytes@.len() == 0
            },
            BodyStep::Fail(s) => {
                &&& s == Some(Settled { ack: chunk.ack->Some_0, delivered: false })
                &&& queue_after == queue
                &&& failed_after
            },
            _ => false,
        },
{
}

/// A body that has failed stays failed, one that has not fails only by a failing
/// chunk, and bytes of a sound chunk are always yielded.
pub proof fn law_failed_bodies_stay_failed<A>(
    failed: bool,
    queue: Seq<A>,
    chunk: ResponseChunk<A>,
    r: BodyStep<A>,
    failed_after: bool,
    queue_after: Seq<A>,
)
    requires
        chunk_taken(failed, queue, chunk, r, failed_after, queue_after),
    ensures
        failed ==> failed_after && r is Fail,
        chunk.fail ==> failed_after && r is Fail,
        !failed && !chunk.fail ==> !failed_after && !(r is Fail),
        !failed && !chunk.fail && chunk.bytes@.len() > 0 ==> r is Yield,
        chunk.ack is None ==> queue_after == queue,
{
}

/// Everything that waited is settled, each once and in its order, and all alike.
pub proof fn law_flushes_settle_everything<A>(queue: Seq<A>, delivered: bool, i: int)
    requires
        0 <= i < queue.len(),
    ensures
        settled(queue, delivered).len() == queue.len(),
        settled(queue, delivered)[i].ack == queue[i],
        settled(queue, delivered)[i].delivered == delivered,
{
}

/// The chunks of a stream's end go out one after the other, each as an event of
/// its own.
pub proof fn law_terminal_chunks_go_out_in_order(chunks: Seq<Value>, last: Value)
    ensures
        sse_chunks(chunks.push(last)) == sse_chunks(chunks) + encode_utf8(
            "data: "@ + json_compact(json_of(last)) + "\n\n"@,
        ),
        sse_chunks(Seq::<Value>::empty()).len() == 0,
{
    assert(chunks.push(last).drop_last() =~= chunks);
}

/// A model is listed under its tag where it has one, else under its name, and
/// each model adds one entry.
pub proof fn law_every_model_is_listed(models: Seq<LocalModel>, m: LocalModel)
    ensures
        m.registry_tag is Some ==> m.id() == m.registry_tag->Some_0@,
        m.registry_tag is None ==> m.id() == m.name@,
        models.len() > 0 ==> model_entries(models.push(m)) == model_entries(models) + ","@
            + "{\"id\":"@ + json_quoted(m.id())
            + ",\"object\":\"model\",\"owned_by\":\"hipfire\"}"@,
        model_entries(Seq::<LocalModel>::empty()).len() == 0,
{
    assert(models.push(m).drop_last() =~= models);
}

/// Usage is reported exactly where the request's stream options ask for it.
pub proof fn law_usage_is_asked_for(body: JsonView, options: JsonView)
    requires
        body.member("stream_options"@) == Some(options),
    ensures
        usage_requested(body) <==> options.member("include_usage"@) == Some(
            JsonView::Bool(true),
        ),
{
}

spec fn chunk_pieces(id: Seq<char>, created: u64, model: Seq<char>, delta: Seq<char>) -> Seq<
    Seq<char>,
> {
    seq![
        "{\"choices\":[{\"delta\":"@,
        delta,
        ",\"finish_reason\":null,\"index\":0}],\"created\":"@,
        decimal_text(created as int),
        ",\"id\":"@,
        json_quoted(id),
        ",\"model\":"@,
        json_quoted(model),
        ",\"object\":\"chat.completion.chunk\"}"@,
    ]
}

proof fn lemma_join_9(p: Seq<Seq<char>>)
    requires
        p.len() == 9,
    ensures
        joined_texts(p, 9) == p[0] + p[1] + p[2] + p[3] + p[4] + p[5] + p[6] + p[7] + p[8],
{
    reveal_with_fuel(joined_texts, 10);
}

/// A chunk of a stream carries its delta, when its answer was made, and the id and
/// the model of its answer, each under its own name.
pub proof fn law_chunks_carry_their_parts(
    id: Seq<char>,
    created: u64,
    model: Seq<char>,
    delta: Seq<char>,
)
    ensures
        ({
            let t = stream_chunk_text(id, created, model, delta);
            &&& occurs(t, "{\"choices\":[{\"delta\":"@ + delta)
            &&& occurs(
                t,
                ",\"finish_reason\":null,\"index\":0}],\"created\":"@ + decimal_text(
                    created as int,
                ),
            )
            &&& occurs(t, ",\"id\":"@ + json_quoted(id))
            &&& occurs(t, ",\"model\":"@ + json_quoted(model))
            &&& occurs(t, json_quoted(model) + ",\"object\":\"chat.completion.chunk\"}"@)
        }),
{
    let p = chunk_pieces(id, created, model, delta);
    lemma_join_9(p);
    assert(stream_chunk_text(id, created, model, delta) == joined_texts(p, 9));
    lemma_pieces_occur(p, 9, 0);
    lemma_pieces_occur(p, 9, 2);
    lemma_pieces_occur(p, 9, 4);
    lemma_pieces_occur(p, 9, 6);
    lemma_pieces_occur(p, 9, 7);
}

/// A value that is missing is written as null, any other as its text.
pub proof fn law_missing_texts_are_null(t: Seq<char>)
    ensures
        text_or_null(None) == "null"@,
        text_or_null(Some(t)) == json_quoted(t),
        chars_if_any(None) is None,
{
}

} // verus!
