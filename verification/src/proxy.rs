//! The decisions of the helper's two proxy endpoints for one request, as a
//! step function: from the phase the request is in and what just happened to
//! the next phase and what to do.
//!
//! The caller carries the actions out (looking the cache up, opening the
//! upstream request, writing the answer, recording the request in the
//! statistics) and reports what came of them as the next event. It also
//! parses the request and the JSON it reads, and converts between the chat
//! completion and the Responses form.

use vstd::prelude::*;
use crate::cache::{self, ProxyCache};
use crate::json::{self, Json, JsonV};
use crate::text;
use crate::usage::{self, TokenUsage};

verus! {

/// The endpoint a request came to.
#[derive(Debug, Clone, Copy, PartialEq, Eq, Structural)]
pub enum ProxyRoute {
    /// The Responses endpoint: answered from the cache where the request
    /// allows it, and converted from the upstream's chat completions.
    Responses,
    /// The chat-completions endpoint: the upstream's answer is passed on as
    /// it is.
    ChatCompletions,
}

/// Token counts and a model name.
pub struct UsageV {
    pub prompt_tokens: u64,
    pub completion_tokens: u64,
    pub reasoning_tokens: u64,
    pub cached_tokens: u64,
    pub total_tokens: u64,
    pub model: Seq<char>,
}

pub open spec fn usage_view(u: TokenUsage) -> UsageV {
    UsageV {
        prompt_tokens: u.prompt_tokens,
        completion_tokens: u.completion_tokens,
        reasoning_tokens: u.reasoning_tokens,
        cached_tokens: u.cached_tokens,
        total_tokens: u.total_tokens,
        model: u.model@,
    }
}

pub open spec fn opt_usage_view(o: Option<TokenUsage>) -> Option<UsageV> {
    match o {
        Some(u) => Some(usage_view(u)),
        None => None,
    }
}

/// No tokens and no model name.
pub open spec fn zero_usage() -> UsageV {
    UsageV {
        prompt_tokens: 0,
        completion_tokens: 0,
        reasoning_tokens: 0,
        cached_tokens: 0,
        total_tokens: 0,
        model: Seq::empty(),
    }
}

pub open spec fn usage_or_zero(o: Option<UsageV>) -> UsageV {
    match o {
        Some(u) => u,
        None => zero_usage(),
    }
}

/// The counts read from a `usage` object, with a model name.
pub open spec fn counted(u: Json, model: Seq<char>) -> UsageV {
    UsageV {
        prompt_tokens: json::unwrap_or_zero(json::field_u64(u, "prompt_tokens"@)),
        completion_tokens: json::unwrap_or_zero(json::field_u64(u, "completion_tokens"@)),
        reasoning_tokens: json::unwrap_or_zero(
            json::nested_u64(u, "completion_tokens_details"@, "reasoning_tokens"@),
        ),
        cached_tokens: usage::cached_tokens_of(u),
        total_tokens: json::unwrap_or_zero(json::field_u64(u, "total_tokens"@)),
        model,
    }
}

/// The usage of a whole response body (`extract_usage_from_response`).
pub open spec fn response_usage(body: Json) -> UsageV {
    match json::json_get(body, "usage"@) {
        Some(u) => counted(u, usage::model_of(body)),
        None => UsageV { model: usage::model_of(body), ..zero_usage() },
    }
}

/// The usage one stream chunk reports (`extract_usage_from_sse_chunk`).
pub open spec fn chunk_usage(data: Json) -> Option<UsageV> {
    match json::json_get(data, "usage"@) {
        None => None,
        Some(u) => {
            let c = counted(u, usage::model_of(data));
            if c.total_tokens == 0 && c.prompt_tokens == 0 && c.completion_tokens == 0 {
                None
            } else {
                Some(c)
            }
        },
    }
}

/// The usage of the last of `payloads` that reports one; `prev` where none does.
pub open spec fn last_reported(prev: Option<UsageV>, payloads: Seq<Json>) -> Option<UsageV>
    decreases payloads.len(),
{
    if payloads.len() == 0 {
        prev
    } else {
        match chunk_usage(payloads.last()) {
            Some(u) => Some(u),
            None => last_reported(prev, payloads.drop_last()),
        }
    }
}

/// Whether a request may be answered from the cache (`is_cacheable`).
pub open spec fn cacheable_request(j: Json) -> bool {
    !(json::json_get(j, "stream"@) matches Some(v) && json::json_as_bool(v) == Some(true))
}

/// The cache key of a request body (`ProxyCache::cache_key`).
pub open spec fn request_key(body: Seq<char>) -> Seq<char> {
    text::hexadecimal(cache::default_hash_of_str(body) as nat)
}

/// Where one proxied request stands.
#[derive(Debug)]
pub enum ProxyPhase {
    /// The cache is being asked for a cacheable Responses request.
    LookingUp { key: String },
    /// The upstream request is being opened.
    Opening { route: ProxyRoute, cacheable: bool, key: String },
    /// A streamed answer is being relayed; `last` is the usage that the
    /// latest chunk reporting one carried.
    Streaming { route: ProxyRoute, last: Option<TokenUsage> },
    /// A whole answer is being read; `success` tells whether the upstream's
    /// status was a success.
    Reading { route: ProxyRoute, success: bool, cacheable: bool, key: String },
    /// The request has been dealt with.
    Done,
}

/// What happened since the last step.
#[derive(Debug)]
pub enum ProxyEvent {
    /// The cache lookup found this stored body and usage, or nothing.
    CacheLookup(Option<(Vec<u8>, TokenUsage)>),
    /// The upstream request could not be opened; the error's text.
    OpenFailed(String),
    /// The upstream answered: whether its status is a success, and whether
    /// its answer is an event stream.
    Opened { success: bool, stream: bool },
    /// A chunk of the stream arrived: the `data:` payloads in it
    /// that are JSON, in order.
    Chunk(Vec<Json>),
    /// Reading the stream failed; the error's text.
    StreamFailed(String),
    /// The stream ended.
    StreamEnded,
    /// The whole answer was read: as JSON (on the Responses route, the
    /// response converted from the chat completion), or `None` where it is
    /// not JSON or could not be converted.
    Body(Option<Json>),
}

/// What to do.
#[derive(Debug)]
pub enum ProxyAction {
    /// Look this key up in the cache.
    LookupCache(String),
    /// Open the upstream request.
    OpenUpstream,
    /// Answer `200 OK` with this cached JSON body.
    ReplyCached(Vec<u8>),
    /// Answer `502 Bad Gateway` with `failed_body` of this text.
    ReplyFailed(String),
    /// Answer with the upstream's status and its error in the Responses form.
    ReplyUpstreamError,
    /// Read the upstream's whole answer.
    ReadBody,
    /// Answer with the upstream's status, content type and body as they are.
    ForwardBody,
    /// Answer `200 OK` with the converted response.
    ReplyResponse,
    /// Write the stream's head: on the Responses route `200 OK` and an event
    /// stream, else the upstream's status and content type.
    StartStream,
    /// Relay the chunk: converted on the Responses route, as it is otherwise.
    ForwardChunk,
    /// End the converted stream with a failure carrying this text.
    FailStream(String),
    /// End the converted stream normally.
    FinishStream,
    /// Record the request in the statistics.
    Record { usage: TokenUsage, is_stream: bool, cached: bool, error: bool },
    /// Store the response under this key, with this usage.
    InsertCache { key: String, usage: TokenUsage },
    /// Shut the connection down.
    Close,
    /// Drop the connection with an error.
    Abort,
}

/// A phase with text as character sequences.
pub enum ProxyPhaseV {
    LookingUp { key: Seq<char> },
    Opening { route: ProxyRoute, cacheable: bool, key: Seq<char> },
    Streaming { route: ProxyRoute, last: Option<UsageV> },
    Reading { route: ProxyRoute, success: bool, cacheable: bool, key: Seq<char> },
    Done,
}

/// An action with text and bytes as sequences.
pub enum ProxyActionV {
    LookupCache(Seq<char>),
    OpenUpstream,
    ReplyCached(Seq<u8>),
    ReplyFailed(Seq<char>),
    ReplyUpstreamError,
    ReadBody,
    ForwardBody,
    ReplyResponse,
    StartStream,
    ForwardChunk,
    FailStream(Seq<char>),
    FinishStream,
    Record { usage: UsageV, is_stream: bool, cached: bool, error: bool },
    InsertCache { key: Seq<char>, usage: UsageV },
    Close,
    Abort,
}

pub open spec fn phase_view(p: ProxyPhase) -> ProxyPhaseV {
    match p {
        ProxyPhase::LookingUp { key } => ProxyPhaseV::LookingUp { key: key@ },
        ProxyPhase::Opening { route, cacheable, key } => ProxyPhaseV::Opening { route, cacheable, key: key@ },
        ProxyPhase::Streaming { route, last } => ProxyPhaseV::Streaming { route, last: opt_usage_view(last) },
        ProxyPhase::Reading { route, success, cacheable, key } => ProxyPhaseV::Reading {
            route,
            success,
            cacheable,
            key: key@,
        },
        ProxyPhase::Done => ProxyPhaseV::Done,
    }
}

pub open spec fn action_view(a: ProxyAction) -> ProxyActionV {
    match a {
        ProxyAction::LookupCache(k) => ProxyActionV::LookupCache(k@),
        ProxyAction::OpenUpstream => ProxyActionV::OpenUpstream,
        ProxyAction::ReplyCached(b) => ProxyActionV::ReplyCached(b@),
        ProxyAction::ReplyFailed(m) => ProxyActionV::ReplyFailed(m@),
        ProxyAction::ReplyUpstreamError => ProxyActionV::ReplyUpstreamError,
        ProxyAction::ReadBody => ProxyActionV::ReadBody,
        ProxyAction::ForwardBody => ProxyActionV::ForwardBody,
        ProxyAction::ReplyResponse => ProxyActionV::ReplyResponse,
        ProxyAction::StartStream => ProxyActionV::StartStream,
        ProxyAction::ForwardChunk => ProxyActionV::ForwardChunk,
        ProxyAction::FailStream(m) => ProxyActionV::FailStream(m@),
        ProxyAction::FinishStream => ProxyActionV::FinishStream,
        ProxyAction::Record { usage, is_stream, cached, error } => ProxyActionV::Record {
            usage: usage_view(usage),
            is_stream,
            cached,
            error,
        },
        ProxyAction::InsertCache { key, usage } => ProxyActionV::InsertCache { key: key@, usage: usage_view(usage) },
        ProxyAction::Close => ProxyActionV::Close,
        ProxyAction::Abort => ProxyActionV::Abort,
    }
}

pub open spec fn actions_view(s: Seq<ProxyAction>) -> Seq<ProxyActionV> {
    s.map_values(|a: ProxyAction| action_view(a))
}

/// How a request starts: a cacheable Responses request goes to the cache
/// first, every other request straight to the upstream.
pub open spec fn proxy_start_spec(route: ProxyRoute, body: Seq<char>, request: Option<Json>) -> (
    ProxyPhaseV,
    Seq<ProxyActionV>,
) {
    match route {
        ProxyRoute::Responses => {
            let key = request_key(body);
            if request matches Some(j) && cacheable_request(j) {
                (ProxyPhaseV::LookingUp { key }, seq![ProxyActionV::LookupCache(key)])
            } else {
                (
                    ProxyPhaseV::Opening { route, cacheable: false, key },
                    seq![ProxyActionV::OpenUpstream],
                )
            }
        },
        ProxyRoute::ChatCompletions => (
            ProxyPhaseV::Opening { route, cacheable: false, key: Seq::empty() },
            seq![ProxyActionV::OpenUpstream],
        ),
    }
}

pub open spec fn record_v(usage: UsageV, is_stream: bool, cached: bool, error: bool) -> ProxyActionV {
    ProxyActionV::Record { usage, is_stream, cached, error }
}

/// The text a failed stream ends with.
pub open spec fn stream_error_text(message: Seq<char>) -> Seq<char> {
    "Stream error: "@ + message
}

/// One step. An event that does not belong to the phase changes nothing.
pub open spec fn proxy_step_spec(p: ProxyPhaseV, e: ProxyEvent) -> (ProxyPhaseV, Seq<ProxyActionV>) {
    match p {
        ProxyPhaseV::LookingUp { key } => match e {
            ProxyEvent::CacheLookup(Some(hit)) => (
                ProxyPhaseV::Done,
                seq![
                    ProxyActionV::ReplyCached(hit.0@),
                    record_v(usage_view(hit.1), false, true, false),
                    ProxyActionV::Close,
                ],
            ),
            ProxyEvent::CacheLookup(None) => (
                ProxyPhaseV::Opening { route: ProxyRoute::Responses, cacheable: true, key },
                seq![ProxyActionV::OpenUpstream],
            ),
            _ => (p, seq![]),
        },
        ProxyPhaseV::Opening { route, cacheable, key } => match e {
            ProxyEvent::OpenFailed(message) => (
                ProxyPhaseV::Done,
                if route == ProxyRoute::ChatCompletions {
                    seq![
                        record_v(zero_usage(), false, false, true),
                        ProxyActionV::ReplyFailed(message@),
                        ProxyActionV::Close,
                    ]
                } else {
                    seq![ProxyActionV::ReplyFailed(message@), ProxyActionV::Close]
                },
            ),
            ProxyEvent::Opened { success, stream } => if route == ProxyRoute::Responses {
                if !success {
                    (ProxyPhaseV::Done, seq![ProxyActionV::ReplyUpstreamError, ProxyActionV::Close])
                } else if stream {
                    (ProxyPhaseV::Streaming { route, last: None }, seq![ProxyActionV::StartStream])
                } else {
                    (ProxyPhaseV::Reading { route, success, cacheable, key }, seq![ProxyActionV::ReadBody])
                }
            } else {
                if success && stream {
                    (ProxyPhaseV::Streaming { route, last: None }, seq![ProxyActionV::StartStream])
                } else {
                    (ProxyPhaseV::Reading { route, success, cacheable, key }, seq![ProxyActionV::ReadBody])
                }
            },
            _ => (p, seq![]),
        },
        ProxyPhaseV::Streaming { route, last } => match e {
            ProxyEvent::Chunk(payloads) => (
                ProxyPhaseV::Streaming { route, last: last_reported(last, payloads@) },
                seq![ProxyActionV::ForwardChunk],
            ),
            ProxyEvent::StreamFailed(message) => (
                ProxyPhaseV::Done,
                if route == ProxyRoute::Responses {
                    seq![
                        ProxyActionV::FailStream(stream_error_text(message@)),
                        record_v(usage_or_zero(last), true, false, true),
                        ProxyActionV::Close,
                    ]
                } else {
                    seq![ProxyActionV::Abort]
                },
            ),
            ProxyEvent::StreamEnded => (
                ProxyPhaseV::Done,
                if route == ProxyRoute::Responses {
                    seq![
                        ProxyActionV::FinishStream,
                        record_v(usage_or_zero(last), true, false, false),
                        ProxyActionV::Close,
                    ]
                } else {
                    seq![record_v(usage_or_zero(last), true, false, false), ProxyActionV::Close]
                },
            ),
            _ => (p, seq![]),
        },
        ProxyPhaseV::Reading { route, success, cacheable, key } => match e {
            ProxyEvent::Body(body) => (
                ProxyPhaseV::Done,
                if route == ProxyRoute::Responses {
                    match body {
                        Some(resp) => if cacheable {
                            seq![
                                record_v(response_usage(resp), false, false, false),
                                ProxyActionV::InsertCache { key, usage: response_usage(resp) },
                                ProxyActionV::ReplyResponse,
                                ProxyActionV::Close,
                            ]
                        } else {
                            seq![
                                record_v(response_usage(resp), false, false, false),
                                ProxyActionV::ReplyResponse,
                                ProxyActionV::Close,
                            ]
                        },
                        None => seq![ProxyActionV::Abort],
                    }
                } else if success {
                    match body {
                        Some(j) => seq![
                            record_v(response_usage(j), false, false, false),
                            ProxyActionV::ForwardBody,
                            ProxyActionV::Close,
                        ],
                        None => seq![ProxyActionV::ForwardBody, ProxyActionV::Close],
                    }
                } else {
                    seq![record_v(zero_usage(), false, false, true), ProxyActionV::ForwardBody, ProxyActionV::Close]
                },
            ),
            _ => (p, seq![]),
        },
        ProxyPhaseV::Done => (p, seq![]),
    }
}

fn zero() -> (u: TokenUsage)
    ensures
        usage_view(u) == zero_usage(),
{
    TokenUsage::new()
}

fn record(usage: TokenUsage, is_stream: bool, cached: bool, error: bool) -> (a: ProxyAction)
    ensures
        action_view(a) == record_v(usage_view(usage), is_stream, cached, error),
{
    ProxyAction::Record { usage, is_stream, cached, error }
}

fn usage_of_response(body: &Json) -> (u: TokenUsage)
    ensures
        usage_view(u) == response_usage(*body),
{
    usage::extract_usage_from_response(body)
}

fn copy_usage(u: &TokenUsage) -> (c: TokenUsage)
    ensures
        usage_view(c) == usage_view(*u),
{
    u.duplicate()
}

fn last_reported_exec(last: Option<TokenUsage>, payloads: &Vec<Json>) -> (r: Option<TokenUsage>)
    ensures
        opt_usage_view(r) == last_reported(opt_usage_view(last), payloads@),
{
    let ghost init = opt_usage_view(last);
    let mut cur = last;
    let mut i: usize = 0;
    assert(payloads@.take(0).len() == 0);
    while i < payloads.len()
        invariant
            i <= payloads@.len(),
            opt_usage_view(cur) == last_reported(init, payloads@.take(i as int)),
        decreases payloads.len() - i,
    {
        assert(payloads@.take(i + 1).drop_last() =~= payloads@.take(i as int));
        assert(payloads@.take(i + 1).last() == payloads@[i as int]);
        match usage::extract_usage_from_sse_chunk(&payloads[i]) {
            Some(u) => {
                cur = Some(u);
            },
            None => {},
        }
        i = i + 1;
    }
    assert(payloads@.take(payloads@.len() as int) =~= payloads@);
    cur
}

fn actions1(a: ProxyAction) -> (v: Vec<ProxyAction>)
    ensures
        actions_view(v@) == seq![action_view(a)],
{
    let v = vec![a];
    assert(actions_view(v@) =~= seq![action_view(a)]);
    v
}

fn actions2(a: ProxyAction, b: ProxyAction) -> (v: Vec<ProxyAction>)
    ensures
        actions_view(v@) == seq![action_view(a), action_view(b)],
{
    let v = vec![a, b];
    assert(actions_view(v@) =~= seq![action_view(a), action_view(b)]);
    v
}

fn actions3(a: ProxyAction, b: ProxyAction, c: ProxyAction) -> (v: Vec<ProxyAction>)
    ensures
        actions_view(v@) == seq![action_view(a), action_view(b), action_view(c)],
{
    let v = vec![a, b, c];
    assert(actions_view(v@) =~= seq![action_view(a), action_view(b), action_view(c)]);
    v
}

fn actions4(a: ProxyAction, b: ProxyAction, c: ProxyAction, d: ProxyAction) -> (v: Vec<ProxyAction>)
    ensures
        actions_view(v@) == seq![action_view(a), action_view(b), action_view(c), action_view(d)],
{
    let v = vec![a, b, c, d];
    assert(actions_view(v@) =~= seq![action_view(a), action_view(b), action_view(c), action_view(d)]);
    v
}

fn stream_error(message: &String) -> (s: String)
    ensures
        s@ == stream_error_text(message@),
{
    let mut v = text::chars_of("Stream error: ");
    let m = text::chars_of(message.as_str());
    text::push_all(&mut v, m.as_slice());
    text::string_from_chars(v.as_slice())
}

/// The body of a `502 Bad Gateway` answer: an object whose `status` is
/// `"failed"` and whose `message` is the error's text.
pub fn failed_body(message: &str) -> (j: Json)
    ensures
        json::jview(j) == JsonV::Object(
            seq![("status"@, JsonV::Str("failed"@)), ("message"@, JsonV::Str(message@))],
        ),
{
    let status = text::string_from_chars(text::chars_of("status").as_slice());
    let failed = text::string_from_chars(text::chars_of("failed").as_slice());
    let key = text::string_from_chars(text::chars_of("message").as_slice());
    let msg = text::string_from_chars(text::chars_of(message).as_slice());
    let mut fields: Vec<(String, Json)> = Vec::new();
    let f1 = (status, Json::String(failed));
    let f2 = (key, Json::String(msg));
    proof {
        json::lemma_jview_fields_push(fields@, f1);
        json::lemma_jview_fields_push(fields@.push(f1), f2);
    }
    fields.push(f1);
    fields.push(f2);
    assert(json::jview_fields(Seq::<(String, Json)>::empty()) =~= Seq::<(Seq<char>, JsonV)>::empty());
    assert(json::jview(f1.1) == JsonV::Str("failed"@));
    assert(json::jview(f2.1) == JsonV::Str(message@));
    assert(json::jview_fields(fields@) =~= seq![("status"@, JsonV::Str("failed"@)), ("message"@, JsonV::Str(message@))]);
    Json::Object(fields)
}

/// How a request starts, from its route, its body and the body parsed as JSON
/// (`None` where it is not JSON).
pub fn proxy_start(route: ProxyRoute, request_body: &str, request: &Option<Json>) -> (r: (ProxyPhase, Vec<ProxyAction>))
    ensures
        (phase_view(r.0), actions_view(r.1@)) == proxy_start_spec(route, request_body@, *request),
{
    match route {
        ProxyRoute::Responses => {
            let key = ProxyCache::cache_key(request_body);
            let cacheable = match request {
                Some(j) => cache::is_cacheable(j),
                None => false,
            };
            if cacheable {
                let k2 = key.clone();
                (ProxyPhase::LookingUp { key }, actions1(ProxyAction::LookupCache(k2)))
            } else {
                (ProxyPhase::Opening { route, cacheable: false, key }, actions1(ProxyAction::OpenUpstream))
            }
        },
        ProxyRoute::ChatCompletions => {
            let key = String::new();
            (ProxyPhase::Opening { route, cacheable: false, key }, actions1(ProxyAction::OpenUpstream))
        },
    }
}

/// One step of a request: the next phase and the actions to carry out, in
/// order.
pub fn proxy_step(phase: ProxyPhase, event: ProxyEvent) -> (r: (ProxyPhase, Vec<ProxyAction>))
    ensures
        (phase_view(r.0), actions_view(r.1@)) == proxy_step_spec(phase_view(phase), event),
{
    match phase {
        ProxyPhase::LookingUp { key } => match event {
            ProxyEvent::CacheLookup(Some(hit)) => {
                let (body, usage) = hit;
                (
                    ProxyPhase::Done,
                    actions3(ProxyAction::ReplyCached(body), record(usage, false, true, false), ProxyAction::Close),
                )
            },
            ProxyEvent::CacheLookup(None) => (
                ProxyPhase::Opening { route: ProxyRoute::Responses, cacheable: true, key },
                actions1(ProxyAction::OpenUpstream),
            ),
            _ => (ProxyPhase::LookingUp { key }, Vec::new()),
        },
        ProxyPhase::Opening { route, cacheable, key } => match event {
            ProxyEvent::OpenFailed(message) => {
                let acts = match route {
                    ProxyRoute::ChatCompletions => actions3(
                        record(zero(), false, false, true),
                        ProxyAction::ReplyFailed(message),
                        ProxyAction::Close,
                    ),
                    ProxyRoute::Responses => actions2(ProxyAction::ReplyFailed(message), ProxyAction::Close),
                };
                (ProxyPhase::Done, acts)
            },
            ProxyEvent::Opened { success, stream } => match route {
                ProxyRoute::Responses => if !success {
                    (ProxyPhase::Done, actions2(ProxyAction::ReplyUpstreamError, ProxyAction::Close))
                } else if stream {
                    (ProxyPhase::Streaming { route, last: None }, actions1(ProxyAction::StartStream))
                } else {
                    (ProxyPhase::Reading { route, success, cacheable, key }, actions1(ProxyAction::ReadBody))
                },
                ProxyRoute::ChatCompletions => if success && stream {
                    (ProxyPhase::Streaming { route, last: None }, actions1(ProxyAction::StartStream))
                } else {
                    (ProxyPhase::Reading { route, success, cacheable, key }, actions1(ProxyAction::ReadBody))
                },
            },
            _ => (ProxyPhase::Opening { route, cacheable, key }, Vec::new()),
        },
        ProxyPhase::Streaming { route, last } => match event {
            ProxyEvent::Chunk(payloads) => {
                let next = last_reported_exec(last, &payloads);
                (ProxyPhase::Streaming { route, last: next }, actions1(ProxyAction::ForwardChunk))
            },
            ProxyEvent::StreamFailed(message) => {
                let acts = match route {
                    ProxyRoute::Responses => {
                        let usage = match last {
                            Some(u) => u,
                            None => zero(),
                        };
                        actions3(
                            ProxyAction::FailStream(stream_error(&message)),
                            record(usage, true, false, true),
                            ProxyAction::Close,
                        )
                    },
                    ProxyRoute::ChatCompletions => actions1(ProxyAction::Abort),
                };
                (ProxyPhase::Done, acts)
            },
            ProxyEvent::StreamEnded => {
                let usage = match last {
                    Some(u) => u,
                    None => zero(),
                };
                let acts = match route {
                    ProxyRoute::Responses => actions3(
                        ProxyAction::FinishStream,
                        record(usage, true, false, false),
                        ProxyAction::Close,
                    ),
                    ProxyRoute::ChatCompletions => actions2(record(usage, true, false, false), ProxyAction::Close),
                };
                (ProxyPhase::Done, acts)
            },
            _ => (ProxyPhase::Streaming { route, last }, Vec::new()),
        },
        ProxyPhase::Reading { route, success, cacheable, key } => match event {
            ProxyEvent::Body(body) => {
                let acts = match route {
                    ProxyRoute::Responses => match body {
                        Some(resp) => {
                            let usage = usage_of_response(&resp);
                            if cacheable {
                                let stored = copy_usage(&usage);
                                actions4(
                                    record(usage, false, false, false),
                                    ProxyAction::InsertCache { key, usage: stored },
                                    ProxyAction::ReplyResponse,
                                    ProxyAction::Close,
                                )
                            } else {
                                actions3(record(usage, false, false, false), ProxyAction::ReplyResponse, ProxyAction::Close)
                            }
                        },
                        None => actions1(ProxyAction::Abort),
                    },
                    ProxyRoute::ChatCompletions => if success {
                        match body {
                            Some(j) => actions3(
                                record(usage_of_response(&j), false, false, false),
                                ProxyAction::ForwardBody,
                                ProxyAction::Close,
                            ),
                            None => actions2(ProxyAction::ForwardBody, ProxyAction::Close),
                        }
                    } else {
                        actions3(record(zero(), false, false, true), ProxyAction::ForwardBody, ProxyAction::Close)
                    },
                };
                (ProxyPhase::Done, acts)
            },
            _ => (ProxyPhase::Reading { route, success, cacheable, key }, Vec::new()),
        },
        ProxyPhase::Done => (ProxyPhase::Done, Vec::new()),
    }
}

/// Whether the answer may still be stored in the cache from this phase on.
pub open spec fn may_store(p: ProxyPhaseV) -> bool {
    match p {
        ProxyPhaseV::LookingUp { .. } => true,
        ProxyPhaseV::Opening { cacheable, .. } => cacheable,
        ProxyPhaseV::Reading { cacheable, .. } => cacheable,
        _ => false,
    }
}

/// Whether some action stores an answer in the cache.
pub open spec fn stores(acts: Seq<ProxyActionV>) -> bool {
    exists|i: int| 0 <= i < acts.len() && #[trigger] acts[i] is InsertCache
}

/// The phase after a run of events, and every action of the run in order.
pub open spec fn proxy_run(p: ProxyPhaseV, events: Seq<ProxyEvent>) -> (ProxyPhaseV, Seq<ProxyActionV>)
    decreases events.len(),
{
    if events.len() == 0 {
        (p, Seq::empty())
    } else {
        let s = proxy_step_spec(p, events[0]);
        let rest = proxy_run(s.0, events.skip(1));
        (rest.0, s.1 + rest.1)
    }
}

proof fn lemma_step_may_store(p: ProxyPhaseV, e: ProxyEvent)
    ensures
        may_store(proxy_step_spec(p, e).0) ==> may_store(p),
        stores(proxy_step_spec(p, e).1) ==> may_store(p),
{
    let acts = proxy_step_spec(p, e).1;
    if stores(acts) {
        let i = choose|i: int| 0 <= i < acts.len() && #[trigger] acts[i] is InsertCache;
        assert(acts[i] is InsertCache);
    }
}

/// From a phase from which nothing may be stored (a stream being relayed, a
/// request that is not cacheable, a request already answered), no run of
/// events stores anything in the cache.
pub proof fn lemma_no_store_from(p: ProxyPhaseV, events: Seq<ProxyEvent>)
    requires
        !may_store(p),
    ensures
        !stores(proxy_run(p, events).1),
    decreases events.len(),
{
    if events.len() > 0 {
        let s = proxy_step_spec(p, events[0]);
        let rest = proxy_run(s.0, events.skip(1));
        lemma_step_may_store(p, events[0]);
        lemma_no_store_from(s.0, events.skip(1));
        let all = s.1 + rest.1;
        assert(proxy_run(p, events).1 == all);
        if stores(all) {
            let i = choose|i: int| 0 <= i < all.len() && #[trigger] all[i] is InsertCache;
            if i < s.1.len() {
                assert(s.1[i] is InsertCache);
            } else {
                assert(rest.1[i - s.1.len()] is InsertCache);
            }
        }
    }
}

/// An answer is stored in the cache only for a request to the Responses
/// endpoint whose body is JSON that does not ask for a stream, whatever
/// happens after the request starts.
pub proof fn lemma_cache_only_cacheable(
    route: ProxyRoute,
    body: Seq<char>,
    request: Option<Json>,
    events: Seq<ProxyEvent>,
)
    ensures
        stores(proxy_run(proxy_start_spec(route, body, request).0, events).1) ==> (route == ProxyRoute::Responses
            && (request matches Some(j) && cacheable_request(j))),
{
    let p = proxy_start_spec(route, body, request).0;
    if !may_store(p) {
        lemma_no_store_from(p, events);
    }
}

/// A streamed answer is never stored in the cache: from a phase that relays
/// a stream, no run of events stores anything.
pub proof fn lemma_streams_not_stored(route: ProxyRoute, last: Option<UsageV>, events: Seq<ProxyEvent>)
    ensures
        !stores(proxy_run(ProxyPhaseV::Streaming { route, last }, events).1),
{
    lemma_no_store_from(ProxyPhaseV::Streaming { route, last }, events);
}

/// Picks out the actions that record a request.
pub open spec fn record_pred() -> spec_fn(ProxyActionV) -> bool {
    |a: ProxyActionV| a is Record
}

/// How many of the actions record a request.
pub open spec fn records(acts: Seq<ProxyActionV>) -> nat {
    acts.filter(record_pred()).len()
}

proof fn lemma_step_records(p: ProxyPhaseV, e: ProxyEvent)
    ensures
        records(proxy_step_spec(p, e).1) <= 1,
        records(proxy_step_spec(p, e).1) == 1 ==> proxy_step_spec(p, e).0 is Done,
        p is Done ==> proxy_step_spec(p, e).0 is Done && proxy_step_spec(p, e).1.len() == 0,
{
    reveal_with_fuel(Seq::filter, 5);
}

/// A request is recorded in the statistics at most once, whatever events
/// follow, and never again once it has been dealt with.
pub proof fn lemma_recorded_at_most_once(p: ProxyPhaseV, events: Seq<ProxyEvent>)
    ensures
        records(proxy_run(p, events).1) <= (if p is Done { 0nat } else { 1nat }),
    decreases events.len(),
{
    if events.len() > 0 {
        let s = proxy_step_spec(p, events[0]);
        let rest = proxy_run(s.0, events.skip(1));
        lemma_step_records(p, events[0]);
        lemma_recorded_at_most_once(s.0, events.skip(1));
        Seq::filter_distributes_over_add(s.1, rest.1, record_pred());
        assert(proxy_run(p, events).1 == s.1 + rest.1);
    } else {
        assert(proxy_run(p, events).1.filter(record_pred()) =~= Seq::<ProxyActionV>::empty());
    }
}

/// When a stream ends, on either route, the request is recorded as streamed,
/// not cached and not failed, with the usage that the latest chunk reporting
/// one carried: here the last payload of the last chunk, whatever was
/// reported before it.
pub proof fn lemma_stream_end_records_last_usage(
    route: ProxyRoute,
    prev: Option<UsageV>,
    payloads: Vec<Json>,
    u: UsageV,
)
    requires
        payloads@.len() > 0,
        chunk_usage(payloads@.last()) == Some(u),
    ensures
        ({
            let acts = proxy_run(
                ProxyPhaseV::Streaming { route, last: prev },
                seq![ProxyEvent::Chunk(payloads), ProxyEvent::StreamEnded],
            ).1;
            exists|i: int|
                0 <= i < acts.len() && #[trigger] acts[i] == (ProxyActionV::Record {
                    usage: u,
                    is_stream: true,
                    cached: false,
                    error: false,
                })
        }),
{
    let events = seq![ProxyEvent::Chunk(payloads), ProxyEvent::StreamEnded];
    let p0 = ProxyPhaseV::Streaming { route, last: prev };
    let s1 = proxy_step_spec(p0, events[0]);
    assert(last_reported(prev, payloads@) == Some(u));
    assert(s1.0 == (ProxyPhaseV::Streaming { route, last: Some(u) }));
    let rest_events = events.skip(1);
    assert(rest_events =~= seq![ProxyEvent::StreamEnded]);
    let s2 = proxy_step_spec(s1.0, rest_events[0]);
    assert(rest_events.skip(1) =~= Seq::<ProxyEvent>::empty());
    assert(proxy_run(s2.0, rest_events.skip(1)).1 =~= Seq::<ProxyActionV>::empty());
    assert(proxy_run(s1.0, rest_events).1 =~= s2.1);
    let acts = proxy_run(p0, events).1;
    assert(acts == s1.1 + s2.1);
    let rec = ProxyActionV::Record { usage: u, is_stream: true, cached: false, error: false };
    if route == ProxyRoute::Responses {
        assert(acts[2] == rec);
    } else {
        assert(acts[1] == rec);
    }
}

/// A stream that ends without any chunk having reported usage is recorded
/// with no tokens and no model name, as streamed, not cached and not failed.
pub proof fn lemma_stream_without_usage_records_zero(route: ProxyRoute)
    ensures
        ({
            let acts = proxy_step_spec(ProxyPhaseV::Streaming { route, last: None }, ProxyEvent::StreamEnded).1;
            exists|i: int|
                0 <= i < acts.len() && #[trigger] acts[i] == (ProxyActionV::Record {
                    usage: UsageV {
                        prompt_tokens: 0,
                        completion_tokens: 0,
                        reasoning_tokens: 0,
                        cached_tokens: 0,
                        total_tokens: 0,
                        model: Seq::empty(),
                    },
                    is_stream: true,
                    cached: false,
                    error: false,
                })
        }),
{
    let acts = proxy_step_spec(ProxyPhaseV::Streaming { route, last: None }, ProxyEvent::StreamEnded).1;
    if route == ProxyRoute::Responses {
        assert(acts[1] == record_v(zero_usage(), true, false, false));
    } else {
        assert(acts[0] == record_v(zero_usage(), true, false, false));
    }
}

/// What a step records of a request: it is marked streamed exactly when a
/// stream was being relayed, and cached exactly when it was answered from the
/// cache, in which case it carries the cached usage; a request answered from
/// the cache or read whole after a successful upstream answer is never
/// marked failed.
pub proof fn lemma_record_flags(p: ProxyPhaseV, e: ProxyEvent, i: int)
    requires
        0 <= i < proxy_step_spec(p, e).1.len(),
        proxy_step_spec(p, e).1[i] is Record,
    ensures
        ({
            let a = proxy_step_spec(p, e).1[i];
            &&& a->Record_is_stream <==> p is Streaming
            &&& a->Record_cached <==> p is LookingUp
            &&& p is LookingUp ==> (e matches ProxyEvent::CacheLookup(Some(hit)) && a->Record_usage == usage_view(hit.1)
                && !a->Record_error)
            &&& (p matches ProxyPhaseV::Reading { success, .. } && success) ==> !a->Record_error
        }),
{
}

} // verus!
