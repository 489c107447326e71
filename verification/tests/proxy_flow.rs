use ucodex_core::cache::ProxyCache;
use ucodex_core::json::{Json, JsonNumber};
use ucodex_core::proxy::{failed_body, proxy_start, proxy_step, ProxyAction, ProxyEvent, ProxyPhase, ProxyRoute};
use ucodex_core::usage::TokenUsage;

fn s(v: &str) -> String {
    v.to_string()
}

fn obj(fields: Vec<(&str, Json)>) -> Json {
    Json::Object(fields.into_iter().map(|(k, v)| (k.to_string(), v)).collect())
}

fn num(n: u64) -> Json {
    Json::Number(JsonNumber::PosInt(n))
}

fn usage(prompt: u64, completion: u64, total: u64, model: &str) -> TokenUsage {
    TokenUsage {
        prompt_tokens: prompt,
        completion_tokens: completion,
        reasoning_tokens: 0,
        cached_tokens: 0,
        total_tokens: total,
        model: s(model),
    }
}

fn same_usage(a: &TokenUsage, b: &TokenUsage) -> bool {
    a.prompt_tokens == b.prompt_tokens
        && a.completion_tokens == b.completion_tokens
        && a.reasoning_tokens == b.reasoning_tokens
        && a.cached_tokens == b.cached_tokens
        && a.total_tokens == b.total_tokens
        && a.model == b.model
}

fn opening(route: ProxyRoute, cacheable: bool, key: &str) -> ProxyPhase {
    ProxyPhase::Opening { route, cacheable, key: s(key) }
}

#[test]
fn cacheable_request_looks_up_the_cache_first() {
    let body = r#"{"model":"gpt-4o"}"#;
    let request = Some(obj(vec![("model", Json::String(s("gpt-4o")))]));
    let (phase, actions) = proxy_start(ProxyRoute::Responses, body, &request);
    let expected = ProxyCache::cache_key(body);
    assert!(matches!(&phase, ProxyPhase::LookingUp { key } if *key == expected));
    assert_eq!(actions.len(), 1);
    assert!(matches!(&actions[0], ProxyAction::LookupCache(k) if *k == expected));
}

#[test]
fn streaming_or_unparsed_request_skips_the_cache() {
    let request = Some(obj(vec![("stream", Json::Bool(true))]));
    let (phase, actions) = proxy_start(ProxyRoute::Responses, r#"{"stream":true}"#, &request);
    assert!(matches!(phase, ProxyPhase::Opening { route: ProxyRoute::Responses, cacheable: false, .. }));
    assert!(matches!(actions.as_slice(), [ProxyAction::OpenUpstream]));

    let (phase, actions) = proxy_start(ProxyRoute::Responses, "not json", &None);
    assert!(matches!(phase, ProxyPhase::Opening { route: ProxyRoute::Responses, cacheable: false, .. }));
    assert!(matches!(actions.as_slice(), [ProxyAction::OpenUpstream]));

    let (phase, actions) = proxy_start(ProxyRoute::ChatCompletions, "{}", &Some(obj(vec![])));
    assert!(matches!(phase, ProxyPhase::Opening { route: ProxyRoute::ChatCompletions, cacheable: false, .. }));
    assert!(matches!(actions.as_slice(), [ProxyAction::OpenUpstream]));
}

#[test]
fn cache_hit_replies_and_records_a_cached_request() {
    let hit = (b"{\"id\":1}".to_vec(), usage(3, 4, 7, "m"));
    let (phase, actions) =
        proxy_step(ProxyPhase::LookingUp { key: s("k") }, ProxyEvent::CacheLookup(Some(hit)));
    assert!(matches!(phase, ProxyPhase::Done));
    assert_eq!(actions.len(), 3);
    assert!(matches!(&actions[0], ProxyAction::ReplyCached(b) if b.as_slice() == b"{\"id\":1}"));
    match &actions[1] {
        ProxyAction::Record { usage: u, is_stream, cached, error } => {
            assert!(same_usage(u, &usage(3, 4, 7, "m")));
            assert!(!*is_stream && *cached && !*error);
        },
        other => panic!("unexpected {other:?}"),
    }
    assert!(matches!(actions[2], ProxyAction::Close));
}

#[test]
fn cache_miss_opens_the_upstream() {
    let (phase, actions) = proxy_step(ProxyPhase::LookingUp { key: s("k") }, ProxyEvent::CacheLookup(None));
    assert!(matches!(&phase, ProxyPhase::Opening { route: ProxyRoute::Responses, cacheable: true, key } if key == "k"));
    assert!(matches!(actions.as_slice(), [ProxyAction::OpenUpstream]));
}

#[test]
fn open_failure_answers_bad_gateway() {
    let (phase, actions) =
        proxy_step(opening(ProxyRoute::Responses, true, "k"), ProxyEvent::OpenFailed(s("refused")));
    assert!(matches!(phase, ProxyPhase::Done));
    assert!(matches!(actions.as_slice(), [ProxyAction::ReplyFailed(m), ProxyAction::Close] if m == "refused"));

    let (_, actions) =
        proxy_step(opening(ProxyRoute::ChatCompletions, false, ""), ProxyEvent::OpenFailed(s("refused")));
    assert_eq!(actions.len(), 3);
    match &actions[0] {
        ProxyAction::Record { usage: u, is_stream, cached, error } => {
            assert!(same_usage(u, &usage(0, 0, 0, "")));
            assert!(!*is_stream && !*cached && *error);
        },
        other => panic!("unexpected {other:?}"),
    }
    assert!(matches!(&actions[1], ProxyAction::ReplyFailed(m) if m == "refused"));
    assert!(matches!(actions[2], ProxyAction::Close));
}

#[test]
fn failed_body_has_status_and_message() {
    let j = failed_body("boom");
    match j {
        Json::Object(fields) => {
            assert_eq!(fields.len(), 2);
            assert_eq!(fields[0].0, "status");
            assert!(matches!(&fields[0].1, Json::String(v) if v == "failed"));
            assert_eq!(fields[1].0, "message");
            assert!(matches!(&fields[1].1, Json::String(v) if v == "boom"));
        },
        other => panic!("unexpected {other:?}"),
    }
}

#[test]
fn upstream_error_is_mapped_or_forwarded() {
    let (phase, actions) = proxy_step(
        opening(ProxyRoute::Responses, true, "k"),
        ProxyEvent::Opened { success: false, stream: false },
    );
    assert!(matches!(phase, ProxyPhase::Done));
    assert!(matches!(actions.as_slice(), [ProxyAction::ReplyUpstreamError, ProxyAction::Close]));

    let (phase, actions) = proxy_step(
        opening(ProxyRoute::ChatCompletions, false, ""),
        ProxyEvent::Opened { success: false, stream: true },
    );
    assert!(matches!(phase, ProxyPhase::Reading { success: false, .. }));
    assert!(matches!(actions.as_slice(), [ProxyAction::ReadBody]));
    let (_, actions) = proxy_step(phase, ProxyEvent::Body(None));
    assert_eq!(actions.len(), 3);
    assert!(matches!(&actions[0], ProxyAction::Record { error: true, is_stream: false, cached: false, .. }));
    assert!(matches!(actions[1], ProxyAction::ForwardBody));
    assert!(matches!(actions[2], ProxyAction::Close));
}

fn chunk_with_usage(prompt: u64, completion: u64, total: u64) -> Json {
    obj(vec![
        ("model", Json::String(s("gpt-4o"))),
        ("usage", obj(vec![("prompt_tokens", num(prompt)), ("completion_tokens", num(completion)), ("total_tokens", num(total))])),
    ])
}

#[test]
fn stream_records_the_last_reported_usage() {
    let (phase, actions) = proxy_step(
        opening(ProxyRoute::Responses, true, "k"),
        ProxyEvent::Opened { success: true, stream: true },
    );
    assert!(matches!(phase, ProxyPhase::Streaming { route: ProxyRoute::Responses, last: None }));
    assert!(matches!(actions.as_slice(), [ProxyAction::StartStream]));

    let (phase, actions) = proxy_step(phase, ProxyEvent::Chunk(vec![chunk_with_usage(1, 2, 3), chunk_with_usage(5, 6, 11)]));
    assert!(matches!(actions.as_slice(), [ProxyAction::ForwardChunk]));
    let (phase, _) = proxy_step(phase, ProxyEvent::Chunk(vec![obj(vec![("choices", Json::Array(vec![]))])]));
    let (phase, _) = proxy_step(phase, ProxyEvent::Chunk(vec![chunk_with_usage(0, 0, 0)]));
    let (phase, actions) = proxy_step(phase, ProxyEvent::StreamEnded);
    assert!(matches!(phase, ProxyPhase::Done));
    assert_eq!(actions.len(), 3);
    assert!(matches!(actions[0], ProxyAction::FinishStream));
    match &actions[1] {
        ProxyAction::Record { usage: u, is_stream, cached, error } => {
            assert!(same_usage(u, &usage(5, 6, 11, "gpt-4o")));
            assert!(*is_stream && !*cached && !*error);
        },
        other => panic!("unexpected {other:?}"),
    }
    assert!(matches!(actions[2], ProxyAction::Close));
}

#[test]
fn stream_failure_is_counted_as_an_error() {
    let phase = ProxyPhase::Streaming { route: ProxyRoute::Responses, last: None };
    let (phase, actions) = proxy_step(phase, ProxyEvent::StreamFailed(s("reset")));
    assert!(matches!(phase, ProxyPhase::Done));
    assert_eq!(actions.len(), 3);
    assert!(matches!(&actions[0], ProxyAction::FailStream(m) if m == "Stream error: reset"));
    match &actions[1] {
        ProxyAction::Record { usage: u, is_stream, cached, error } => {
            assert!(same_usage(u, &usage(0, 0, 0, "")));
            assert!(*is_stream && !*cached && *error);
        },
        other => panic!("unexpected {other:?}"),
    }

    let chat = ProxyPhase::Streaming { route: ProxyRoute::ChatCompletions, last: None };
    let (_, actions) = proxy_step(chat, ProxyEvent::StreamFailed(s("reset")));
    assert!(matches!(actions.as_slice(), [ProxyAction::Abort]));
}

fn response_body() -> Json {
    obj(vec![
        ("model", Json::String(s("gpt-4o"))),
        ("usage", obj(vec![("prompt_tokens", num(10)), ("completion_tokens", num(20)), ("total_tokens", num(30))])),
    ])
}

#[test]
fn success_is_recorded_and_cached_only_when_cacheable() {
    let reading = ProxyPhase::Reading { route: ProxyRoute::Responses, success: true, cacheable: true, key: s("k") };
    let (phase, actions) = proxy_step(reading, ProxyEvent::Body(Some(response_body())));
    assert!(matches!(phase, ProxyPhase::Done));
    assert_eq!(actions.len(), 4);
    match &actions[0] {
        ProxyAction::Record { usage: u, is_stream, cached, error } => {
            assert!(same_usage(u, &usage(10, 20, 30, "gpt-4o")));
            assert!(!*is_stream && !*cached && !*error);
        },
        other => panic!("unexpected {other:?}"),
    }
    match &actions[1] {
        ProxyAction::InsertCache { key, usage: u } => {
            assert_eq!(key, "k");
            assert!(same_usage(u, &usage(10, 20, 30, "gpt-4o")));
        },
        other => panic!("unexpected {other:?}"),
    }
    assert!(matches!(actions[2], ProxyAction::ReplyResponse));
    assert!(matches!(actions[3], ProxyAction::Close));

    let reading = ProxyPhase::Reading { route: ProxyRoute::Responses, success: true, cacheable: false, key: s("k") };
    let (_, actions) = proxy_step(reading, ProxyEvent::Body(Some(response_body())));
    assert_eq!(actions.len(), 3);
    assert!(!actions.iter().any(|a| matches!(a, ProxyAction::InsertCache { .. })));

    let reading = ProxyPhase::Reading { route: ProxyRoute::Responses, success: true, cacheable: true, key: s("k") };
    let (_, actions) = proxy_step(reading, ProxyEvent::Body(None));
    assert!(matches!(actions.as_slice(), [ProxyAction::Abort]));
}

#[test]
fn chat_success_records_usage_when_the_body_is_json() {
    let reading = ProxyPhase::Reading { route: ProxyRoute::ChatCompletions, success: true, cacheable: false, key: s("") };
    let (_, actions) = proxy_step(reading, ProxyEvent::Body(Some(response_body())));
    assert_eq!(actions.len(), 3);
    assert!(matches!(&actions[0], ProxyAction::Record { usage: u, error: false, .. } if u.total_tokens == 30));
    assert!(matches!(actions[1], ProxyAction::ForwardBody));

    let reading = ProxyPhase::Reading { route: ProxyRoute::ChatCompletions, success: true, cacheable: false, key: s("") };
    let (_, actions) = proxy_step(reading, ProxyEvent::Body(None));
    assert!(matches!(actions.as_slice(), [ProxyAction::ForwardBody, ProxyAction::Close]));
}

#[test]
fn unexpected_event_changes_nothing() {
    let (phase, actions) = proxy_step(ProxyPhase::Done, ProxyEvent::StreamEnded);
    assert!(matches!(phase, ProxyPhase::Done));
    assert!(actions.is_empty());
    let (phase, actions) = proxy_step(ProxyPhase::LookingUp { key: s("k") }, ProxyEvent::StreamEnded);
    assert!(matches!(&phase, ProxyPhase::LookingUp { key } if key == "k"));
    assert!(actions.is_empty());
}

fn run(route: ProxyRoute, body: &str, request: Option<Json>, events: Vec<ProxyEvent>) -> (ProxyPhase, Vec<ProxyAction>) {
    let (mut phase, mut all) = proxy_start(route, body, &request);
    for e in events {
        let (next, acts) = proxy_step(phase, e);
        phase = next;
        all.extend(acts);
    }
    (phase, all)
}

#[test]
fn whole_request_is_recorded_once_and_cached_only_when_cacheable() {
    let events = || {
        vec![
            ProxyEvent::CacheLookup(None),
            ProxyEvent::Opened { success: true, stream: false },
            ProxyEvent::Body(Some(response_body())),
            ProxyEvent::StreamEnded,
        ]
    };
    let request = obj(vec![("model", Json::String(s("gpt-4o")))]);
    let (phase, all) = run(ProxyRoute::Responses, "{}", Some(request), events());
    assert!(matches!(phase, ProxyPhase::Done));
    assert_eq!(all.iter().filter(|a| matches!(a, ProxyAction::Record { .. })).count(), 1);
    assert_eq!(all.iter().filter(|a| matches!(a, ProxyAction::InsertCache { .. })).count(), 1);

    // a streaming request skips the lookup, so the first event does not belong and changes nothing
    let request = obj(vec![("stream", Json::Bool(true))]);
    let (phase, all) = run(ProxyRoute::Responses, "{}", Some(request), events());
    assert!(matches!(phase, ProxyPhase::Done));
    assert_eq!(all.iter().filter(|a| matches!(a, ProxyAction::Record { .. })).count(), 1);
    assert_eq!(all.iter().filter(|a| matches!(a, ProxyAction::InsertCache { .. })).count(), 0);
}
