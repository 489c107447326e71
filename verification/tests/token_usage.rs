use ucodex_core::json::{Json, JsonNumber};
use ucodex_core::usage::{extract_usage_from_response, extract_usage_from_sse_chunk, sse_data_payloads};

fn object(members: Vec<(&str, Json)>) -> Json {
    Json::Object(members.into_iter().map(|(k, v)| (k.to_string(), v)).collect())
}

fn num(n: u64) -> Json {
    Json::Number(JsonNumber::PosInt(n))
}

#[test]
fn test_extract_usage() {
    let body = object(vec![
        ("model", Json::String("mimo-v2.5-pro".to_string())),
        (
            "usage",
            object(vec![
                ("prompt_tokens", num(100)),
                ("completion_tokens", num(200)),
                ("total_tokens", num(300)),
                ("completion_tokens_details", object(vec![("reasoning_tokens", num(50))])),
                ("prompt_tokens_details", object(vec![("cached_tokens", num(30))])),
            ]),
        ),
    ]);
    let usage = extract_usage_from_response(&body);
    assert_eq!(usage.prompt_tokens, 100);
    assert_eq!(usage.completion_tokens, 200);
    assert_eq!(usage.total_tokens, 300);
    assert_eq!(usage.reasoning_tokens, 50);
    assert_eq!(usage.cached_tokens, 30);
    assert_eq!(usage.model, "mimo-v2.5-pro");
}

#[test]
fn test_extract_usage_anthropic_format() {
    let body = object(vec![
        ("model", Json::String("sonnet-3".to_string())),
        (
            "usage",
            object(vec![
                ("prompt_tokens", num(100)),
                ("completion_tokens", num(200)),
                ("total_tokens", num(300)),
                ("input_tokens_details", object(vec![("cached_tokens", num(40))])),
            ]),
        ),
    ]);
    let usage = extract_usage_from_response(&body);
    assert_eq!(usage.cached_tokens, 40);
}

#[test]
fn missing_usage_gives_zero_counts() {
    let body = object(vec![("model", Json::String("m".to_string()))]);
    let usage = extract_usage_from_response(&body);
    assert_eq!(usage.prompt_tokens, 0);
    assert_eq!(usage.total_tokens, 0);
    assert_eq!(usage.model, "m");
}

#[test]
fn sse_chunk_without_usage_is_none() {
    let chunk = object(vec![("model", Json::String("m".to_string()))]);
    assert!(extract_usage_from_sse_chunk(&chunk).is_none());
    let chunk = object(vec![
        ("model", Json::String("m".to_string())),
        ("usage", object(vec![("total_tokens", num(9))])),
    ]);
    let usage = extract_usage_from_sse_chunk(&chunk).expect("chunk has usage");
    assert_eq!(usage.total_tokens, 9);
}

#[test]
fn sse_payloads_in_order() {
    let text = "event: x\ndata: {\"a\":1}\n\ndata: [DONE]\r\ndata:no-space\n";
    let payloads = sse_data_payloads(text);
    assert_eq!(payloads.len(), 2);
    assert_eq!(payloads[0], "{\"a\":1}");
    assert_eq!(payloads[1], "[DONE]");
}
