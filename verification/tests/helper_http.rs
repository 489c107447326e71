use ucodex_core::http::{
    config_display_name, content_length_from_headers, find_header_end, http_request_body, http_response_head,
    http_stream_head, options_response_head, parse_helper_request, route_helper_request, sanitize_diagnostic_event,
    HelperRoute, ProxyPathKind, ReadDecision, RequestReader, MAX_REQUEST_BYTES,
};

fn s(t: &str) -> String {
    t.to_string()
}

const NONE: ProxyPathKind = ProxyPathKind { responses: false, chat_completions: false, models: false };

#[test]
fn header_end_and_length() {
    assert_eq!(find_header_end(b"GET / HTTP/1.1\r\nHost: x\r\n\r\nbody"), Some(23));
    assert_eq!(find_header_end(b"GET / HTTP/1.1\r\n"), None);
    assert_eq!(content_length_from_headers(b"POST / HTTP/1.1\r\nContent-Length: 12\r\n"), Some(12));
    assert_eq!(content_length_from_headers(b"POST / HTTP/1.1\r\ncontent-length :  7 \r\n"), Some(7));
    assert_eq!(content_length_from_headers(b"POST / HTTP/1.1\r\nContent-Length: x\r\n"), None);
    assert_eq!(content_length_from_headers(b"POST / HTTP/1.1\r\nHost: a\r\n"), None);
}

#[test]
fn request_body_after_blank_line() {
    assert_eq!(http_request_body("POST / HTTP/1.1\r\nA: b\r\n\r\n{\"x\":1}"), "{\"x\":1}");
    assert_eq!(http_request_body("no blank line"), "");
}

#[test]
fn parse_request_line() {
    let req = parse_helper_request(b"POST /config HTTP/1.1\r\nHost: x\r\n\r\nhello");
    assert_eq!(req.method, "POST");
    assert_eq!(req.path, "/config");
    assert_eq!(req.body, "hello");
}

#[test]
fn reader_decisions() {
    let mut reader = RequestReader::new();
    let partial = b"POST / HTTP/1.1\r\nContent-Length: 4\r\n";
    reader.observe(partial);
    assert_eq!(reader.decide(partial.len()), ReadDecision::Continue);
    let full = b"POST / HTTP/1.1\r\nContent-Length: 4\r\n\r\nabcd";
    reader.observe(full);
    assert_eq!(reader.header_end, Some(34));
    assert_eq!(reader.content_length, 4);
    assert_eq!(reader.decide(full.len()), ReadDecision::Complete);
    // a complete request is complete whatever its size
    assert_eq!(reader.decide(MAX_REQUEST_BYTES + 1), ReadDecision::Complete);
    let headless = RequestReader::new();
    assert_eq!(headless.decide(MAX_REQUEST_BYTES), ReadDecision::Continue);
    assert_eq!(headless.decide(MAX_REQUEST_BYTES + 1), ReadDecision::TooLarge);
}

#[test]
fn diagnostic_event_names() {
    assert_eq!(sanitize_diagnostic_event("page.load-ok_1"), "page.load-ok_1");
    assert_eq!(sanitize_diagnostic_event("a b/c"), "a_b_c");
    assert_eq!(sanitize_diagnostic_event(""), "event");
}

#[test]
fn routes() {
    let responses = ProxyPathKind { responses: true, chat_completions: false, models: false };
    assert_eq!(route_helper_request(&s("POST"), &s("/v1/responses"), responses), HelperRoute::ResponsesProxy);
    assert_eq!(route_helper_request(&s("GET"), &s("/v1/responses"), responses), HelperRoute::NotFound);
    let models = ProxyPathKind { responses: false, chat_completions: false, models: true };
    assert_eq!(route_helper_request(&s("OPTIONS"), &s("/v1/models"), models), HelperRoute::ModelsProxy);
    assert_eq!(route_helper_request(&s("GET"), &s("/proxy-stats"), NONE), HelperRoute::ProxyStats);
    assert_eq!(route_helper_request(&s("GET"), &s("/config"), NONE), HelperRoute::Config);
    assert_eq!(route_helper_request(&s("POST"), &s("/backend/repair"), NONE), HelperRoute::BackendRepair);
    assert_eq!(route_helper_request(&s("GET"), &s("/diagnostics/log"), NONE), HelperRoute::NotFound);
    assert_eq!(route_helper_request(&s("POST"), &s("/diagnostics/log"), NONE), HelperRoute::DiagnosticsLog);
}

#[test]
fn response_heads() {
    let head = http_response_head("200 OK", "application/json", 2);
    assert!(head.starts_with("HTTP/1.1 200 OK\r\n"));
    assert!(head.contains("Content-Length: 2\r\n"));
    assert!(head.ends_with("\r\n\r\n"));
    let stream = http_stream_head("200 OK", "text/event-stream");
    assert!(stream.starts_with("HTTP/1.1 200 OK\r\n"));
    assert!(!stream.contains("Content-Length"));
    assert!(options_response_head().starts_with("HTTP/1.1 204"));
}

#[test]
fn display_name_choice() {
    assert_eq!(config_display_name(&s("gpt"), &s("My Relay"), &s("custom")), "gpt");
    assert_eq!(config_display_name(&s(""), &s("My Relay"), &s("relay")), "My Relay");
    assert_eq!(config_display_name(&s(""), &s("custom"), &s("relay")), "relay");
    assert_eq!(config_display_name(&s(""), &s(""), &s("relay")), "relay");
}
