use ucodex_core::helper_reply::{config_body, config_reply, diagnostic_event, helper_reply, helper_reply_head};
use ucodex_core::http::HelperRoute;
use ucodex_core::json::Json;
use ucodex_core::toml_text::document_or_empty;

fn reply(text: &str) -> (String, String, String) {
    config_reply(&document_or_empty(text))
}

fn fields(j: &Json) -> Vec<(String, String)> {
    match j {
        Json::Object(fs) => fs
            .iter()
            .map(|(k, v)| match v {
                Json::String(s) => (k.clone(), s.clone()),
                other => panic!("unexpected {other:?}"),
            })
            .collect(),
        other => panic!("unexpected {other:?}"),
    }
}

fn pairs(v: &[(&str, &str)]) -> Vec<(String, String)> {
    v.iter().map(|(a, b)| (a.to_string(), b.to_string())).collect()
}

#[test]
fn config_reply_reads_model_and_provider() {
    let text = "model = \"gpt-5\"\nmodel_provider = \"relay\"\n[model_providers.relay]\nname = \"My Relay\"\n";
    assert_eq!(reply(text), ("gpt-5".to_string(), "relay".to_string(), "gpt-5".to_string()));
    let text = "model_provider = \"relay\"\n[model_providers.relay]\nname = \"My Relay\"\n";
    assert_eq!(reply(text), ("".to_string(), "relay".to_string(), "My Relay".to_string()));
    let text = "model_provider = \"relay\"\n[model_providers.relay]\nname = \"custom\"\n";
    assert_eq!(reply(text), ("".to_string(), "relay".to_string(), "relay".to_string()));
    assert_eq!(reply(""), ("".to_string(), "custom".to_string(), "custom".to_string()));
    assert_eq!(reply("model = 5\n"), ("".to_string(), "custom".to_string(), "custom".to_string()));
}

#[test]
fn config_body_has_status_and_names() {
    let body = config_body(&document_or_empty("model = \"m\"\n"));
    assert_eq!(
        fields(&body),
        pairs(&[("status", "ok"), ("model", "m"), ("modelProvider", "custom"), ("displayName", "m")])
    );
}

#[test]
fn fixed_replies() {
    let (status, body) = helper_reply(HelperRoute::BackendStatus, "1.2.3").unwrap();
    assert_eq!(status, "200 OK");
    assert_eq!(
        fields(&body),
        pairs(&[("status", "ok"), ("message", "后端已连接"), ("version", "1.2.3"), ("transport", "http-helper")])
    );
    assert!(helper_reply(HelperRoute::BackendRepair, "1").is_some());
    let (status, body) = helper_reply(HelperRoute::DiagnosticsLog, "1").unwrap();
    assert_eq!(status, "200 OK");
    assert_eq!(fields(&body), pairs(&[("status", "ok"), ("message", "日志已记录")]));
    let (status, body) = helper_reply(HelperRoute::NotFound, "1").unwrap();
    assert_eq!(status, "404 Not Found");
    assert_eq!(fields(&body), pairs(&[("status", "failed"), ("message", "未知后端路径")]));
    assert!(helper_reply(HelperRoute::Config, "1").is_none());
    assert!(helper_reply(HelperRoute::ProxyStats, "1").is_none());
}

#[test]
fn reply_heads() {
    let head = helper_reply_head(&"OPTIONS".to_string(), "200 OK", 10);
    assert!(head.starts_with("HTTP/1.1 204 No Content\r\n"));
    assert!(head.contains("Content-Length: 0\r\n"));
    let head = helper_reply_head(&"GET".to_string(), "404 Not Found", 12);
    assert!(head.starts_with("HTTP/1.1 404 Not Found\r\nContent-Type: application/json; charset=utf-8\r\n"));
    assert!(head.contains("Content-Length: 12\r\n"));
}

#[test]
fn renderer_log_event_names() {
    let detail = Json::Object(vec![("event".to_string(), Json::String("boot ok".to_string()))]);
    assert_eq!(diagnostic_event(&detail), "renderer.boot_ok");
    assert_eq!(diagnostic_event(&Json::Null), "renderer.event");
    let detail = Json::Object(vec![("event".to_string(), Json::Bool(true))]);
    assert_eq!(diagnostic_event(&detail), "renderer.event");
}
