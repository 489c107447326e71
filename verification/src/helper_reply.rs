//! The helper's own answers: the configured model for `/config`, the fixed
//! answers of the backend and diagnostics endpoints and of unknown paths, the
//! event name a renderer log is filed under, and the head each answer
//! carries.

use vstd::prelude::*;
use crate::config::{self, ItemV, TomlItem, TomlV, TomlValue};
use crate::http::{self, HelperRoute};
use crate::json::{self, Json, JsonV};
use crate::text;

verus! {

/// The string at the key `k` of a table, where the entry there is a string.
pub open spec fn string_entry(d: Seq<(Seq<char>, ItemV)>, k: Seq<char>) -> Option<Seq<char>> {
    match config::lookup(d, k) {
        Some(ItemV::Value(TomlV::Str(s))) => Some(s),
        _ => None,
    }
}

/// The table at the key `k` of a table, where the entry there is a table.
pub open spec fn table_entry(d: Seq<(Seq<char>, ItemV)>, k: Seq<char>) -> Option<Seq<(Seq<char>, ItemV)>> {
    match config::lookup(d, k) {
        Some(ItemV::Table(t)) => Some(t),
        _ => None,
    }
}

pub open spec fn text_or(o: Option<Seq<char>>, default: Seq<char>) -> Seq<char> {
    match o {
        Some(s) => s,
        None => default,
    }
}

/// The configured model: the root string `model`, or empty.
pub open spec fn configured_model(d: Seq<(Seq<char>, ItemV)>) -> Seq<char> {
    text_or(string_entry(d, "model"@), Seq::empty())
}

/// The configured provider id: the root string `model_provider`, or `custom`.
pub open spec fn configured_provider(d: Seq<(Seq<char>, ItemV)>) -> Seq<char> {
    text_or(string_entry(d, "model_provider"@), "custom"@)
}

/// The `name` of the provider table `model_providers.<provider>`, or empty.
pub open spec fn provider_name(d: Seq<(Seq<char>, ItemV)>, provider: Seq<char>) -> Seq<char> {
    match table_entry(d, "model_providers"@) {
        Some(ps) => match table_entry(ps, provider) {
            Some(p) => text_or(string_entry(p, "name"@), Seq::empty()),
            None => Seq::empty(),
        },
        None => Seq::empty(),
    }
}

/// The name shown for the configured model (`config_display_name`).
pub open spec fn display_name(model: Seq<char>, name: Seq<char>, provider: Seq<char>) -> Seq<char> {
    if model.len() > 0 {
        model
    } else if name.len() > 0 && name != "custom"@ {
        name
    } else {
        provider
    }
}

/// The model, the provider id and the display name that `/config` reports
/// for a document with the entries `d`.
pub open spec fn config_reply_spec(d: Seq<(Seq<char>, ItemV)>) -> (Seq<char>, Seq<char>, Seq<char>) {
    let model = configured_model(d);
    let provider = configured_provider(d);
    (model, provider, display_name(model, provider_name(d, provider), provider))
}

fn string_at(d: &Vec<(String, TomlItem)>, key: &str) -> (r: Option<String>)
    ensures
        match r {
            Some(s) => string_entry(config::table_view(d@), key@) == Some(s@),
            None => string_entry(config::table_view(d@), key@) is None,
        },
{
    proof {
        config::lemma_table_view_len(d@);
    }
    match config::entry_index(d, key) {
        Some(i) => {
            proof {
                config::lemma_key_pos(config::table_view(d@), key@, i as int);
            }
            match &d[i].1 {
                TomlItem::Value(TomlValue::String(s)) => Some(s.clone()),
                _ => None,
            }
        },
        None => None,
    }
}

fn table_at<'a>(d: &'a Vec<(String, TomlItem)>, key: &str) -> (r: Option<&'a Vec<(String, TomlItem)>>)
    ensures
        match r {
            Some(t) => table_entry(config::table_view(d@), key@) == Some(config::table_view(t@)),
            None => table_entry(config::table_view(d@), key@) is None,
        },
{
    proof {
        config::lemma_table_view_len(d@);
    }
    match config::entry_index(d, key) {
        Some(i) => {
            proof {
                config::lemma_key_pos(config::table_view(d@), key@, i as int);
            }
            match &d[i].1 {
                TomlItem::Table(t) => Some(t),
                _ => None,
            }
        },
        None => None,
    }
}

/// The model, the provider id and the display name that `/config` reports
/// for a document with the entries `doc`.
pub fn config_reply(doc: &Vec<(String, TomlItem)>) -> (r: (String, String, String))
    ensures
        (r.0@, r.1@, r.2@) == config_reply_spec(config::table_view(doc@)),
{
    let model = match string_at(doc, "model") {
        Some(m) => m,
        None => String::new(),
    };
    let provider = match string_at(doc, "model_provider") {
        Some(p) => p,
        None => config::text("custom"),
    };
    let name = match table_at(doc, "model_providers") {
        Some(ps) => match table_at(ps, provider.as_str()) {
            Some(p) => match string_at(p, "name") {
                Some(n) => n,
                None => String::new(),
            },
            None => String::new(),
        },
        None => String::new(),
    };
    let display = http::config_display_name(&model, &name, &provider);
    (model, provider, display)
}

fn push_text(fields: &mut Vec<(String, Json)>, key: &str, value: &str)
    ensures
        json::jview_fields(final(fields)@) == json::jview_fields(old(fields)@).push((key@, JsonV::Str(value@))),
{
    let k = config::text(key);
    let v = config::text(value);
    let f = (k, Json::String(v));
    proof {
        json::lemma_jview_fields_push(fields@, f);
    }
    fields.push(f);
}

/// The pairs of a JSON object whose members are all strings.
pub open spec fn text_members(pairs: Seq<(Seq<char>, Seq<char>)>) -> Seq<(Seq<char>, JsonV)> {
    pairs.map_values(|p: (Seq<char>, Seq<char>)| (p.0, JsonV::Str(p.1)))
}

/// The body of the `/config` answer.
pub open spec fn config_body_spec(d: Seq<(Seq<char>, ItemV)>) -> JsonV {
    let r = config_reply_spec(d);
    JsonV::Object(
        text_members(
            seq![("status"@, "ok"@), ("model"@, r.0), ("modelProvider"@, r.1), ("displayName"@, r.2)],
        ),
    )
}

/// The body of the `/config` answer for a document with the entries `doc`:
/// `status` `ok`, then the model, the provider id and the display name.
pub fn config_body(doc: &Vec<(String, TomlItem)>) -> (j: Json)
    ensures
        json::jview(j) == config_body_spec(config::table_view(doc@)),
{
    let (model, provider, display) = config_reply(doc);
    let mut fields: Vec<(String, Json)> = Vec::new();
    assert(json::jview_fields(fields@) =~= Seq::<(Seq<char>, JsonV)>::empty());
    push_text(&mut fields, "status", "ok");
    push_text(&mut fields, "model", model.as_str());
    push_text(&mut fields, "modelProvider", provider.as_str());
    push_text(&mut fields, "displayName", display.as_str());
    let ghost r = config_reply_spec(config::table_view(doc@));
    assert(json::jview_fields(fields@) =~= text_members(
        seq![("status"@, "ok"@), ("model"@, r.0), ("modelProvider"@, r.1), ("displayName"@, r.2)],
    ));
    Json::Object(fields)
}

/// The body of the backend status and repair answers.
pub open spec fn backend_body_spec(version: Seq<char>) -> JsonV {
    JsonV::Object(
        text_members(
            seq![
                ("status"@, "ok"@),
                ("message"@, "后端已连接"@),
                ("version"@, version),
                ("transport"@, "http-helper"@),
            ],
        ),
    )
}

/// The body of the diagnostics log answer.
pub open spec fn diagnostics_body_spec() -> JsonV {
    JsonV::Object(text_members(seq![("status"@, "ok"@), ("message"@, "日志已记录"@)]))
}

/// The body of the answer to an unknown path.
pub open spec fn unknown_path_body_spec() -> JsonV {
    JsonV::Object(text_members(seq![("status"@, "failed"@), ("message"@, "未知后端路径"@)]))
}

/// The status and body of the routes whose answer the helper makes itself
/// from nothing but the program's version: the backend status and repair,
/// the diagnostics log, and unknown paths. The other routes have none here.
pub open spec fn helper_reply_spec(route: HelperRoute, version: Seq<char>) -> Option<(Seq<char>, JsonV)> {
    match route {
        HelperRoute::BackendStatus => Some(("200 OK"@, backend_body_spec(version))),
        HelperRoute::BackendRepair => Some(("200 OK"@, backend_body_spec(version))),
        HelperRoute::DiagnosticsLog => Some(("200 OK"@, diagnostics_body_spec())),
        HelperRoute::NotFound => Some(("404 Not Found"@, unknown_path_body_spec())),
        _ => None,
    }
}

/// The status and body of a route's answer (see `helper_reply_spec`), for a
/// program of the given version.
pub fn helper_reply(route: HelperRoute, version: &str) -> (r: Option<(String, Json)>)
    ensures
        match r {
            Some(reply) => helper_reply_spec(route, version@) == Some((reply.0@, json::jview(reply.1))),
            None => helper_reply_spec(route, version@) is None,
        },
{
    let mut fields: Vec<(String, Json)> = Vec::new();
    assert(json::jview_fields(fields@) =~= Seq::<(Seq<char>, JsonV)>::empty());
    match route {
        HelperRoute::BackendStatus | HelperRoute::BackendRepair => {
            push_text(&mut fields, "status", "ok");
            push_text(&mut fields, "message", "后端已连接");
            push_text(&mut fields, "version", version);
            push_text(&mut fields, "transport", "http-helper");
            assert(json::jview_fields(fields@) =~= text_members(
                seq![
                    ("status"@, "ok"@),
                    ("message"@, "后端已连接"@),
                    ("version"@, version@),
                    ("transport"@, "http-helper"@),
                ],
            ));
            Some((config::text("200 OK"), Json::Object(fields)))
        },
        HelperRoute::DiagnosticsLog => {
            push_text(&mut fields, "status", "ok");
            push_text(&mut fields, "message", "日志已记录");
            assert(json::jview_fields(fields@) =~= text_members(seq![("status"@, "ok"@), ("message"@, "日志已记录"@)]));
            Some((config::text("200 OK"), Json::Object(fields)))
        },
        HelperRoute::NotFound => {
            push_text(&mut fields, "status", "failed");
            push_text(&mut fields, "message", "未知后端路径");
            assert(json::jview_fields(fields@) =~= text_members(
                seq![("status"@, "failed"@), ("message"@, "未知后端路径"@)],
            ));
            Some((config::text("404 Not Found"), Json::Object(fields)))
        },
        _ => None,
    }
}

/// The head of a helper answer: the bare `204 No Content` head for an
/// `OPTIONS` request, else the head of a JSON body of `body_len` bytes.
pub fn helper_reply_head(method: &String, status: &str, body_len: usize) -> (s: String)
    ensures
        method@ == "OPTIONS"@ ==> s@ == "HTTP/1.1 204 No Content\r\n"@ + http::cors_headers()
            + "Content-Length: 0\r\nConnection: close\r\n\r\n"@,
        method@ != "OPTIONS"@ ==> s@ == "HTTP/1.1 "@ + status@ + "\r\nContent-Type: "@
            + "application/json; charset=utf-8"@ + "\r\n"@ + http::cors_headers() + "Content-Length: "@
            + text::decimal(body_len as nat) + "\r\nConnection: close\r\n\r\n"@,
{
    let options = config::text("OPTIONS");
    if *method == options {
        http::options_response_head()
    } else {
        http::http_response_head(status, "application/json; charset=utf-8", body_len)
    }
}

/// The event a renderer's log entry is filed under: `renderer.` and the
/// sanitized `event` member of the entry, or `renderer.event` without one.
pub open spec fn diagnostic_event_spec(detail: Json) -> Seq<char> {
    "renderer."@ + match json::json_get(detail, "event"@) {
        Some(v) => match json::json_as_str(v) {
            Some(e) => http::sanitize_spec(e),
            None => "event"@,
        },
        None => "event"@,
    }
}

pub fn diagnostic_event(detail: &Json) -> (s: String)
    ensures
        s@ == diagnostic_event_spec(*detail),
{
    let key = config::text("event");
    let name = match detail.get(&key) {
        Some(v) => match v.as_str() {
            Some(e) => http::sanitize_diagnostic_event(e.as_str()),
            None => config::text("event"),
        },
        None => config::text("event"),
    };
    let mut out = text::chars_of("renderer.");
    let tail = text::chars_of(name.as_str());
    text::push_all(&mut out, tail.as_slice());
    text::string_from_chars(out.as_slice())
}

} // verus!
