use ucodex_core::config::{
    apply_edits, check_raw_toml, config_snapshot, ensure_trailing_newline, extract_array_as_json,
    extract_root_keys, feature_edits, features_edits, json_value_to_toml, mcp_servers_edits, notify_edits,
    plugins_edits, root_keys_edits, toml_value_to_json, ConfigError, TomlItem, TomlValue,
};
use ucodex_core::json::{FloatValue, Json, JsonNumber};

fn s(t: &str) -> String {
    t.to_string()
}

fn object(members: Vec<(&str, Json)>) -> Json {
    Json::Object(members.into_iter().map(|(k, v)| (s(k), v)).collect())
}

fn table(entries: Vec<(&str, TomlItem)>) -> TomlItem {
    TomlItem::Table(entries.into_iter().map(|(k, v)| (s(k), v)).collect())
}

fn value(v: TomlValue) -> TomlItem {
    TomlItem::Value(v)
}

fn member<'a>(j: &'a Json, key: &str) -> &'a Json {
    j.get(&s(key)).expect("member present")
}

fn is_empty_object(j: &Json) -> bool {
    matches!(j, Json::Object(m) if m.is_empty())
}

#[test]
fn load_and_save_features() {
    // [features]
    // js_repl = false
    // goals = true
    let mut doc = vec![(
        s("features"),
        table(vec![
            ("js_repl", value(TomlValue::Boolean(false))),
            ("goals", value(TomlValue::Boolean(true))),
        ]),
    )];
    let snapshot = config_snapshot(String::new(), &doc);
    assert!(matches!(member(&snapshot.features, "js_repl"), Json::Bool(false)));
    assert!(matches!(member(&snapshot.features, "goals"), Json::Bool(true)));

    let new_features = object(vec![("js_repl", Json::Bool(true)), ("goals", Json::Bool(false))]);
    let edits = features_edits(&doc, &new_features).expect("features is an object");
    apply_edits(&mut doc, edits);

    let snapshot = config_snapshot(String::new(), &doc);
    assert!(matches!(member(&snapshot.features, "js_repl"), Json::Bool(true)));
    assert!(matches!(member(&snapshot.features, "goals"), Json::Bool(false)));
}

#[test]
fn load_and_save_mcp_servers() {
    let doc = vec![(
        s("mcp_servers"),
        table(vec![(
            "node_repl",
            table(vec![
                ("args", value(TomlValue::Array(vec![]))),
                ("command", value(TomlValue::String(s("node_repl")))),
                ("startup_timeout_sec", value(TomlValue::Integer(120))),
                ("env", table(vec![("NODE_PATH", value(TomlValue::String(s("/usr/bin/node"))))])),
            ]),
        )]),
    )];
    let snapshot = config_snapshot(String::new(), &doc);
    let server = member(&snapshot.mcp_servers, "node_repl");
    assert!(matches!(member(server, "command"), Json::String(c) if c == "node_repl"));
    assert!(matches!(member(member(server, "env"), "NODE_PATH"), Json::String(p) if p == "/usr/bin/node"));
    assert!(matches!(member(server, "startup_timeout_sec"), Json::Number(JsonNumber::PosInt(120))));
}

#[test]
fn load_and_save_plugins() {
    let doc = vec![(
        s("plugins"),
        table(vec![("browser@openai-bundled", table(vec![("enabled", value(TomlValue::Boolean(true)))]))]),
    )];
    let snapshot = config_snapshot(String::new(), &doc);
    assert!(matches!(member(member(&snapshot.plugins, "browser@openai-bundled"), "enabled"), Json::Bool(true)));
}

#[test]
fn load_and_save_notify() {
    let doc = vec![(
        s("notify"),
        value(TomlValue::Array(vec![TomlValue::String(s("/usr/bin/say")), TomlValue::String(s("turn-ended"))])),
    )];
    let snapshot = config_snapshot(String::new(), &doc);
    match &snapshot.notify {
        Json::Array(items) => {
            assert_eq!(items.len(), 2);
            assert!(matches!(&items[0], Json::String(t) if t == "/usr/bin/say"));
        },
        _ => panic!("notify is an array"),
    }
}

#[test]
fn save_raw_toml_validates() {
    assert!(check_raw_toml("model = \"gpt-5.4\"\n").is_ok());
    assert!(check_raw_toml("this is not [valid toml").is_err());
}

#[test]
fn empty_config_returns_defaults() {
    let doc: Vec<(String, TomlItem)> = Vec::new();
    let snapshot = config_snapshot(String::new(), &doc);
    assert!(is_empty_object(&snapshot.features));
    assert!(is_empty_object(&snapshot.mcp_servers));
    assert!(matches!(&snapshot.notify, Json::Array(a) if a.is_empty()));
}

#[test]
fn save_empty_features_removes_section() {
    let mut doc = vec![(s("features"), table(vec![("js_repl", value(TomlValue::Boolean(true)))]))];
    let edits = features_edits(&doc, &Json::Object(vec![])).unwrap();
    apply_edits(&mut doc, edits);
    assert!(doc.iter().all(|(k, _)| k != "features"));
}

#[test]
fn features_must_be_an_object() {
    let doc: Vec<(String, TomlItem)> = Vec::new();
    let err = features_edits(&doc, &Json::Bool(true)).unwrap_err();
    assert!(matches!(err, ConfigError::FeaturesNotObject));
    assert_eq!(err.message(), "features 必须是 JSON 对象");
}

#[test]
fn features_under_a_plain_value_is_refused() {
    let doc = vec![(s("features"), value(TomlValue::Integer(1)))];
    let err = features_edits(&doc, &object(vec![("a", Json::Bool(true))])).unwrap_err();
    assert!(matches!(&err, ConfigError::NotATable(k) if k == "features"));
    assert_eq!(err.message(), "features 必须是 TOML table");
}

#[test]
fn single_feature_switch_keeps_other_features() {
    let mut doc = vec![
        (s("model"), value(TomlValue::String(s("gpt-5.4")))),
        (s("features"), table(vec![("goals", value(TomlValue::Boolean(true)))])),
    ];
    let edits = feature_edits(&doc, "js_repl", false).unwrap();
    apply_edits(&mut doc, edits);
    let snapshot = config_snapshot(String::new(), &doc);
    assert!(matches!(member(&snapshot.features, "goals"), Json::Bool(true)));
    assert!(matches!(member(&snapshot.features, "js_repl"), Json::Bool(false)));
    assert!(matches!(member(&snapshot.root_keys, "model"), Json::String(m) if m == "gpt-5.4"));
}

#[test]
fn mcp_servers_save_reads_back_with_env_table() {
    let mut doc = vec![(s("mcp_servers"), table(vec![("old", table(vec![]))]))];
    let servers = object(vec![(
        "my_server",
        object(vec![
            ("command", Json::String(s("my_server"))),
            ("args", Json::Array(vec![Json::String(s("--verbose"))])),
            ("env", object(vec![("API_KEY", Json::String(s("secret")))])),
        ]),
    )]);
    apply_edits(&mut doc, mcp_servers_edits(&servers));
    let snapshot = config_snapshot(String::new(), &doc);
    assert!(snapshot.mcp_servers.get(&s("old")).is_none());
    let server = member(&snapshot.mcp_servers, "my_server");
    assert!(matches!(member(server, "command"), Json::String(c) if c == "my_server"));
    assert!(matches!(member(member(server, "env"), "API_KEY"), Json::String(k) if k == "secret"));
    // env became a sub-table, not an inline value
    let (_, section) = doc.iter().find(|(k, _)| k == "mcp_servers").unwrap();
    match section {
        TomlItem::Table(servers) => match &servers[0].1 {
            TomlItem::Table(props) => {
                assert!(props.iter().any(|(k, v)| k == "env" && matches!(v, TomlItem::Table(_))));
            },
            _ => panic!("server is a table"),
        },
        _ => panic!("section is a table"),
    }
}

#[test]
fn plugins_save_skips_members_that_are_not_objects() {
    let mut doc: Vec<(String, TomlItem)> = Vec::new();
    let plugins = object(vec![
        ("a", object(vec![("enabled", Json::Bool(true))])),
        ("b", Json::Bool(false)),
    ]);
    apply_edits(&mut doc, plugins_edits(&plugins));
    let snapshot = config_snapshot(String::new(), &doc);
    assert!(snapshot.plugins.get(&s("a")).is_some());
    assert!(snapshot.plugins.get(&s("b")).is_none());
}

#[test]
fn empty_section_save_removes_section() {
    let mut doc = vec![(s("plugins"), table(vec![("a", table(vec![]))]))];
    apply_edits(&mut doc, plugins_edits(&Json::Object(vec![])));
    assert!(doc.is_empty());
}

#[test]
fn notify_save_keeps_strings_only() {
    let mut doc: Vec<(String, TomlItem)> = Vec::new();
    let notify = Json::Array(vec![Json::String(s("say")), Json::Bool(true), Json::String(s("done"))]);
    apply_edits(&mut doc, notify_edits(&notify).unwrap());
    match extract_array_as_json(&doc, "notify") {
        Json::Array(items) => {
            assert_eq!(items.len(), 2);
            assert!(matches!(&items[1], Json::String(t) if t == "done"));
        },
        _ => panic!("notify is an array"),
    }
    apply_edits(&mut doc, notify_edits(&Json::Null).unwrap());
    assert!(doc.is_empty());
    let err = notify_edits(&Json::Bool(true)).unwrap_err();
    assert_eq!(err.message(), "notify 必须是数组或 null");
}

#[test]
fn root_keys_set_and_remove() {
    let mut doc = vec![
        (s("model"), value(TomlValue::String(s("old")))),
        (s("approval"), value(TomlValue::String(s("never")))),
        (s("features"), table(vec![])),
    ];
    let keys = object(vec![
        ("model", Json::String(s("gpt-5.4"))),
        ("approval", Json::Null),
        ("model_provider", Json::String(s("custom"))),
    ]);
    apply_edits(&mut doc, root_keys_edits(&keys));
    let root = extract_root_keys(&doc);
    assert!(matches!(member(&root, "model"), Json::String(m) if m == "gpt-5.4"));
    assert!(root.get(&s("approval")).is_none());
    assert!(matches!(member(&root, "model_provider"), Json::String(m) if m == "custom"));
    // the model keeps its place at the top, the new key goes last
    assert_eq!(doc[0].0, "model");
    assert_eq!(doc[doc.len() - 1].0, "model_provider");
}

#[test]
fn json_to_toml_conversions() {
    assert!(matches!(json_value_to_toml(&Json::Null), TomlValue::String(t) if t.is_empty()));
    assert!(matches!(json_value_to_toml(&Json::Number(JsonNumber::PosInt(5))), TomlValue::Integer(5)));
    assert!(matches!(
        json_value_to_toml(&Json::Number(JsonNumber::PosInt(u64::MAX))),
        TomlValue::Float(FloatValue::NearestTo(u64::MAX))
    ));
    assert!(matches!(json_value_to_toml(&Json::Number(JsonNumber::NegInt(-3))), TomlValue::Integer(-3)));
    let dup = object(vec![("a", Json::Bool(true)), ("b", Json::Bool(true)), ("a", Json::Bool(false))]);
    match json_value_to_toml(&dup) {
        TomlValue::InlineTable(fields) => {
            assert_eq!(fields.len(), 2);
            assert_eq!(fields[0].0, "a");
            assert!(matches!(fields[0].1, TomlValue::Boolean(false)));
        },
        _ => panic!("an object becomes an inline table"),
    }
}

#[test]
fn toml_to_json_conversions() {
    let nan = TomlValue::Float(FloatValue::Bits(0x7ff8_0000_0000_0000));
    assert!(matches!(toml_value_to_json(&nan), Json::Null));
    let one = TomlValue::Float(FloatValue::Bits(0x3ff0_0000_0000_0000));
    assert!(matches!(toml_value_to_json(&one), Json::Number(JsonNumber::Float(_))));
    assert!(matches!(toml_value_to_json(&TomlValue::Integer(-1)), Json::Number(JsonNumber::NegInt(-1))));
    assert!(matches!(toml_value_to_json(&TomlValue::Integer(1)), Json::Number(JsonNumber::PosInt(1))));
    let date = TomlValue::Datetime(s("1979-05-27"));
    assert!(matches!(toml_value_to_json(&date), Json::String(d) if d == "1979-05-27"));
}

#[test]
fn root_keys_skip_tables() {
    let doc = vec![
        (s("model"), value(TomlValue::String(s("m")))),
        (s("features"), table(vec![("x", value(TomlValue::Boolean(true)))])),
        (s("profiles"), TomlItem::ArrayOfTables(vec![vec![]])),
    ];
    match extract_root_keys(&doc) {
        Json::Object(members) => {
            assert_eq!(members.len(), 1);
            assert_eq!(members[0].0, "model");
        },
        _ => panic!("root keys are an object"),
    }
}

#[test]
fn trailing_newline_is_added_once() {
    assert_eq!(ensure_trailing_newline(s("a = 1")), "a = 1\n");
    assert_eq!(ensure_trailing_newline(s("a = 1\n")), "a = 1\n");
    assert_eq!(ensure_trailing_newline(String::new()), "\n");
}
