use ucodex_core::config::{apply_edits, config_snapshot, TomlItem, TomlValue};
use ucodex_core::json::Json;
use ucodex_core::migration::{
    config_version_from_field, config_version_of, get_migration_status, migration_run, plan_migrations,
    version_edits, MigrationStep, LATEST_CONFIG_VERSION,
};

fn s(t: &str) -> String {
    t.to_string()
}

fn model_doc() -> Vec<(String, TomlItem)> {
    vec![(s("model"), TomlItem::Value(TomlValue::String(s("gpt-5.4"))))]
}

#[test]
fn default_version_is_zero() {
    assert_eq!(config_version_of(&model_doc()), 0);
}

#[test]
fn set_and_read_version() {
    let mut doc = model_doc();
    let edits = version_edits(&doc, 1).unwrap();
    apply_edits(&mut doc, edits);
    assert_eq!(config_version_of(&doc), 1);
    let snapshot = config_snapshot(String::new(), &doc);
    assert!(matches!(snapshot.root_keys.get(&s("model")), Some(Json::String(m)) if m == "gpt-5.4"));
}

#[test]
fn run_migrations_from_zero() {
    let mut doc = vec![(
        s("features"),
        TomlItem::Table(vec![(s("js_repl"), TomlItem::Value(TomlValue::Boolean(true)))]),
    )];
    let (migrated, edits) = migration_run(&doc, config_version_of(&doc));
    assert!(migrated);
    apply_edits(&mut doc, edits);
    assert_eq!(config_version_of(&doc), LATEST_CONFIG_VERSION);
    let snapshot = config_snapshot(String::new(), &doc);
    assert!(matches!(snapshot.features.get(&s("js_repl")), Some(Json::Bool(true))));
}

#[test]
fn no_migration_when_up_to_date() {
    let mut doc: Vec<(String, TomlItem)> = Vec::new();
    let edits = version_edits(&doc, LATEST_CONFIG_VERSION).unwrap();
    apply_edits(&mut doc, edits);
    let (migrated, edits) = migration_run(&doc, config_version_of(&doc));
    assert!(!migrated);
    assert!(edits.is_empty());
}

#[test]
fn migration_status_report() {
    let doc: Vec<(String, TomlItem)> = Vec::new();
    let status = get_migration_status(config_version_of(&doc));
    assert_eq!(status.current_version, 0);
    assert_eq!(status.latest_version, LATEST_CONFIG_VERSION);
    assert!(status.has_pending);
    assert_eq!(status.pending_versions, vec![0, 1]);
}

#[test]
fn status_when_current() {
    let status = get_migration_status(LATEST_CONFIG_VERSION);
    assert!(!status.has_pending);
    assert!(status.pending_versions.is_empty());
}

#[test]
fn plan_from_one() {
    let plan = plan_migrations(1).unwrap();
    assert_eq!(plan.from_version, 1);
    assert_eq!(plan.to_version, LATEST_CONFIG_VERSION);
    assert_eq!(plan.steps, vec![MigrationStep::V1ToV2]);
    assert!(plan_migrations(LATEST_CONFIG_VERSION).is_none());
}

#[test]
fn version_in_inline_table_is_read() {
    let doc = vec![(
        s("ucodex_internal"),
        TomlItem::Value(TomlValue::InlineTable(vec![(s("config_version"), TomlValue::Integer(7))])),
    )];
    assert_eq!(config_version_of(&doc), 7);
}

#[test]
fn internal_value_that_is_not_a_table() {
    let doc = vec![(s("ucodex_internal"), TomlItem::Value(TomlValue::Integer(3)))];
    let err = version_edits(&doc, 1).unwrap_err();
    assert_eq!(err.message(), "ucodex_internal 必须是 table");
    let (migrated, edits) = migration_run(&doc, 0);
    assert!(migrated);
    assert!(edits.is_empty());
}

#[test]
fn version_field_truncates_like_as_u32() {
    assert_eq!(config_version_from_field(None), 0);
    assert_eq!(config_version_from_field(Some(2)), 2);
    assert_eq!(config_version_from_field(Some(-1)), u32::MAX);
    assert_eq!(config_version_from_field(Some(1 << 32)), 0);
}

#[test]
fn migration_preserves_existing_content() {
    let mut doc = vec![
        (s("model"), TomlItem::Value(TomlValue::String(s("gpt-5.4")))),
        (s("model_provider"), TomlItem::Value(TomlValue::String(s("custom")))),
        (
            s("features"),
            TomlItem::Table(vec![
                (s("js_repl"), TomlItem::Value(TomlValue::Boolean(false))),
                (s("goals"), TomlItem::Value(TomlValue::Boolean(true))),
            ]),
        ),
        (
            s("mcp_servers"),
            TomlItem::Table(vec![(
                s("my_server"),
                TomlItem::Table(vec![
                    (s("command"), TomlItem::Value(TomlValue::String(s("my_server")))),
                    (s("args"), TomlItem::Value(TomlValue::Array(vec![TomlValue::String(s("--verbose"))]))),
                    (s("env"), TomlItem::Table(vec![(s("API_KEY"), TomlItem::Value(TomlValue::String(s("secret"))))])),
                ]),
            )]),
        ),
    ];
    let (_, edits) = migration_run(&doc, config_version_of(&doc));
    apply_edits(&mut doc, edits);
    let snapshot = config_snapshot(String::new(), &doc);
    assert!(matches!(snapshot.root_keys.get(&s("model")), Some(Json::String(m)) if m == "gpt-5.4"));
    assert!(matches!(snapshot.features.get(&s("js_repl")), Some(Json::Bool(false))));
    let server = snapshot.mcp_servers.get(&s("my_server")).expect("server kept");
    let env = server.get(&s("env")).expect("env kept");
    assert!(matches!(env.get(&s("API_KEY")), Some(Json::String(k)) if k == "secret"));
    assert_eq!(config_version_of(&doc), LATEST_CONFIG_VERSION);
}
