use ucodex_core::config::ConfigError;
use ucodex_core::json::{FloatValue, Json, JsonNumber};
use ucodex_core::migration::LATEST_CONFIG_VERSION;
use ucodex_core::toml_text::{
    config_version_of_text, document_or_empty, load_snapshot, migrate_text, read_document, save_feature_text,
    save_features_text, set_version_text, TomlFloats,
};

struct TestFloats;

impl TomlFloats for TestFloats {
    fn toml_float(value: FloatValue) -> toml_edit::Value {
        match value {
            FloatValue::Bits(bits) => toml_edit::Value::from(f64::from_bits(bits)),
            FloatValue::NearestTo(u) => toml_edit::Value::from(u as f64),
        }
    }
}

fn obj(fields: Vec<(&str, Json)>) -> Json {
    Json::Object(fields.into_iter().map(|(k, v)| (k.to_string(), v)).collect())
}

fn member<'a>(j: &'a Json, key: &str) -> Option<&'a Json> {
    match j {
        Json::Object(fs) => fs.iter().find(|(k, _)| k == key).map(|(_, v)| v),
        _ => None,
    }
}

const EXISTING: &str = "# my settings\nmodel = \"gpt-5\"\n\n[features]\nold = true\n\n[notice]\nshown = 1\n";

#[test]
fn snapshot_reads_the_text() {
    let snap = load_snapshot(EXISTING.to_string());
    assert_eq!(snap.raw_toml, EXISTING);
    assert!(matches!(member(&snap.features, "old"), Some(Json::Bool(true))));
    assert!(matches!(member(&snap.root_keys, "model"), Some(Json::String(m)) if m == "gpt-5"));

    let broken = load_snapshot("this is = = not toml".to_string());
    assert!(matches!(&broken.features, Json::Object(fs) if fs.is_empty()));
    assert!(matches!(&broken.root_keys, Json::Object(fs) if fs.is_empty()));
    assert!(read_document("this is = = not toml").is_none());
    assert!(document_or_empty("this is = = not toml").is_empty());
    assert_eq!(read_document(EXISTING).map(|d| d.len()), Some(3));
}

#[test]
fn features_save_keeps_the_rest_of_the_text() {
    let features = obj(vec![("fast_mode", Json::Bool(true))]);
    let out = save_features_text::<TestFloats>(EXISTING, &features).unwrap();
    assert!(out.contains("# my settings"));
    assert!(out.contains("model = \"gpt-5\""));
    assert!(out.contains("[features]"));
    assert!(out.contains("fast_mode = true"));
    assert!(!out.contains("old = true"));
    assert!(out.contains("[notice]"));
    assert!(out.ends_with('\n'));
    let again = load_snapshot(out);
    assert!(matches!(member(&again.features, "fast_mode"), Some(Json::Bool(true))));
}

#[test]
fn features_save_writes_floats_through_the_callers_conversion() {
    let features = obj(vec![("ratio", Json::Number(JsonNumber::Float(FloatValue::Bits(0.5f64.to_bits()))))]);
    let out = save_features_text::<TestFloats>("", &features).unwrap();
    assert!(out.contains("ratio = 0.5"));
}

#[test]
fn features_save_errors() {
    let features = obj(vec![("a", Json::Bool(true))]);
    assert!(matches!(
        save_features_text::<TestFloats>("x = = 1", &features),
        Err(ConfigError::InvalidToml)
    ));
    assert!(matches!(
        save_features_text::<TestFloats>("", &Json::Bool(true)),
        Err(ConfigError::FeaturesNotObject)
    ));
    assert!(matches!(
        save_features_text::<TestFloats>("features = 1\n", &features),
        Err(ConfigError::NotATable(k)) if k == "features"
    ));
    let removed = save_features_text::<TestFloats>(EXISTING, &obj(vec![])).unwrap();
    assert!(!removed.contains("[features]"));
}

#[test]
fn one_feature_is_set_in_place() {
    let out = save_feature_text::<TestFloats>(EXISTING, "beta", false).unwrap();
    assert!(out.contains("old = true"));
    assert!(out.contains("beta = false"));
    assert!(matches!(save_feature_text::<TestFloats>("features = [1]\n", "b", true), Err(ConfigError::NotATable(_))));
}

#[test]
fn version_is_recorded_and_read_back() {
    assert_eq!(config_version_of_text(EXISTING), 0);
    assert_eq!(config_version_of_text("not = = toml"), 0);
    let out = set_version_text::<TestFloats>(EXISTING, 7).unwrap();
    assert!(out.contains("[ucodex_internal]"));
    assert_eq!(config_version_of_text(&out), 7);
    assert!(matches!(
        set_version_text::<TestFloats>("ucodex_internal = 3\n", 1),
        Err(ConfigError::InternalNotATable)
    ));
}

#[test]
fn migration_runs_only_when_pending() {
    let (ran, out) = migrate_text::<TestFloats>(EXISTING).unwrap().unwrap();
    assert!(ran);
    assert_eq!(config_version_of_text(&out), LATEST_CONFIG_VERSION);
    assert!(out.contains("# my settings"));
    assert!(matches!(migrate_text::<TestFloats>(&out), Ok(None)));
    assert!(matches!(migrate_text::<TestFloats>("= broken"), Err(ConfigError::InvalidToml)));
}
