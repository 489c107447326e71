//! The text of `config.toml`. `toml_edit` reads a text into the entries at
//! the top of its document, and carries a save's edits out on the document
//! itself, so that the comments and the layout of the text stay; the library
//! decides what is shown and which edits a save makes.
//!
//! The library builds no floating-point value: a float it writes is turned
//! into a `toml_edit` value by the caller's `TomlFloats`.

use vstd::prelude::*;
use crate::config::{self, CodexConfigSnapshot, ConfigEdit, ConfigError, EditV, ItemV, TomlItem, TomlV, TomlValue};
use crate::json::{jview, FloatValue, Json, JsonV};
use crate::migration;
use toml_edit::{DocumentMut, Item, Table, Value};

verus! {

#[verifier::external_type_specification]
#[verifier::external_body]
pub struct ExDocumentMut(toml_edit::DocumentMut);

#[verifier::external_type_specification]
#[verifier::external_body]
pub struct ExTable(toml_edit::Table);

#[verifier::external_type_specification]
#[verifier::external_body]
pub struct ExItem(toml_edit::Item);

#[verifier::external_type_specification]
#[verifier::external_body]
pub struct ExValue(toml_edit::Value);

/// How a floating-point value that the library keeps (the bits of an `f64`,
/// or the `f64` nearest to an integer) becomes a `toml_edit` value.
pub trait TomlFloats {
    fn toml_float(value: FloatValue) -> Value;
}

/// The model of a `toml_edit` value: the same variant with the same
/// contents; a float is kept as the bits of its `f64`, a date-time as its text.
#[verifier::external_body]
fn value_model(value: &Value) -> TomlValue {
    match value {
        Value::String(s) => TomlValue::String(s.value().clone()),
        Value::Integer(i) => TomlValue::Integer(*i.value()),
        Value::Float(f) => TomlValue::Float(FloatValue::Bits(f.value().to_bits())),
        Value::Boolean(b) => TomlValue::Boolean(*b.value()),
        Value::Datetime(d) => TomlValue::Datetime(d.value().to_string()),
        Value::Array(a) => TomlValue::Array(a.iter().map(value_model).collect()),
        Value::InlineTable(t) => TomlValue::InlineTable(t.iter().map(|(k, v)| (k.to_string(), value_model(v))).collect()),
    }
}

/// The model of a `toml_edit` table entry: the same variant with the same contents.
#[verifier::external_body]
fn item_model(item: &Item) -> TomlItem {
    match item {
        Item::None => TomlItem::Empty,
        Item::Value(v) => TomlItem::Value(value_model(v)),
        Item::Table(t) => TomlItem::Table(table_model(t)),
        Item::ArrayOfTables(a) => TomlItem::ArrayOfTables(a.iter().map(table_model).collect()),
    }
}

/// The entries of a `toml_edit` table (`Table::iter`, which skips empty
/// entries), each key with its entry, in order.
#[verifier::external_body]
fn table_model(table: &Table) -> Vec<(String, TomlItem)> {
    table.iter().map(|(k, item)| (k.to_string(), item_model(item))).collect()
}

/// The `toml_edit` date-time of a date-time text, or a string where
/// `toml_edit` does not read the text as one.
#[verifier::external_body]
fn datetime_edit(d: &String) -> Value {
    match d.parse::<toml_edit::Datetime>() {
        Ok(dt) => Value::from(dt),
        Err(_) => Value::from(d.as_str()),
    }
}

/// The `toml_edit` value of a modelled value: the same variant with the same contents.
#[verifier::external_body]
fn value_edit<F: TomlFloats>(value: &TomlValue) -> Value {
    match value {
        TomlValue::String(s) => Value::from(s.as_str()),
        TomlValue::Integer(i) => Value::from(*i),
        TomlValue::Float(f) => F::toml_float(*f),
        TomlValue::Boolean(b) => Value::from(*b),
        TomlValue::Datetime(d) => datetime_edit(d),
        TomlValue::Array(items) => Value::Array(items.iter().map(value_edit::<F>).collect()),
        TomlValue::InlineTable(fs) => Value::InlineTable(fs.iter().map(|(k, v)| (k.as_str(), value_edit::<F>(v))).collect()),
    }
}

/// The `toml_edit` entry of a modelled entry: the same variant with the same contents.
#[verifier::external_body]
fn item_edit<F: TomlFloats>(item: &TomlItem) -> Item {
    match item {
        TomlItem::Empty => Item::None,
        TomlItem::Value(v) => Item::Value(value_edit::<F>(v)),
        TomlItem::Table(entries) => Item::Table(table_edit::<F>(entries)),
        TomlItem::ArrayOfTables(tables) => Item::ArrayOfTables(tables.iter().map(|t| table_edit::<F>(t)).collect()),
    }
}

/// The `toml_edit` table of modelled entries, in order.
#[verifier::external_body]
fn table_edit<F: TomlFloats>(entries: &Vec<(String, TomlItem)>) -> Table {
    entries.iter().map(|(k, i)| (k.as_str(), item_edit::<F>(i))).collect()
}

/// Puts entries into the table under `key` at the top of a document (made
/// where missing), after emptying it when `clear`; `false` where the key
/// holds something other than a table.
#[verifier::external_body]
fn fill_table(doc: &mut DocumentMut, key: &str, clear: bool, entries: Table) -> bool {
    if !doc.contains_key(key) {
        doc[key] = toml_edit::table();
    }
    let Some(table) = doc.get_mut(key).and_then(Item::as_table_mut) else { return false };
    if clear {
        table.clear();
    }
    entries.into_iter().for_each(|(k, item)| table[k.as_str()] = item);
    true
}

/// Carries one edit out on a `toml_edit` document: `Remove` removes the key
/// from the top table, `SetValue` sets the key, `SetTable` empties the table
/// under the key (made where missing) and fills it, `SetTableValue` sets the
/// key in the table (made where missing). `false` where the key that should
/// hold the table holds something else.
#[verifier::external_body]
fn edit_document<F: TomlFloats>(doc: &mut DocumentMut, edit: &ConfigEdit) -> bool {
    match edit {
        ConfigEdit::Remove(key) => {
            doc.as_table_mut().remove(key);
            true
        },
        ConfigEdit::SetValue(key, value) => {
            doc[key.as_str()] = Item::Value(value_edit::<F>(value));
            true
        },
        ConfigEdit::SetTable(key, entries) => fill_table(doc, key, true, table_edit::<F>(entries)),
        ConfigEdit::SetTableValue(t, key, v) => {
            fill_table(doc, t, false, [(key.as_str(), Item::Value(value_edit::<F>(v)))].into_iter().collect())
        },
    }
}

/// The entries at the top of the document that `toml_edit` reads from a
/// text, or `None` where it does not read one.
pub uninterp spec fn toml_document(text: Seq<char>) -> Option<Seq<(Seq<char>, ItemV)>>;

/// Reads a text with `str::parse::<toml_edit::DocumentMut>` and takes the
/// entries of the document's top table, each key with its entry, in the
/// document's order. Which entries the TOML grammar makes of a text is named
/// by `toml_document`, not restated.
#[verifier::external_body]
fn parse_document(text: &str) -> (r: Option<Vec<(String, TomlItem)>>)
    ensures
        r is None <==> toml_document(text@) is None,
        r matches Some(d) ==> toml_document(text@) == Some(config::table_view(d@)),
{
    match text.parse::<DocumentMut>() {
        Ok(doc) => Some(table_model(doc.as_table())),
        Err(_) => None,
    }
}

/// Whether a value holds a floating-point number anywhere in it.
pub open spec fn value_has_float(v: TomlV) -> bool
    decreases v,
{
    match v {
        TomlV::Float(_) => true,
        TomlV::Array(items) => exists|i: int| 0 <= i < items.len() && value_has_float(#[trigger] items[i]),
        TomlV::InlineTable(fields) => exists|i: int|
            0 <= i < fields.len() && value_has_float(#[trigger] fields[i].1),
        _ => false,
    }
}

/// Whether an entry holds a floating-point number anywhere in it.
pub open spec fn item_has_float(it: ItemV) -> bool
    decreases it,
{
    match it {
        ItemV::Value(v) => value_has_float(v),
        ItemV::Table(t) => exists|i: int| 0 <= i < t.len() && item_has_float(#[trigger] t[i].1),
        ItemV::ArrayOfTables(ts) => exists|i: int, j: int|
            0 <= i < ts.len() && 0 <= j < ts[i].len() && item_has_float(#[trigger] ts[i][j].1),
        ItemV::Empty => false,
    }
}

/// Whether an edit writes a floating-point number.
pub open spec fn edit_has_float(e: EditV) -> bool {
    match e {
        EditV::Remove(_) => false,
        EditV::SetValue(_, v) => value_has_float(v),
        EditV::SetTable(_, t) => exists|i: int| 0 <= i < t.len() && item_has_float(#[trigger] t[i].1),
        EditV::SetTableValue(_, _, v) => value_has_float(v),
    }
}

/// Whether some edit writes a floating-point number.
pub open spec fn edits_have_float(es: Seq<EditV>) -> bool {
    exists|i: int| 0 <= i < es.len() && edit_has_float(#[trigger] es[i])
}

/// The text that `toml_edit` writes after reading a text and carrying the
/// edits out on its document, in order, or `None` where it does not read the
/// text or an edit finds something other than a table where it needs one.
pub uninterp spec fn toml_rendered(text: Seq<char>, edits: Seq<EditV>) -> Option<Seq<char>>;

/// Reads a text with `str::parse::<toml_edit::DocumentMut>`, carries the
/// edits out on the document in order, and writes the document with its
/// `Display`. Whether a text comes out does not depend on the floats; the
/// text itself is named by `toml_rendered` when no edit writes a float, and
/// left unsaid otherwise, since the floats are built by `F`.
#[verifier::external_body]
fn render_edits<F: TomlFloats>(text: &str, edits: &[ConfigEdit]) -> (r: Option<String>)
    ensures
        r is None <==> toml_rendered(text@, config::eviews(edits@)) is None,
        r matches Some(t) ==> (!edits_have_float(config::eviews(edits@)) ==> toml_rendered(
            text@,
            config::eviews(edits@),
        ) == Some(t@)),
{
    let mut doc = text.parse::<DocumentMut>().ok()?;
    for edit in edits {
        if !edit_document::<F>(&mut doc, edit) {
            return None;
        }
    }
    Some(doc.to_string())
}

/// The entries of a text, or none where it is not a TOML document.
pub open spec fn doc_or_empty(d: Option<Seq<(Seq<char>, ItemV)>>) -> Seq<(Seq<char>, ItemV)> {
    match d {
        Some(d) => d,
        None => Seq::empty(),
    }
}

/// A text with a line break at its end.
pub open spec fn with_newline(t: Seq<char>) -> Seq<char> {
    if t.len() > 0 && t.last() == '\n' {
        t
    } else {
        t.push('\n')
    }
}

/// What a snapshot shows of the text `raw` whose document has the entries `d`.
pub open spec fn shows(s: CodexConfigSnapshot, raw: Seq<char>, d: Seq<(Seq<char>, ItemV)>) -> bool {
    &&& s.raw_toml@ == raw
    &&& jview(s.root_keys) == JsonV::Object(config::root_json(d))
    &&& jview(s.features) == config::section_json(d, "features"@)
    &&& jview(s.mcp_servers) == config::section_json(d, "mcp_servers"@)
    &&& jview(s.plugins) == config::section_json(d, "plugins"@)
    &&& jview(s.projects) == config::section_json(d, "projects"@)
    &&& jview(s.marketplaces) == config::section_json(d, "marketplaces"@)
    &&& jview(s.notify) == config::array_json(d, "notify"@)
    &&& jview(s.model_providers) == config::section_json(d, "model_providers"@)
    &&& jview(s.profiles) == config::section_json(d, "profiles"@)
    &&& jview(s.skills) == config::section_json(d, "skills"@)
}

/// The entries of a `config.toml` text, or `None` where it is not a TOML
/// document.
pub fn read_document(raw: &str) -> (r: Option<Vec<(String, TomlItem)>>)
    ensures
        r is None <==> toml_document(raw@) is None,
        r matches Some(d) ==> toml_document(raw@) == Some(config::table_view(d@)),
{
    parse_document(raw)
}

/// The entries of a `config.toml` text; a text that is not a TOML document
/// counts as an empty one.
pub fn document_or_empty(raw: &str) -> (d: Vec<(String, TomlItem)>)
    ensures
        config::table_view(d@) == doc_or_empty(toml_document(raw@)),
{
    match parse_document(raw) {
        Some(d) => d,
        None => {
            let d: Vec<(String, TomlItem)> = Vec::new();
            assert(config::table_view(d@) =~= Seq::<(Seq<char>, ItemV)>::empty());
            d
        },
    }
}

/// The snapshot of a `config.toml` text: a text that is not a TOML document
/// is shown with no entries.
pub fn load_snapshot(raw: String) -> (s: CodexConfigSnapshot)
    ensures
        shows(s, raw@, doc_or_empty(toml_document(raw@))),
{
    let d = document_or_empty(raw.as_str());
    config::config_snapshot(raw, &d)
}

/// The version recorded in a `config.toml` text (0 without one, or where
/// the text is not a TOML document).
pub fn config_version_of_text(raw: &str) -> (v: u32)
    ensures
        v == migration::recorded_version(doc_or_empty(toml_document(raw@))),
{
    let d = document_or_empty(raw);
    migration::config_version_of(&d)
}

/// The text of a save: `existing` with the edits carried out and a line
/// break at its end. `InvalidToml` where `existing` is not a TOML document,
/// `InvalidGeneratedToml` where an edit finds something other than a table
/// where it needs one.
pub open spec fn saved_text_ok(existing: Seq<char>, es: Seq<EditV>, r: Result<String, ConfigError>) -> bool {
    &&& (toml_document(existing) is None ==> (r matches Err(ConfigError::InvalidToml)))
    &&& (toml_document(existing) is Some ==> match toml_rendered(existing, es) {
        None => r matches Err(ConfigError::InvalidGeneratedToml),
        Some(t) => r is Ok && (!edits_have_float(es) ==> (r matches Ok(out) && out@ == with_newline(t))),
    })
}

/// `existing` with the edits carried out and a line break at its end (see
/// `saved_text_ok`).
pub fn render_save<F: TomlFloats>(existing: &str, edits: &[ConfigEdit]) -> (r: Result<String, ConfigError>)
    ensures
        saved_text_ok(existing@, config::eviews(edits@), r),
{
    if parse_document(existing).is_none() {
        return Err(ConfigError::InvalidToml);
    }
    match render_edits::<F>(existing, edits) {
        Some(t) => Ok(config::ensure_trailing_newline(t)),
        None => Err(ConfigError::InvalidGeneratedToml),
    }
}

/// The text of `config.toml` after saving the `[features]` table: the edits
/// of `features_edits`, planned on the entries of `existing`, carried out on
/// its document, with a line break at the end. A refused save gives the
/// error of `features_edits`.
pub fn save_features_text<F: TomlFloats>(existing: &str, features: &Json) -> (r: Result<String, ConfigError>)
    ensures
        toml_document(existing@) is None ==> r matches Err(ConfigError::InvalidToml),
        toml_document(existing@) matches Some(d) ==> match jview(*features) {
            JsonV::Object(fs) => if fs.len() > 0 && config::blocks_table(d, "features"@) {
                r matches Err(ConfigError::NotATable(k)) && k@ == "features"@
            } else {
                saved_text_ok(existing@, config::features_save(fs), r)
            },
            _ => r matches Err(ConfigError::FeaturesNotObject),
        },
{
    let d = match parse_document(existing) {
        Some(d) => d,
        None => return Err(ConfigError::InvalidToml),
    };
    let edits = match config::features_edits(&d, features) {
        Ok(es) => es,
        Err(e) => return Err(e),
    };
    render_save::<F>(existing, edits.as_slice())
}

/// The text of `config.toml` after setting one feature switch.
pub fn save_feature_text<F: TomlFloats>(existing: &str, key: &str, value: bool) -> (r: Result<String, ConfigError>)
    ensures
        toml_document(existing@) is None ==> r matches Err(ConfigError::InvalidToml),
        toml_document(existing@) matches Some(d) ==> if config::blocks_table(d, "features"@) {
            r matches Err(ConfigError::NotATable(k)) && k@ == "features"@
        } else {
            saved_text_ok(
                existing@,
                seq![EditV::SetTableValue("features"@, key@, TomlV::Boolean(value))],
                r,
            )
        },
{
    let d = match parse_document(existing) {
        Some(d) => d,
        None => return Err(ConfigError::InvalidToml),
    };
    let edits = match config::feature_edits(&d, key, value) {
        Ok(es) => es,
        Err(e) => return Err(e),
    };
    render_save::<F>(existing, edits.as_slice())
}

/// The text of `config.toml` after recording `version`.
pub fn set_version_text<F: TomlFloats>(existing: &str, version: u32) -> (r: Result<String, ConfigError>)
    ensures
        toml_document(existing@) is None ==> r matches Err(ConfigError::InvalidToml),
        toml_document(existing@) matches Some(d) ==> if config::blocks_table(d, "ucodex_internal"@) {
            r matches Err(ConfigError::InternalNotATable)
        } else {
            saved_text_ok(existing@, seq![migration::version_edit(version)], r)
        },
{
    let d = match parse_document(existing) {
        Some(d) => d,
        None => return Err(ConfigError::InvalidToml),
    };
    let edits = match migration::version_edits(&d, version) {
        Ok(es) => es,
        Err(e) => return Err(e),
    };
    render_save::<F>(existing, edits.as_slice())
}

/// The migration of a `config.toml` text. `Ok(None)` where the recorded
/// version (0 where the text is not a TOML document) is already the latest:
/// nothing is written. Otherwise whether some migration ran and the text to
/// write, or the error of the save.
pub fn migrate_text<F: TomlFloats>(existing: &str) -> (r: Result<Option<(bool, String)>, ConfigError>)
    ensures
        ({
            let current = migration::recorded_version(doc_or_empty(toml_document(existing@)));
            &&& (current >= migration::LATEST_CONFIG_VERSION ==> (r matches Ok(None)))
            &&& current < migration::LATEST_CONFIG_VERSION ==> match toml_document(existing@) {
                None => r matches Err(ConfigError::InvalidToml),
                Some(d) => {
                    let es = migration::run_edits(d, current);
                    match r {
                        Ok(Some(out)) => out.0 == (migration::pending_from(
                            current as int,
                            migration::LATEST_CONFIG_VERSION as int,
                        ).len() > 0) && saved_text_ok(existing@, es, Ok(out.1)),
                        Ok(None) => false,
                        Err(e) => saved_text_ok(existing@, es, Err(e)),
                    }
                },
            }
        }),
{
    let current = config_version_of_text(existing);
    if current >= migration::LATEST_CONFIG_VERSION {
        return Ok(None);
    }
    let d = match parse_document(existing) {
        Some(d) => d,
        None => return Err(ConfigError::InvalidToml),
    };
    let (migrated, edits) = migration::migration_run(&d, current);
    match render_save::<F>(existing, edits.as_slice()) {
        Ok(text) => Ok(Some((migrated, text))),
        Err(e) => Err(e),
    }
}

} // verus!
