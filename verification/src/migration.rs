//! Versioning of `config.toml`: the version recorded in its
//! `[ucodex_internal]` table, the chain of one-step migrations, and which of
//! them are still to run.

use vstd::prelude::*;
use crate::config::{
    self, blocks_table, edits_result, eviews, lookup, table_view, tview_fields, ConfigEdit,
    ConfigError, EditV, ItemV, TomlItem, TomlV, TomlValue,
};

verus! {

/// The newest configuration version.
pub const LATEST_CONFIG_VERSION: u32 = 2;

/// A migration from one configuration version to the next.
#[derive(Debug, Clone, Copy, PartialEq, Eq, Structural)]
pub enum MigrationStep {
    /// v0 → v1: starts tracking the version; changes no data.
    V0ToV1,
    /// v1 → v2: a placeholder step; changes no data.
    V1ToV2,
}

/// The migration from `from` to `from + 1`, if that step changes anything.
pub open spec fn migration_for(from: u32) -> Option<MigrationStep> {
    if from == 0 {
        Some(MigrationStep::V0ToV1)
    } else if from == 1 {
        Some(MigrationStep::V1ToV2)
    } else {
        None
    }
}

/// The versions in `from..to` that have a migration, in order.
pub open spec fn pending_from(from: int, to: int) -> Seq<u32>
    decreases to - from,
{
    if from >= to {
        Seq::empty()
    } else if migration_for(from as u32) is Some {
        seq![from as u32] + pending_from(from + 1, to)
    } else {
        pending_from(from + 1, to)
    }
}

proof fn lemma_pending_have_steps(from: int, to: int)
    ensures
        forall|j: int| 0 <= j < pending_from(from, to).len() ==> migration_for(#[trigger] pending_from(from, to)[j]) is Some,
    decreases to - from,
{
    if from < to {
        lemma_pending_have_steps(from + 1, to);
        if migration_for(from as u32) is Some {
            let rest = pending_from(from + 1, to);
            assert forall|j: int| 0 <= j < pending_from(from, to).len() implies migration_for(#[trigger] pending_from(from, to)[j]) is Some by {
                if j > 0 {
                    assert(pending_from(from, to)[j] == rest[j - 1]);
                }
            }
        }
    }
}

/// The migration step that leaves version `from_version`.
pub fn migration_for_version(from_version: u32) -> (r: Option<MigrationStep>)
    ensures
        r == migration_for(from_version),
{
    match from_version {
        0 => Some(MigrationStep::V0ToV1),
        1 => Some(MigrationStep::V1ToV2),
        _ => None,
    }
}

/// The migration state shown to the user.
#[derive(Debug, Clone)]
pub struct MigrationStatus {
    pub current_version: u32,
    pub latest_version: u32,
    pub has_pending: bool,
    pub pending_versions: Vec<u32>,
}

/// The versions from `current` up to the latest that have a migration to run.
pub fn get_migration_status(current: u32) -> (s: MigrationStatus)
    ensures
        s.current_version == current,
        s.latest_version == LATEST_CONFIG_VERSION,
        s.pending_versions@ == pending_from(current as int, LATEST_CONFIG_VERSION as int),
        s.has_pending == (s.pending_versions@.len() > 0),
{
    let mut pending: Vec<u32> = Vec::new();
    let mut v: u32 = current;
    while v < LATEST_CONFIG_VERSION
        invariant
            current <= v,
            v <= LATEST_CONFIG_VERSION || v == current,
            pending@ + pending_from(v as int, LATEST_CONFIG_VERSION as int)
                == pending_from(current as int, LATEST_CONFIG_VERSION as int),
        decreases LATEST_CONFIG_VERSION - v,
    {
        if migration_for_version(v).is_some() {
            pending.push(v);
            assert(pending_from(v as int, LATEST_CONFIG_VERSION as int)
                == seq![v] + pending_from(v + 1, LATEST_CONFIG_VERSION as int));
        }
        v = v + 1;
        assert(pending@ + pending_from(v as int, LATEST_CONFIG_VERSION as int)
            =~= pending_from(current as int, LATEST_CONFIG_VERSION as int));
    }
    assert(pending_from(v as int, LATEST_CONFIG_VERSION as int) =~= Seq::<u32>::empty());
    assert(pending@ =~= pending_from(current as int, LATEST_CONFIG_VERSION as int));
    let has_pending = pending.len() > 0;
    MigrationStatus {
        current_version: current,
        latest_version: LATEST_CONFIG_VERSION,
        has_pending,
        pending_versions: pending,
    }
}

/// What a migration run does from a recorded version.
#[derive(Debug)]
pub struct MigrationPlan {
    /// The version the backup copy is labelled with.
    pub from_version: u32,
    /// The version recorded once the run is done.
    pub to_version: u32,
    /// The steps to apply, in order.
    pub steps: Vec<MigrationStep>,
}

/// The run from `current`: nothing when the configuration is up to date;
/// otherwise every step from `current` up to the latest version, ending at
/// the latest version. The run reports a migration when it has a step.
pub fn plan_migrations(current: u32) -> (r: Option<MigrationPlan>)
    ensures
        current >= LATEST_CONFIG_VERSION ==> r is None,
        current < LATEST_CONFIG_VERSION ==> (r matches Some(p) && p.from_version == current
            && p.to_version == LATEST_CONFIG_VERSION
            && p.steps@.len() == pending_from(current as int, LATEST_CONFIG_VERSION as int).len()
            && forall|i: int| 0 <= i < p.steps@.len() ==> Some(#[trigger] p.steps@[i]) == migration_for(
                pending_from(current as int, LATEST_CONFIG_VERSION as int)[i],
            )),
{
    if current >= LATEST_CONFIG_VERSION {
        return None;
    }
    let status = get_migration_status(current);
    proof {
        lemma_pending_have_steps(current as int, LATEST_CONFIG_VERSION as int);
    }
    let mut steps: Vec<MigrationStep> = Vec::new();
    let mut i: usize = 0;
    while i < status.pending_versions.len()
        invariant
            i <= status.pending_versions@.len(),
            status.pending_versions@ == pending_from(current as int, LATEST_CONFIG_VERSION as int),
            steps@.len() == i,
            forall|j: int| 0 <= j < i ==> Some(#[trigger] steps@[j]) == migration_for(status.pending_versions@[j]),
            forall|j: int| 0 <= j < status.pending_versions@.len() ==> migration_for(
                #[trigger] status.pending_versions@[j],
            ) is Some,
        decreases status.pending_versions.len() - i,
    {
        match migration_for_version(status.pending_versions[i]) {
            Some(step) => steps.push(step),
            None => {},
        }
        i = i + 1;
    }
    Some(MigrationPlan { from_version: current, to_version: LATEST_CONFIG_VERSION, steps })
}

/// The recorded version: the integer `config_version` of `[ucodex_internal]`
/// converted with `as u32` (so truncated to its low 32 bits), or 0 when the
/// field is missing or not an integer.
pub fn config_version_from_field(field: Option<i64>) -> (v: u32)
    ensures
        v == match field {
            Some(x) => x as u32,
            None => 0u32,
        },
{
    match field {
        Some(x) => x as u32,
        None => 0,
    }
}

/// Every version below the latest has a migration step.
pub proof fn lemma_pending_nonempty_below_latest(current: u32)
    ensures
        (pending_from(current as int, LATEST_CONFIG_VERSION as int).len() > 0) == (current < LATEST_CONFIG_VERSION),
{
    reveal_with_fuel(pending_from, 3);
}

/// The integer `config_version` of the `ucodex_internal` table (or inline
/// table) of a document, if it has one.
pub open spec fn recorded_version_field(d: Seq<(Seq<char>, ItemV)>) -> Option<i64> {
    match lookup(d, "ucodex_internal"@) {
        Some(ItemV::Table(t)) => match lookup(t, "config_version"@) {
            Some(ItemV::Value(TomlV::Integer(i))) => Some(i),
            _ => None,
        },
        Some(ItemV::Value(TomlV::InlineTable(fs))) => match lookup(fs, "config_version"@) {
            Some(TomlV::Integer(i)) => Some(i),
            _ => None,
        },
        _ => None,
    }
}

/// The version a document records (0 where it records none).
pub open spec fn recorded_version(d: Seq<(Seq<char>, ItemV)>) -> u32 {
    match recorded_version_field(d) {
        Some(x) => x as u32,
        None => 0u32,
    }
}

fn field_index(fields: &Vec<(String, TomlValue)>, key: &str) -> (r: Option<usize>)
    ensures
        match r {
            Some(i) => config::is_first_key(tview_fields(fields@), key@, i as int),
            None => !config::has_key(tview_fields(fields@), key@),
        },
{
    proof {
        config::lemma_tview_fields_len(fields@);
    }
    let ghost tv = tview_fields(fields@);
    let mut i: usize = 0;
    while i < fields.len()
        invariant
            i <= fields@.len(),
            tv == tview_fields(fields@),
            tv.len() == fields@.len(),
            forall|j: int| 0 <= j < fields@.len() ==> #[trigger] tv[j] == (fields@[j].0@, config::tview(fields@[j].1)),
            forall|j: int| 0 <= j < i ==> #[trigger] tv[j].0 != key@,
        decreases fields.len() - i,
    {
        let t = config::text(key);
        if fields[i].0 == t {
            return Some(i);
        }
        i = i + 1;
    }
    None
}

/// The `config_version` integer of the internal table, if any.
fn version_field(doc: &Vec<(String, TomlItem)>) -> (r: Option<i64>)
    ensures
        r == recorded_version_field(table_view(doc@)),
{
    proof {
        config::lemma_table_view_len(doc@);
    }
    match config::entry_index(doc, "ucodex_internal") {
        Some(i) => {
            proof {
                config::lemma_key_pos(table_view(doc@), "ucodex_internal"@, i as int);
            }
            match &doc[i].1 {
                TomlItem::Table(t) => {
                    proof {
                        config::lemma_table_view_len(t@);
                    }
                    match config::entry_index(t, "config_version") {
                        Some(j) => {
                            proof {
                                config::lemma_key_pos(table_view(t@), "config_version"@, j as int);
                            }
                            match &t[j].1 {
                                TomlItem::Value(TomlValue::Integer(x)) => Some(*x),
                                _ => None,
                            }
                        },
                        None => None,
                    }
                },
                TomlItem::Value(TomlValue::InlineTable(fs)) => {
                    proof {
                        config::lemma_tview_fields_len(fs@);
                    }
                    match field_index(fs, "config_version") {
                        Some(j) => {
                            proof {
                                config::lemma_key_pos(tview_fields(fs@), "config_version"@, j as int);
                            }
                            match &fs[j].1 {
                                TomlValue::Integer(x) => Some(*x),
                                _ => None,
                            }
                        },
                        None => None,
                    }
                },
                _ => None,
            }
        },
        None => None,
    }
}

/// The version a document records: `config_version` of `[ucodex_internal]`
/// converted with `as u32`, or 0.
pub fn config_version_of(doc: &Vec<(String, TomlItem)>) -> (v: u32)
    ensures
        v == recorded_version(table_view(doc@)),
{
    config_version_from_field(version_field(doc))
}

/// The edit that records `version`: the key set in the internal table,
/// which is made where missing.
pub open spec fn version_edit(version: u32) -> EditV {
    EditV::SetTableValue("ucodex_internal"@, "config_version"@, TomlV::Integer(version as i64))
}

/// The edits that record `version`; refused where the internal entry is
/// not a table.
pub fn version_edits(doc: &Vec<(String, TomlItem)>, version: u32) -> (r: Result<Vec<ConfigEdit>, ConfigError>)
    ensures
        blocks_table(table_view(doc@), "ucodex_internal"@) ==> r matches Err(ConfigError::InternalNotATable),
        !blocks_table(table_view(doc@), "ucodex_internal"@) ==> (r matches Ok(es) && eviews(es@) == seq![
            version_edit(version),
        ]),
{
    if config::table_blocked(doc, "ucodex_internal") {
        return Err(ConfigError::InternalNotATable);
    }
    let es = vec![
        ConfigEdit::SetTableValue(config::text("ucodex_internal"), config::text("config_version"), TomlValue::Integer(version as i64)),
    ];
    assert(eviews(es@) =~= seq![version_edit(version)]);
    Ok(es)
}

/// The version edits of a migration run from `current`: one per version
/// stepped to, in order, or none where the internal entry is not a table.
pub open spec fn run_edits(d: Seq<(Seq<char>, ItemV)>, current: u32) -> Seq<EditV> {
    if blocks_table(d, "ucodex_internal"@) || current >= LATEST_CONFIG_VERSION {
        Seq::empty()
    } else {
        Seq::new((LATEST_CONFIG_VERSION - current) as nat, |i: int| version_edit((current + i + 1) as u32))
    }
}

/// A migration run from the recorded version `current`: whether it migrated
/// anything (a step ran) and the edits that record each version reached.
/// Nothing happens when the configuration is up to date.
pub fn migration_run(doc: &Vec<(String, TomlItem)>, current: u32) -> (r: (bool, Vec<ConfigEdit>))
    ensures
        r.0 == (current < LATEST_CONFIG_VERSION && pending_from(current as int, LATEST_CONFIG_VERSION as int).len() > 0),
        eviews(r.1@) == run_edits(table_view(doc@), current),
{
    let mut es: Vec<ConfigEdit> = Vec::new();
    if current >= LATEST_CONFIG_VERSION {
        assert(eviews(es@) =~= run_edits(table_view(doc@), current));
        return (false, es);
    }
    let blocked = config::table_blocked(doc, "ucodex_internal");
    let mut migrated = false;
    let mut ver: u32 = current;
    while ver < LATEST_CONFIG_VERSION
        invariant
            current <= ver <= LATEST_CONFIG_VERSION,
            migrated == (pending_from(current as int, LATEST_CONFIG_VERSION as int).len() > pending_from(
                ver as int,
                LATEST_CONFIG_VERSION as int,
            ).len()),
            blocked == blocks_table(table_view(doc@), "ucodex_internal"@),
            blocked ==> es@.len() == 0,
            !blocked ==> eviews(es@) =~= Seq::new((ver - current) as nat, |i: int| version_edit((current + i + 1) as u32)),
        decreases LATEST_CONFIG_VERSION - ver,
    {
        if migration_for_version(ver).is_some() {
            migrated = true;
        }
        proof {
            reveal_with_fuel(pending_from, 2);
        }
        if !blocked {
            let ghost prev = es@;
            es.push(
                ConfigEdit::SetTableValue(
                    config::text("ucodex_internal"),
                    config::text("config_version"),
                    TomlValue::Integer((ver + 1) as i64),
                ),
            );
            assert(eviews(es@) =~= eviews(prev).push(version_edit((ver + 1) as u32)));
        }
        ver = ver + 1;
    }
    proof {
        lemma_pending_nonempty_below_latest(current);
        reveal_with_fuel(pending_from, 3);
        if blocked {
            assert(eviews(es@) =~= run_edits(table_view(doc@), current));
        }
    }
    (migrated, es)
}

/// Recording a version reads it back.
pub proof fn lemma_version_read_back(d: Seq<(Seq<char>, ItemV)>, version: u32)
    ensures
        recorded_version(edits_result(d, seq![version_edit(version)])) == version,
{
    config::lemma_edits_one(d, version_edit(version));
    let sub = config::sub_table(d, "ucodex_internal"@);
    let x = ItemV::Value(TomlV::Integer(version as i64));
    let t = config::put(sub, "config_version"@, x);
    config::lemma_lookup_put_same(d, "ucodex_internal"@, ItemV::Table(t));
    config::lemma_lookup_put_same(sub, "config_version"@, x);
}

/// A migration run below the latest version, on a document whose internal
/// entry can hold a table, leaves the latest version recorded.
pub proof fn lemma_run_reaches_latest(d: Seq<(Seq<char>, ItemV)>, current: u32)
    requires
        current < LATEST_CONFIG_VERSION,
        !blocks_table(d, "ucodex_internal"@),
    ensures
        recorded_version(edits_result(d, run_edits(d, current))) == LATEST_CONFIG_VERSION,
{
    let es = run_edits(d, current);
    let before = edits_result(d, es.drop_last());
    assert(es.last() == version_edit(LATEST_CONFIG_VERSION));
    let sub = config::sub_table(before, "ucodex_internal"@);
    let x = ItemV::Value(TomlV::Integer(LATEST_CONFIG_VERSION as i64));
    config::lemma_lookup_put_same(before, "ucodex_internal"@, ItemV::Table(config::put(sub, "config_version"@, x)));
    config::lemma_lookup_put_same(sub, "config_version"@, x);
}

/// A migration run leaves every entry other than `ucodex_internal` as it
/// was: migrations never remove or change user data.
pub proof fn lemma_run_keeps_user_entries(d: Seq<(Seq<char>, ItemV)>, current: u32, k: Seq<char>)
    requires
        k != "ucodex_internal"@,
    ensures
        lookup(edits_result(d, run_edits(d, current)), k) == lookup(d, k),
{
    let es = run_edits(d, current);
    assert forall|i: int| 0 <= i < es.len() implies (#[trigger] es[i] is SetTableValue) && es[i]->SetTableValue_0
        == "ucodex_internal"@ by {}
    assert forall|n: int| 0 <= n <= es.len() implies #[trigger] lookup(edits_result(d, es.take(n)), k) == lookup(d, k) by {
        lemma_prefix_keeps(d, es, k, n);
    }
    assert(es.take(es.len() as int) =~= es);
}

proof fn lemma_prefix_keeps(d: Seq<(Seq<char>, ItemV)>, es: Seq<EditV>, k: Seq<char>, n: int)
    requires
        k != "ucodex_internal"@,
        0 <= n <= es.len(),
        forall|i: int| 0 <= i < es.len() ==> (#[trigger] es[i] is SetTableValue) && es[i]->SetTableValue_0
            == "ucodex_internal"@,
    ensures
        lookup(edits_result(d, es.take(n)), k) == lookup(d, k),
    decreases n,
{
    if n == 0 {
        assert(es.take(0) =~= Seq::<EditV>::empty());
    } else {
        lemma_prefix_keeps(d, es, k, n - 1);
        assert(es.take(n).drop_last() =~= es.take(n - 1));
        let prev = edits_result(d, es.take(n - 1));
        let e = es[n - 1];
        assert(e is SetTableValue);
        if let EditV::SetTableValue(t, key, v) = e {
            config::lemma_lookup_put_other(
                prev,
                t,
                ItemV::Table(config::put(config::sub_table(prev, t), key, ItemV::Value(v))),
                k,
            );
        }
    }
}

/// Recording a version leaves every entry other than `ucodex_internal` as
/// it was.
pub proof fn lemma_version_keeps_user_entries(d: Seq<(Seq<char>, ItemV)>, version: u32, k: Seq<char>)
    requires
        k != "ucodex_internal"@,
    ensures
        lookup(edits_result(d, seq![version_edit(version)]), k) == lookup(d, k),
{
    config::lemma_edits_one(d, version_edit(version));
    let sub = config::sub_table(d, "ucodex_internal"@);
    let x = ItemV::Value(TomlV::Integer(version as i64));
    config::lemma_lookup_put_other(d, "ucodex_internal"@, ItemV::Table(config::put(sub, "config_version"@, x)), k);
}

} // verus!
