//! Activation of one resource's role policies: the columns a role may read
//! or write, the row predicates it must meet, and the values the compiler
//! presets on its writes.
use vstd::prelude::*;
use vstd::pervasive::VecAdditionalExecFns;
use crate::catalog::{ResourceDescriptor, catalog_key};
use crate::id_sets::{ColumnSet, column_less, column_lt, lemma_column_order};
use crate::identity::{ColumnId, LogicalType, PolicyId};
use crate::policy::{
    PolicyError, RawReturning, activate_returning, column_of, lemma_seen_columns, returning_error,
    returning_outcome, seen_columns,
};
use crate::predicate::{
    PolicyOperand, PolicyPredicate, entries_of, is_key, operand_error, operand_is,
    parse_operand, parse_predicate, predicate_error, predicate_is,
};
use crate::text_map::TextMap;
use crate::yaml::YamlValue;

verus! {

/// One entry of a `select` policy's column list.
#[derive(Debug)]
pub enum RawColumn {
    Regular(String),
    /// A column shown only to rows meeting `visible_if`; `on_deny` must be
    /// null, the one redaction supported.
    Conditional { name: String, visible_if: YamlValue, on_deny: YamlValue },
}

/// A `select` policy as written in a bundle.
#[derive(Debug)]
pub struct RawSelect {
    pub columns: Vec<RawColumn>,
    pub filter: YamlValue,
    pub limit: Option<u64>,
    pub allow_aggregations: bool,
    pub allow_windows: bool,
}

/// An `insert` policy as written in a bundle; presets are keyed by column
/// name.
#[derive(Debug)]
pub struct RawInsert {
    pub columns: Vec<String>,
    pub presets: TextMap<YamlValue>,
    pub check: YamlValue,
    pub returning: Option<RawReturning>,
}

/// An `update` policy as written in a bundle.
#[derive(Debug)]
pub struct RawUpdate {
    pub columns: Vec<String>,
    pub presets: TextMap<YamlValue>,
    pub filter: YamlValue,
    pub check: YamlValue,
    pub returning: Option<RawReturning>,
}

/// A `delete` policy as written in a bundle.
#[derive(Debug)]
pub struct RawDelete {
    pub filter: YamlValue,
    pub returning: Option<RawReturning>,
}

/// The policies of one role on one resource.
#[derive(Debug)]
pub struct RawRole {
    pub select: Option<RawSelect>,
    pub insert: Option<RawInsert>,
    pub update: Option<RawUpdate>,
    pub delete: Option<RawDelete>,
}

/// An activated `select` policy.
#[derive(Debug)]
pub struct SelectPolicy {
    pub id: PolicyId,
    pub regular_columns: ColumnSet,
    /// Each conditional column once, with the predicate that shows it.
    pub conditional_columns: Vec<(ColumnId, PolicyPredicate)>,
    pub filter: PolicyPredicate,
    pub limit: Option<u64>,
    pub allow_aggregations: bool,
    pub allow_windows: bool,
}

/// A value the compiler writes into a column on behalf of the role.
#[derive(Debug)]
pub struct Preset {
    pub column: ColumnId,
    pub logical_type: LogicalType,
    pub operand: PolicyOperand,
}

/// An activated `insert` policy.
#[derive(Debug)]
pub struct InsertPolicy {
    pub id: PolicyId,
    pub columns: ColumnSet,
    /// Each preset column once.
    pub presets: Vec<Preset>,
    pub check: PolicyPredicate,
    pub returning: ColumnSet,
}

/// An activated `update` policy.
#[derive(Debug)]
pub struct UpdatePolicy {
    pub id: PolicyId,
    pub columns: ColumnSet,
    pub presets: Vec<Preset>,
    pub filter: PolicyPredicate,
    pub check: PolicyPredicate,
    pub returning: ColumnSet,
}

/// An activated `delete` policy.
#[derive(Debug)]
pub struct DeletePolicy {
    pub id: PolicyId,
    pub filter: PolicyPredicate,
    pub returning: ColumnSet,
}

/// The refusal of a writable column list: it may not be empty, and each
/// name must be a distinct column.
pub open spec fn column_list_error(names: Seq<String>, resource: ResourceDescriptor) -> Option<
    PolicyError,
> {
    if names.len() == 0 {
        Some(PolicyError::UnsupportedCapability)
    } else {
        returning_error(names, resource)
    }
}

/// `set` holds exactly the columns that `names` name.
pub open spec fn names_columns(set: ColumnSet, names: Seq<String>, resource: ResourceDescriptor) -> bool {
    forall|c: ColumnId| #[trigger]
        set.has(c) == exists|j: int| 0 <= j < names.len() && column_of(resource, #[trigger] names[j]) == c
}

/// The columns a mutation policy may write.
fn activate_columns(names: &Vec<String>, resource: &ResourceDescriptor) -> (r: Result<ColumnSet, PolicyError>)
    requires
        resource.wf(),
    ensures
        match r {
            Ok(set) => column_list_error(names@, *resource) is None && names_columns(set, names@, *resource),
            Err(e) => column_list_error(names@, *resource) == Some(e),
        },
{
    if names.len() == 0 {
        return Err(PolicyError::UnsupportedCapability);
    }
    let raw = Some(RawReturning { columns: names.clone() });
    proof {
        assert(raw->0.columns@ == names@);
    }
    activate_returning(&raw, resource)
}

/// The entry that presets column `x`: the last one whose name resolves to
/// `x`.
pub open spec fn preset_source(
    entries: Seq<(Seq<char>, YamlValue)>,
    resource: ResourceDescriptor,
    x: ColumnId,
) -> Option<(Seq<char>, YamlValue)>
    decreases entries.len(),
{
    if entries.len() == 0 {
        None
    } else if resource.column_spec(catalog_key(entries.last().0)) matches Some(c) && c.id == x {
        Some(entries.last())
    } else {
        preset_source(entries.drop_last(), resource, x)
    }
}

/// The operand written is a column reference, which a preset may not be.
pub open spec fn writes_column_operand(v: YamlValue) -> bool {
    entries_of(v) matches Some(m) && m.len() == 1 && is_key(m[0].0, "column"@)
}

/// The refusal of one preset entry.
pub open spec fn preset_entry_error(
    name: Seq<char>,
    value: YamlValue,
    writable: Seq<ColumnId>,
    resource: ResourceDescriptor,
) -> Option<PolicyError> {
    match resource.column_spec(catalog_key(name)) {
        None => Some(PolicyError::UnknownColumn),
        Some(c) => if writable.contains(c.id) {
            Some(PolicyError::PresetColumnOverlap)
        } else {
            match operand_error(value, resource, c.value.logical_type) {
                Some(e) => Some(e),
                None => if writes_column_operand(value) {
                    Some(PolicyError::InvalidPredicate)
                } else {
                    None
                },
            }
        },
    }
}

/// The refusal of the first offending preset entry, in ascending name order.
pub open spec fn presets_error(
    entries: Seq<(Seq<char>, YamlValue)>,
    writable: Seq<ColumnId>,
    resource: ResourceDescriptor,
) -> Option<PolicyError>
    decreases entries.len(),
{
    if entries.len() == 0 {
        None
    } else {
        match presets_error(entries.drop_last(), writable, resource) {
            Some(e) => Some(e),
            None => preset_entry_error(entries.last().0, entries.last().1, writable, resource),
        }
    }
}

/// `p` is the preset that entry `src` gives.
pub open spec fn preset_is(p: Preset, src: (Seq<char>, YamlValue), resource: ResourceDescriptor) -> bool {
    match resource.column_spec(catalog_key(src.0)) {
        Some(c) => p.column == c.id && p.logical_type == c.value.logical_type && operand_is(
            p.operand,
            src.1,
            resource,
            c.value.logical_type,
        ),
        None => false,
    }
}

/// `presets` holds, once per column and in ascending column order, the
/// preset that `entries` give it.
pub open spec fn presets_from(
    presets: Seq<Preset>,
    entries: Seq<(Seq<char>, YamlValue)>,
    resource: ResourceDescriptor,
) -> bool {
    &&& forall|a: int, b: int|
        0 <= a < b < presets.len() ==> (#[trigger] presets[a]).column != (#[trigger] presets[b]).column
    &&& forall|a: int, b: int|
        0 <= a < b < presets.len() ==> column_lt((#[trigger] presets[a]).column, (#[trigger] presets[b]).column)
    &&& forall|x: ColumnId|
        #![trigger preset_source(entries, resource, x)]
        (exists|k: int| 0 <= k < presets.len() && (#[trigger] presets[k]).column == x) == (
        preset_source(entries, resource, x) is Some)
    &&& forall|k: int|
        0 <= k < presets.len() ==> (preset_source(entries, resource, (#[trigger] presets[k]).column)
            matches Some(src) && preset_is(presets[k], src, resource))
}

proof fn lemma_presets_error_stays(
    entries: Seq<(Seq<char>, YamlValue)>,
    writable: Seq<ColumnId>,
    resource: ResourceDescriptor,
    i: int,
)
    requires
        0 <= i <= entries.len(),
        presets_error(entries.take(i), writable, resource) is Some,
    ensures
        presets_error(entries, writable, resource) == presets_error(entries.take(i), writable, resource),
    decreases entries.len() - i,
{
    if i < entries.len() {
        assert(entries.take(i + 1).drop_last() =~= entries.take(i));
        lemma_presets_error_stays(entries, writable, resource, i + 1);
    } else {
        assert(entries.take(i) =~= entries);
    }
}

/// The position of the preset for `column`, if there is one.
fn preset_position(presets: &Vec<Preset>, column: ColumnId) -> (r: Option<usize>)
    ensures
        match r {
            Some(k) => k < presets@.len() && presets@[k as int].column == column,
            None => forall|k: int| 0 <= k < presets@.len() ==> (#[trigger] presets@[k]).column != column,
        },
{
    let mut k: usize = 0;
    while k < presets.len()
        invariant
            k <= presets@.len(),
            forall|j: int| 0 <= j < k ==> (#[trigger] presets@[j]).column != column,
        decreases presets.len() - k,
    {
        if presets[k].column == column {
            return Some(k);
        }
        k = k + 1;
    }
    None
}

/// The position at which a preset for `column` keeps `presets` ascending.
fn preset_insert_position(presets: &Vec<Preset>, column: ColumnId) -> (p: usize)
    ensures
        p <= presets@.len(),
        forall|i: int| 0 <= i < p ==> column_lt((#[trigger] presets@[i]).column, column),
        p < presets@.len() ==> !column_lt(presets@[p as int].column, column),
{
    let mut p: usize = 0;
    while p < presets.len()
        invariant
            p <= presets@.len(),
            forall|i: int| 0 <= i < p ==> column_lt((#[trigger] presets@[i]).column, column),
        decreases presets.len() - p,
    {
        if !column_less(presets[p].column, column) {
            return p;
        }
        p = p + 1;
    }
    p
}

/// One preset entry, checked.
fn activate_preset_entry(
    name: &str,
    value: &YamlValue,
    columns: &ColumnSet,
    resource: &ResourceDescriptor,
    Ghost(writable): Ghost<Seq<ColumnId>>,
) -> (r: Result<Preset, PolicyError>)
    requires
        resource.wf(),
        forall|x: ColumnId| #[trigger] columns.has(x) == writable.contains(x),
    ensures
        match r {
            Ok(p) => preset_entry_error(name@, *value, writable, *resource) is None && preset_is(
                p,
                (name@, *value),
                *resource,
            ),
            Err(e) => preset_entry_error(name@, *value, writable, *resource) == Some(e),
        },
{
    let column = match resource.column(name) {
        Some(c) => c,
        None => return Err(PolicyError::UnknownColumn),
    };
    if columns.contains(column.id) {
        return Err(PolicyError::PresetColumnOverlap);
    }
    let operand = match parse_operand(value, resource, column.value.logical_type) {
        Ok(op) => op,
        Err(e) => return Err(e),
    };
    match operand {
        PolicyOperand::Column(_) => {
            return Err(PolicyError::InvalidPredicate);
        },
        _ => {},
    }
    proof {
        reveal_strlit("session");
        reveal_strlit("column");
        assert(operand_is(operand, *value, *resource, column.value.logical_type));
        assert(!(operand is Column));
        if writes_column_operand(*value) {
            let m = entries_of(*value)->0;
            assert(is_key(m[0].0, "column"@));
            assert("column"@.len() == 6);
            assert("session"@.len() == 7);
            assert(!is_key(m[0].0, "session"@));
        }
        assert(!writes_column_operand(*value));
    }
    Ok(Preset { column: column.id, logical_type: column.value.logical_type, operand })
}

/// Records a preset, replacing an earlier one for the same column.
#[verifier::rlimit(60)]
fn record_preset(
    presets: &mut Vec<Preset>,
    preset: Preset,
    Ghost(prior): Ghost<Seq<(Seq<char>, YamlValue)>>,
    Ghost(now): Ghost<Seq<(Seq<char>, YamlValue)>>,
    Ghost(src): Ghost<(Seq<char>, YamlValue)>,
    Ghost(resource): Ghost<ResourceDescriptor>,
)
    requires
        presets_from(old(presets)@, prior, resource),
        preset_is(preset, src, resource),
        forall|x: ColumnId| #[trigger] preset_source(now, resource, x) == if x == preset.column {
            Some(src)
        } else {
            preset_source(prior, resource, x)
        },
    ensures
        presets_from(final(presets)@, now, resource),
{
    let ghost before = presets@;
    let column = preset.column;
    match preset_position(presets, column) {
        Some(k) => {
            presets.set(k, preset);
            proof {
                assert forall|a: int, b: int|
                    0 <= a < b < presets@.len() implies column_lt(
                    (#[trigger] presets@[a]).column,
                    (#[trigger] presets@[b]).column,
                ) by {
                    assert(column_lt(before[a].column, before[b].column));
                }
                assert forall|a: int, b: int|
                    0 <= a < b < presets@.len() implies (#[trigger] presets@[a]).column != (
                    #[trigger] presets@[b]).column by {
                    assert(before[a].column != before[b].column);
                }
                assert forall|x: ColumnId|
                    #![trigger preset_source(now, resource, x)]
                    (exists|j: int| 0 <= j < presets@.len() && (#[trigger] presets@[j]).column == x)
                        == (preset_source(now, resource, x) is Some) by {
                    assert(preset_source(prior, resource, x) is Some == exists|j: int|
                        0 <= j < before.len() && (#[trigger] before[j]).column == x);
                    if x != column {
                        if exists|j: int| 0 <= j < before.len() && (#[trigger] before[j]).column == x {
                            let j = choose|j: int| 0 <= j < before.len() && (#[trigger] before[j]).column == x;
                            assert(presets@[j].column == x);
                        }
                        if exists|j: int| 0 <= j < presets@.len() && (#[trigger] presets@[j]).column == x {
                            let j = choose|j: int| 0 <= j < presets@.len() && (#[trigger] presets@[j]).column == x;
                            assert(before[j].column == x);
                        }
                    } else {
                        assert(presets@[k as int].column == x);
                    }
                }
                assert forall|j: int| 0 <= j < presets@.len() implies (preset_source(
                    now,
                    resource,
                    (#[trigger] presets@[j]).column,
                ) matches Some(s) && preset_is(presets@[j], s, resource)) by {
                    if j != k {
                        assert(before[j].column != column);
                        assert(presets@[j] == before[j]);
                        assert(preset_source(prior, resource, before[j].column) matches Some(s)
                            && preset_is(before[j], s, resource));
                    }
                }
            }
        },
        None => {
            let p = preset_insert_position(presets, column);
            presets.insert(p, preset);
            proof {
                let n = before.len();
                assert(presets@ =~= before.insert(p as int, preset));
                assert forall|j: int| 0 <= j < presets@.len() implies (#[trigger] presets@[j]) == if j < p {
                    before[j]
                } else if j == p {
                    preset
                } else {
                    before[j - 1]
                } by {}
                assert forall|j: int| p <= j < n implies column_lt(column, (#[trigger] before[j]).column) by {
                    let x = before[p as int].column;
                    assert(x != column);
                    lemma_column_order(x, column);
                    assert(column_lt(column, x));
                    if j > p {
                        assert(column_lt(x, before[j].column));
                        crate::id_sets::lemma_column_lt_transitive(column, x, before[j].column);
                    }
                }
                assert forall|a: int, b: int|
                    0 <= a < b < presets@.len() implies column_lt(
                    (#[trigger] presets@[a]).column,
                    (#[trigger] presets@[b]).column,
                ) by {
                    if b < p {
                        assert(column_lt(before[a].column, before[b].column));
                    } else if b == p {
                        assert(column_lt(before[a].column, column));
                    } else if a < p {
                        assert(column_lt(before[a].column, column));
                        assert(column_lt(column, before[b - 1].column));
                        crate::id_sets::lemma_column_lt_transitive(before[a].column, column, before[b - 1].column);
                    } else if a == p {
                        assert(column_lt(column, before[b - 1].column));
                    } else {
                        assert(column_lt(before[a - 1].column, before[b - 1].column));
                    }
                }
                assert forall|a: int, b: int|
                    0 <= a < b < presets@.len() implies (#[trigger] presets@[a]).column != (
                    #[trigger] presets@[b]).column by {
                    lemma_column_order(presets@[a].column, presets@[b].column);
                }
                assert forall|x: ColumnId|
                    #![trigger preset_source(now, resource, x)]
                    (exists|j: int| 0 <= j < presets@.len() && (#[trigger] presets@[j]).column == x)
                        == (preset_source(now, resource, x) is Some) by {
                    assert(preset_source(prior, resource, x) is Some == exists|j: int|
                        0 <= j < before.len() && (#[trigger] before[j]).column == x);
                    if x != column {
                        if exists|j: int| 0 <= j < before.len() && (#[trigger] before[j]).column == x {
                            let j = choose|j: int| 0 <= j < before.len() && (#[trigger] before[j]).column == x;
                            if j < p {
                                assert(presets@[j].column == x);
                            } else {
                                assert(presets@[j + 1].column == x);
                            }
                        }
                        if exists|j: int| 0 <= j < presets@.len() && (#[trigger] presets@[j]).column == x {
                            let j = choose|j: int| 0 <= j < presets@.len() && (#[trigger] presets@[j]).column == x;
                            if j < p {
                                assert(before[j].column == x);
                            } else {
                                assert(j != p);
                                assert(before[j - 1].column == x);
                            }
                        }
                    } else {
                        assert(presets@[p as int].column == x);
                    }
                }
                assert forall|j: int| 0 <= j < presets@.len() implies (preset_source(
                    now,
                    resource,
                    (#[trigger] presets@[j]).column,
                ) matches Some(s) && preset_is(presets@[j], s, resource)) by {
                    if j < p {
                        assert(presets@[j] == before[j]);
                        assert(before[j].column != column);
                        assert(preset_source(prior, resource, before[j].column) matches Some(s)
                            && preset_is(before[j], s, resource));
                    } else if j > p {
                        assert(presets@[j] == before[j - 1]);
                        assert(before[j - 1].column != column);
                        assert(preset_source(prior, resource, before[j - 1].column) matches Some(s)
                            && preset_is(before[j - 1], s, resource));
                    }
                }
            }
        },
    }
}

/// The presets a mutation policy writes, checked against the columns the
/// caller may write.
fn activate_presets(
    entries_map: &TextMap<YamlValue>,
    columns: &ColumnSet,
    resource: &ResourceDescriptor,
    Ghost(writable): Ghost<Seq<ColumnId>>,
) -> (r: Result<Vec<Preset>, PolicyError>)
    requires
        resource.wf(),
        forall|x: ColumnId| #[trigger] columns.has(x) == writable.contains(x),
    ensures
        match r {
            Ok(presets) => presets_error(entries_map.entries(), writable, *resource) is None
                && presets_from(presets@, entries_map.entries(), *resource),
            Err(e) => presets_error(entries_map.entries(), writable, *resource) == Some(e),
        },
{
    let ghost entries = entries_map.entries();
    let n = entries_map.len();
    let mut presets: Vec<Preset> = Vec::new();
    let mut i: usize = 0;
    assert(entries.take(0) =~= Seq::<(Seq<char>, YamlValue)>::empty());
    while i < n
        invariant
            n == entries.len(),
            entries == entries_map.entries(),
            resource.wf(),
            i <= n,
            forall|x: ColumnId| #[trigger] columns.has(x) == writable.contains(x),
            presets_error(entries.take(i as int), writable, *resource) is None,
            presets_from(presets@, entries.take(i as int), *resource),
        decreases n - i,
    {
        let name = entries_map.key_at(i);
        let value = entries_map.value_at(i);
        let ghost prior = entries.take(i as int);
        let ghost now = entries.take(i + 1);
        assert(now.drop_last() =~= prior);
        assert(now.last() == entries[i as int]);
        let preset = match activate_preset_entry(name, value, columns, resource, Ghost(writable)) {
            Ok(p) => p,
            Err(e) => {
                proof {
                    lemma_presets_error_stays(entries, writable, *resource, i + 1);
                }
                return Err(e);
            },
        };
        record_preset(&mut presets, preset, Ghost(prior), Ghost(now), Ghost(entries[i as int]), Ghost(*resource));
        i = i + 1;
    }
    assert(entries.take(n as int) =~= entries);
    Ok(presets)
}


/// The column name of a column-list entry.
pub open spec fn raw_column_name(c: RawColumn) -> String {
    match c {
        RawColumn::Regular(name) => name,
        RawColumn::Conditional { name, .. } => name,
    }
}

pub open spec fn raw_names(columns: Seq<RawColumn>) -> Seq<String> {
    columns.map_values(|c: RawColumn| raw_column_name(c))
}

/// The refusal of one column-list entry, after the entries `prior`.
pub open spec fn select_column_error(
    c: RawColumn,
    prior: Seq<RawColumn>,
    resource: ResourceDescriptor,
) -> Option<PolicyError> {
    let seen = seen_columns(raw_names(prior), resource);
    match c {
        RawColumn::Regular(name) => match resource.column_spec(catalog_key(name@)) {
            None => Some(PolicyError::UnknownColumn),
            Some(d) => if seen.contains(d.id) {
                Some(PolicyError::DuplicateColumnPermission)
            } else {
                None
            },
        },
        RawColumn::Conditional { name, visible_if, on_deny } => if !(on_deny is Null) {
            Some(PolicyError::UnsupportedRedaction)
        } else {
            match resource.column_spec(catalog_key(name@)) {
                None => Some(PolicyError::UnknownColumn),
                Some(d) => if d.value.nullable {
                    Some(PolicyError::UnsupportedRedaction)
                } else if seen.contains(d.id) {
                    Some(PolicyError::DuplicateColumnPermission)
                } else {
                    predicate_error(visible_if, resource)
                },
            }
        },
    }
}

/// The refusal of the first offending column-list entry.
pub open spec fn select_columns_error(columns: Seq<RawColumn>, resource: ResourceDescriptor) -> Option<
    PolicyError,
>
    decreases columns.len(),
{
    if columns.len() == 0 {
        None
    } else {
        match select_columns_error(columns.drop_last(), resource) {
            Some(e) => Some(e),
            None => select_column_error(columns.last(), columns.drop_last(), resource),
        }
    }
}

proof fn lemma_select_columns_error_stays(columns: Seq<RawColumn>, resource: ResourceDescriptor, i: int)
    requires
        0 <= i <= columns.len(),
        select_columns_error(columns.take(i), resource) is Some,
    ensures
        select_columns_error(columns, resource) == select_columns_error(columns.take(i), resource),
    decreases columns.len() - i,
{
    if i < columns.len() {
        assert(columns.take(i + 1).drop_last() =~= columns.take(i));
        lemma_select_columns_error_stays(columns, resource, i + 1);
    } else {
        assert(columns.take(i) =~= columns);
    }
}

/// The refusal of a `select` policy activated with identity `policy_id`.
pub open spec fn select_error(raw: RawSelect, resource: ResourceDescriptor, policy_id: u64) -> Option<
    PolicyError,
> {
    if raw.columns@.len() == 0 {
        Some(PolicyError::InvalidBundle)
    } else {
        match select_columns_error(raw.columns@, resource) {
            Some(e) => Some(e),
            None => if policy_id == 0 {
                Some(PolicyError::TooManyPolicies)
            } else {
                predicate_error(raw.filter, resource)
            },
        }
    }
}

/// The columns that the regular entries of `columns` name, in order.
pub open spec fn regular_ids(columns: Seq<RawColumn>, resource: ResourceDescriptor) -> Seq<ColumnId>
    decreases columns.len(),
{
    if columns.len() == 0 {
        seq![]
    } else {
        regular_ids(columns.drop_last(), resource) + match columns.last() {
            RawColumn::Regular(name) => seq![column_of(resource, name)],
            _ => seq![],
        }
    }
}

/// The name and visibility predicate of each conditional entry of
/// `columns`, in order.
pub open spec fn conditional_entries(columns: Seq<RawColumn>) -> Seq<(String, YamlValue)>
    decreases columns.len(),
{
    if columns.len() == 0 {
        seq![]
    } else {
        conditional_entries(columns.drop_last()) + match columns.last() {
            RawColumn::Conditional { name, visible_if, .. } => seq![(name, visible_if)],
            _ => seq![],
        }
    }
}

/// The regular and conditional columns that the entries `columns` grant.
pub open spec fn grants_columns(
    regular: ColumnSet,
    conditional: Seq<(ColumnId, PolicyPredicate)>,
    columns: Seq<RawColumn>,
    resource: ResourceDescriptor,
) -> bool {
    &&& forall|x: ColumnId| #[trigger] regular.has(x) == regular_ids(columns, resource).contains(x)
    &&& conditional.len() == conditional_entries(columns).len()
    &&& forall|k: int|
        0 <= k < conditional.len() ==> (#[trigger] conditional[k]).0 == column_of(
            resource,
            conditional_entries(columns)[k].0,
        ) && predicate_is(conditional[k].1, conditional_entries(columns)[k].1, resource)
}

/// `p` is the `select` policy activated from `raw` with identity `policy_id`.
pub open spec fn select_is(p: SelectPolicy, raw: RawSelect, resource: ResourceDescriptor, policy_id: u64) -> bool {
    &&& p.id@ == policy_id
    &&& grants_columns(p.regular_columns, p.conditional_columns@, raw.columns@, resource)
    &&& predicate_is(p.filter, raw.filter, resource)
    &&& p.limit == raw.limit
    &&& p.allow_aggregations == raw.allow_aggregations
    &&& p.allow_windows == raw.allow_windows
}

/// Grants one column-list entry.
fn grant_column(
    column: &RawColumn,
    resource: &ResourceDescriptor,
    seen: &mut ColumnSet,
    regular: &mut ColumnSet,
    conditional: &mut Vec<(ColumnId, PolicyPredicate)>,
    Ghost(prior): Ghost<Seq<RawColumn>>,
) -> (r: Result<(), PolicyError>)
    requires
        resource.wf(),
        forall|x: ColumnId| #[trigger]
            old(seen).has(x) == seen_columns(raw_names(prior), *resource).contains(x),
        grants_columns(*old(regular), old(conditional)@, prior, *resource),
    ensures
        match r {
            Ok(()) => select_column_error(*column, prior, *resource) is None && (forall|x: ColumnId|
                #[trigger] final(seen).has(x) == seen_columns(raw_names(prior.push(*column)), *resource).contains(x))
                && grants_columns(*final(regular), final(conditional)@, prior.push(*column), *resource),
            Err(e) => select_column_error(*column, prior, *resource) == Some(e),
        },
{
    let ghost now = prior.push(*column);
    let ghost seen_prior = seen_columns(raw_names(prior), *resource);
    proof {
        assert(now.drop_last() =~= prior);
        assert(raw_names(now) =~= raw_names(prior).push(raw_column_name(*column)));
        assert(seen_columns(raw_names(now), *resource) =~= seen_prior.push(column_of(*resource, raw_column_name(*column))));
    }
    let ghost old_regular = *regular;
    let ghost old_conditional = conditional@;
    match column {
        RawColumn::Regular(name) => {
            let d = match resource.column(name.as_str()) {
                Some(d) => d,
                None => return Err(PolicyError::UnknownColumn),
            };
            if !seen.insert(d.id) {
                return Err(PolicyError::DuplicateColumnPermission);
            }
            regular.insert(d.id);
            proof {
                assert(column_of(*resource, *name) == d.id);
                assert(regular_ids(now, *resource) =~= regular_ids(prior, *resource).push(d.id));
                assert(conditional_entries(now) =~= conditional_entries(prior));
                assert forall|x: ColumnId| #[trigger] seen.has(x) == seen_columns(raw_names(now), *resource).contains(x) by {
                    vstd::seq_lib::lemma_seq_contains_after_push(seen_prior, d.id, x);
                }
                assert forall|x: ColumnId| #[trigger] regular.has(x) == regular_ids(now, *resource).contains(x) by {
                    vstd::seq_lib::lemma_seq_contains_after_push(regular_ids(prior, *resource), d.id, x);
                }
            }
            Ok(())
        },
        RawColumn::Conditional { name, visible_if, on_deny } => {
            match on_deny {
                YamlValue::Null => {},
                _ => return Err(PolicyError::UnsupportedRedaction),
            }
            let d = match resource.column(name.as_str()) {
                Some(d) => d,
                None => return Err(PolicyError::UnknownColumn),
            };
            if d.value.nullable {
                return Err(PolicyError::UnsupportedRedaction);
            }
            if !seen.insert(d.id) {
                return Err(PolicyError::DuplicateColumnPermission);
            }
            let predicate = match parse_predicate(visible_if, resource) {
                Ok(p) => p,
                Err(e) => return Err(e),
            };
            conditional.push((d.id, predicate));
            proof {
                assert(column_of(*resource, *name) == d.id);
                assert(regular_ids(now, *resource) =~= regular_ids(prior, *resource));
                assert(conditional_entries(now) =~= conditional_entries(prior).push((*name, *visible_if)));
                assert forall|x: ColumnId| #[trigger] seen.has(x) == seen_columns(raw_names(now), *resource).contains(x) by {
                    vstd::seq_lib::lemma_seq_contains_after_push(seen_prior, d.id, x);
                }
                assert forall|k: int|
                    0 <= k < conditional@.len() implies (#[trigger] conditional@[k]).0 == column_of(
                        *resource,
                        conditional_entries(now)[k].0,
                    ) && predicate_is(conditional@[k].1, conditional_entries(now)[k].1, *resource) by {
                    if k < old_conditional.len() {
                        assert(conditional@[k] == old_conditional[k]);
                    }
                }
            }
            Ok(())
        },
    }
}

/// Activates a `select` policy with identity `policy_id`.
pub fn activate_select(raw: &RawSelect, resource: &ResourceDescriptor, policy_id: u64) -> (r: Result<
    SelectPolicy,
    PolicyError,
>)
    requires
        resource.wf(),
    ensures
        match r {
            Ok(p) => select_error(*raw, *resource, policy_id) is None && select_is(
                p,
                *raw,
                *resource,
                policy_id,
            ),
            Err(e) => select_error(*raw, *resource, policy_id) == Some(e),
        },
{
    if raw.columns.len() == 0 {
        return Err(PolicyError::InvalidBundle);
    }
    let ghost columns = raw.columns@;
    let mut seen = ColumnSet::new();
    let mut regular = ColumnSet::new();
    let mut conditional: Vec<(ColumnId, PolicyPredicate)> = Vec::new();
    let mut i: usize = 0;
    assert(columns.take(0) =~= Seq::<RawColumn>::empty());
    assert(raw_names(columns.take(0)) =~= Seq::<String>::empty());
    assert(seen_columns(raw_names(columns.take(0)), *resource) =~= Seq::<ColumnId>::empty());
    while i < raw.columns.len()
        invariant
            columns == raw.columns@,
            columns.len() > 0,
            resource.wf(),
            i <= columns.len(),
            select_columns_error(columns.take(i as int), *resource) is None,
            forall|x: ColumnId| #[trigger]
                seen.has(x) == seen_columns(raw_names(columns.take(i as int)), *resource).contains(x),
            grants_columns(regular, conditional@, columns.take(i as int), *resource),
        decreases raw.columns.len() - i,
    {
        let ghost prior = columns.take(i as int);
        assert(columns.take(i + 1) =~= prior.push(columns[i as int]));
        assert(columns.take(i + 1).drop_last() =~= prior);
        match grant_column(&raw.columns[i], resource, &mut seen, &mut regular, &mut conditional, Ghost(prior)) {
            Ok(()) => {},
            Err(e) => {
                proof {
                    lemma_select_columns_error_stays(columns, *resource, i + 1);
                }
                return Err(e);
            },
        }
        i = i + 1;
    }
    assert(columns.take(i as int) =~= columns);
    let id = match PolicyId::new(policy_id) {
        Ok(id) => id,
        Err(_) => return Err(PolicyError::TooManyPolicies),
    };
    let filter = match parse_predicate(&raw.filter, resource) {
        Ok(p) => p,
        Err(e) => return Err(e),
    };
    Ok(
        SelectPolicy {
            id,
            regular_columns: regular,
            conditional_columns: conditional,
            filter,
            limit: raw.limit,
            allow_aggregations: raw.allow_aggregations,
            allow_windows: raw.allow_windows,
        },
    )
}

/// The refusal of a `returning` section: when present it names at least
/// one column, each once.
pub open spec fn returning_list_error(ret: Option<RawReturning>, resource: ResourceDescriptor) -> Option<
    PolicyError,
> {
    match ret {
        None => None,
        Some(r) => if r.columns@.len() == 0 {
            Some(PolicyError::InvalidBundle)
        } else {
            returning_error(r.columns@, resource)
        },
    }
}

/// `set` holds the columns that a `returning` section names.
pub open spec fn returns_columns(set: ColumnSet, ret: Option<RawReturning>, resource: ResourceDescriptor) -> bool {
    match ret {
        None => set.members().len() == 0,
        Some(r) => names_columns(set, r.columns@, resource),
    }
}

fn activate_returning_list(raw: &Option<RawReturning>, resource: &ResourceDescriptor) -> (r: Result<
    ColumnSet,
    PolicyError,
>)
    requires
        resource.wf(),
    ensures
        match r {
            Ok(set) => returning_list_error(*raw, *resource) is None && returns_columns(set, *raw, *resource),
            Err(e) => returning_list_error(*raw, *resource) == Some(e),
        },
{
    activate_returning(raw, resource)
}

/// The writable columns and presets of a mutation policy.
fn activate_writes(
    names: &Vec<String>,
    presets: &TextMap<YamlValue>,
    resource: &ResourceDescriptor,
) -> (r: Result<(ColumnSet, Vec<Preset>), PolicyError>)
    requires
        resource.wf(),
    ensures
        match r {
            Ok((set, list)) => column_list_error(names@, *resource) is None && presets_error(
                presets.entries(),
                seen_columns(names@, *resource),
                *resource,
            ) is None && names_columns(set, names@, *resource) && presets_from(
                list@,
                presets.entries(),
                *resource,
            ),
            Err(e) => match column_list_error(names@, *resource) {
                Some(f) => e == f,
                None => presets_error(presets.entries(), seen_columns(names@, *resource), *resource)
                    == Some(e),
            },
        },
{
    let columns = match activate_columns(names, resource) {
        Ok(set) => set,
        Err(e) => return Err(e),
    };
    proof {
        assert forall|x: ColumnId| #[trigger] columns.has(x) == seen_columns(names@, *resource).contains(x) by {
            lemma_seen_columns(names@, *resource, x);
        }
    }
    match activate_presets(presets, &columns, resource, Ghost(seen_columns(names@, *resource))) {
        Ok(list) => Ok((columns, list)),
        Err(e) => Err(e),
    }
}

/// The refusal of an `insert` policy activated with identity `policy_id`.
pub open spec fn insert_error(raw: RawInsert, resource: ResourceDescriptor, policy_id: u64) -> Option<
    PolicyError,
> {
    match column_list_error(raw.columns@, resource) {
        Some(e) => Some(e),
        None => match presets_error(raw.presets.entries(), seen_columns(raw.columns@, resource), resource) {
            Some(e) => Some(e),
            None => if policy_id == 0 {
                Some(PolicyError::TooManyPolicies)
            } else {
                match predicate_error(raw.check, resource) {
                    Some(e) => Some(e),
                    None => returning_list_error(raw.returning, resource),
                }
            },
        },
    }
}

/// `p` is the `insert` policy activated from `raw` with identity `policy_id`.
pub open spec fn insert_is(p: InsertPolicy, raw: RawInsert, resource: ResourceDescriptor, policy_id: u64) -> bool {
    &&& p.id@ == policy_id
    &&& names_columns(p.columns, raw.columns@, resource)
    &&& presets_from(p.presets@, raw.presets.entries(), resource)
    &&& predicate_is(p.check, raw.check, resource)
    &&& returns_columns(p.returning, raw.returning, resource)
}

/// Activates an `insert` policy with identity `policy_id`.
pub fn activate_insert(raw: &RawInsert, resource: &ResourceDescriptor, policy_id: u64) -> (r: Result<
    InsertPolicy,
    PolicyError,
>)
    requires
        resource.wf(),
    ensures
        match r {
            Ok(p) => insert_error(*raw, *resource, policy_id) is None && insert_is(p, *raw, *resource, policy_id),
            Err(e) => insert_error(*raw, *resource, policy_id) == Some(e),
        },
{
    let (columns, presets) = match activate_writes(&raw.columns, &raw.presets, resource) {
        Ok(w) => w,
        Err(e) => return Err(e),
    };
    let id = match PolicyId::new(policy_id) {
        Ok(id) => id,
        Err(_) => return Err(PolicyError::TooManyPolicies),
    };
    let check = match parse_predicate(&raw.check, resource) {
        Ok(p) => p,
        Err(e) => return Err(e),
    };
    let returning = match activate_returning_list(&raw.returning, resource) {
        Ok(set) => set,
        Err(e) => return Err(e),
    };
    Ok(InsertPolicy { id, columns, presets, check, returning })
}

/// The refusal of an `update` policy activated with identity `policy_id`.
pub open spec fn update_error(raw: RawUpdate, resource: ResourceDescriptor, policy_id: u64) -> Option<
    PolicyError,
> {
    match column_list_error(raw.columns@, resource) {
        Some(e) => Some(e),
        None => match presets_error(raw.presets.entries(), seen_columns(raw.columns@, resource), resource) {
            Some(e) => Some(e),
            None => if policy_id == 0 {
                Some(PolicyError::TooManyPolicies)
            } else {
                match predicate_error(raw.filter, resource) {
                    Some(e) => Some(e),
                    None => match predicate_error(raw.check, resource) {
                        Some(e) => Some(e),
                        None => returning_list_error(raw.returning, resource),
                    },
                }
            },
        },
    }
}

/// `p` is the `update` policy activated from `raw` with identity `policy_id`.
pub open spec fn update_is(p: UpdatePolicy, raw: RawUpdate, resource: ResourceDescriptor, policy_id: u64) -> bool {
    &&& p.id@ == policy_id
    &&& names_columns(p.columns, raw.columns@, resource)
    &&& presets_from(p.presets@, raw.presets.entries(), resource)
    &&& predicate_is(p.filter, raw.filter, resource)
    &&& predicate_is(p.check, raw.check, resource)
    &&& returns_columns(p.returning, raw.returning, resource)
}

/// Activates an `update` policy with identity `policy_id`.
pub fn activate_update(raw: &RawUpdate, resource: &ResourceDescriptor, policy_id: u64) -> (r: Result<
    UpdatePolicy,
    PolicyError,
>)
    requires
        resource.wf(),
    ensures
        match r {
            Ok(p) => update_error(*raw, *resource, policy_id) is None && update_is(p, *raw, *resource, policy_id),
            Err(e) => update_error(*raw, *resource, policy_id) == Some(e),
        },
{
    let (columns, presets) = match activate_writes(&raw.columns, &raw.presets, resource) {
        Ok(w) => w,
        Err(e) => return Err(e),
    };
    let id = match PolicyId::new(policy_id) {
        Ok(id) => id,
        Err(_) => return Err(PolicyError::TooManyPolicies),
    };
    let filter = match parse_predicate(&raw.filter, resource) {
        Ok(p) => p,
        Err(e) => return Err(e),
    };
    let check = match parse_predicate(&raw.check, resource) {
        Ok(p) => p,
        Err(e) => return Err(e),
    };
    let returning = match activate_returning_list(&raw.returning, resource) {
        Ok(set) => set,
        Err(e) => return Err(e),
    };
    Ok(UpdatePolicy { id, columns, presets, filter, check, returning })
}

/// The refusal of a `delete` policy activated with identity `policy_id`.
pub open spec fn delete_error(raw: RawDelete, resource: ResourceDescriptor, policy_id: u64) -> Option<
    PolicyError,
> {
    if policy_id == 0 {
        Some(PolicyError::TooManyPolicies)
    } else {
        match predicate_error(raw.filter, resource) {
            Some(e) => Some(e),
            None => returning_list_error(raw.returning, resource),
        }
    }
}

/// `p` is the `delete` policy activated from `raw` with identity `policy_id`.
pub open spec fn delete_is(p: DeletePolicy, raw: RawDelete, resource: ResourceDescriptor, policy_id: u64) -> bool {
    &&& p.id@ == policy_id
    &&& predicate_is(p.filter, raw.filter, resource)
    &&& returns_columns(p.returning, raw.returning, resource)
}

/// Activates a `delete` policy with identity `policy_id`.
pub fn activate_delete(raw: &RawDelete, resource: &ResourceDescriptor, policy_id: u64) -> (r: Result<
    DeletePolicy,
    PolicyError,
>)
    requires
        resource.wf(),
    ensures
        match r {
            Ok(p) => delete_error(*raw, *resource, policy_id) is None && delete_is(p, *raw, *resource, policy_id),
            Err(e) => delete_error(*raw, *resource, policy_id) == Some(e),
        },
{
    let id = match PolicyId::new(policy_id) {
        Ok(id) => id,
        Err(_) => return Err(PolicyError::TooManyPolicies),
    };
    let filter = match parse_predicate(&raw.filter, resource) {
        Ok(p) => p,
        Err(e) => return Err(e),
    };
    let returning = match activate_returning_list(&raw.returning, resource) {
        Ok(set) => set,
        Err(e) => return Err(e),
    };
    Ok(DeletePolicy { id, filter, returning })
}
} // verus!
