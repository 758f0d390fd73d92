//! Policy activation: what an activated bundle exposes per role, the commit
//! checks it declares, and the refusals met while activating or applying it.
use vstd::prelude::*;
use crate::catalog::{Catalog, ColumnDescriptor, ResourceDescriptor, catalog_key};
use crate::id_sets::{ColumnSet, ResourceSet};
use crate::identity::{
    ColumnId, OperationKind, PolicyId, ResourceId, RoleName, is_canonical_key,
};
use crate::ir::{BoundColumn, ColumnUsage};
use crate::text::{owned, text_chars};
use crate::text_map::TextMap;

verus! {

/// At most this many commit checks per bundle.
pub const MAX_COMMIT_CHECKS: usize = 4;

/// A commit check's hook must answer within this many milliseconds.
pub const MAX_COMMIT_CHECK_TIMEOUT_MS: u64 = 1500;

/// Why a bundle is refused or a statement fails its policy.
#[derive(Clone, Debug, PartialEq, Eq)]
pub enum PolicyError {
    InvalidBundle,
    InvalidRole,
    UnknownResource,
    UnknownColumn,
    UnknownOperator,
    InvalidPredicate,
    IncompatibleOperand,
    NullComparison,
    UnsupportedCapability,
    UnsupportedRedaction,
    DuplicateColumnPermission,
    PresetColumnOverlap,
    DuplicatePolicy,
    TooManyPolicies,
    MissingPolicy,
    ForbiddenColumn,
    ForbiddenColumnContext,
    MissingSessionValue,
    InvalidSessionKey,
    InvariantViolation(String),
}

/// Read-only, role-scoped policy information used to construct the public
/// Catalog.
#[derive(Clone, Debug)]
pub struct SelectAccess {
    pub regular_columns: ColumnSet,
    pub conditional_columns: ColumnSet,
    pub max_rows: Option<u64>,
    pub allow_aggregations: bool,
    pub allow_windows: bool,
}

/// Role-scoped activated mutation columns used by public Catalog projection.
#[derive(Clone, Debug)]
pub struct MutationAccess {
    pub columns: ColumnSet,
    pub returning: ColumnSet,
}

/// A commit check as activated: the resources whose mutation triggers it,
/// the role it applies to, and where its hook is configured.
#[derive(Clone, Debug)]
pub struct ActivatedCommitCheck {
    pub id: String,
    pub triggered_by: ResourceSet,
    pub role: Option<RoleName>,
    pub url_env: String,
    pub timeout_ms: u64,
    pub hmac_secret_env: String,
}

/// What a compiled statement touched and which policies it met.
/// `referenced_columns` holds the referenced columns grouped by resource,
/// in ascending order.
#[derive(Clone, Debug)]
pub struct Explain {
    pub operation: OperationKind,
    pub resource: Option<ResourceId>,
    pub resources: Vec<ResourceId>,
    pub referenced_columns: ColumnSet,
    pub applied_policies: Vec<PolicyId>,
    pub policy_limit: Option<u64>,
}

/// A commit check's hook as written in a bundle.
#[derive(Clone, Debug, PartialEq, Eq)]
pub struct RawCommitHook {
    pub url_env: String,
    pub timeout_ms: u64,
    pub hmac_secret_env: String,
}

/// A commit check as written in a bundle.
#[derive(Clone, Debug, PartialEq, Eq)]
pub struct RawCommitCheck {
    pub triggered_by: Vec<String>,
    pub role: Option<String>,
    pub hook: RawCommitHook,
}

/// The `returning` section of a mutation policy as written in a bundle.
#[derive(Clone, Debug, PartialEq, Eq)]
pub struct RawReturning {
    pub columns: Vec<String>,
}

pub open spec fn is_upper_letter(c: char) -> bool {
    'A' <= c && c <= 'Z'
}

pub open spec fn is_digit_char(c: char) -> bool {
    '0' <= c && c <= '9'
}

/// An environment variable name: an upper-case letter or `_`, then
/// upper-case letters, digits and `_`.
pub open spec fn is_environment_key(s: Seq<char>) -> bool {
    &&& s.len() > 0
    &&& (is_upper_letter(s[0]) || s[0] == '_')
    &&& forall|i: int|
        1 <= i < s.len() ==> is_upper_letter(#[trigger] s[i]) || is_digit_char(s[i]) || s[i]
            == '_'
}

/// Whether `value` names an environment variable.
pub fn environment_key(value: &str) -> (r: bool)
    ensures
        r == is_environment_key(value@),
{
    let chars = text_chars(value);
    if chars.len() == 0 {
        return false;
    }
    let first = chars[0];
    if !(('A' <= first && first <= 'Z') || first == '_') {
        return false;
    }
    let mut i: usize = 1;
    while i < chars.len()
        invariant
            chars@ == value@,
            1 <= i <= chars@.len(),
            forall|j: int|
                1 <= j < i ==> is_upper_letter(#[trigger] chars@[j]) || is_digit_char(chars@[j])
                    || chars@[j] == '_',
        decreases chars.len() - i,
    {
        let c = chars[i];
        if !(('A' <= c && c <= 'Z') || ('0' <= c && c <= '9') || c == '_') {
            return false;
        }
        i = i + 1;
    }
    true
}

/// Every name resolves to a Catalog resource.
pub open spec fn names_resolve(catalog: Catalog, names: Seq<String>) -> bool {
    forall|j: int| 0 <= j < names.len() ==> (#[trigger] catalog.resource_spec(
        catalog_key(names[j]@),
    )) is Some
}

/// The identity of the resource that `name` resolves to.
pub open spec fn resolved_id(catalog: Catalog, name: String) -> ResourceId {
    catalog.resource_spec(catalog_key(name@))->0.id_spec()
}

/// The refusal, if any, that commit check `id` earns.
pub open spec fn commit_check_error(catalog: Catalog, id: Seq<char>, check: RawCommitCheck) -> Option<
    PolicyError,
> {
    if !is_canonical_key(id) {
        Some(PolicyError::InvalidBundle)
    } else if check.triggered_by@.len() == 0 || check.hook.timeout_ms == 0 || check.hook.timeout_ms
        > MAX_COMMIT_CHECK_TIMEOUT_MS || !is_environment_key(check.hook.url_env@)
        || !is_environment_key(check.hook.hmac_secret_env@) {
        Some(PolicyError::InvalidBundle)
    } else if !names_resolve(catalog, check.triggered_by@) {
        Some(PolicyError::UnknownResource)
    } else if check.role matches Some(role) && !is_canonical_key(role@) {
        Some(PolicyError::InvalidRole)
    } else {
        None
    }
}

/// The refusal of the first offending commit check, in ascending id order.
pub open spec fn commit_checks_error(
    catalog: Catalog,
    entries: Seq<(Seq<char>, RawCommitCheck)>,
) -> Option<PolicyError>
    decreases entries.len(),
{
    if entries.len() == 0 {
        None
    } else {
        match commit_checks_error(catalog, entries.drop_last()) {
            Some(e) => Some(e),
            None => commit_check_error(catalog, entries.last().0, entries.last().1),
        }
    }
}

/// `a` is check `id` as activated from `check`.
pub open spec fn activates(
    a: ActivatedCommitCheck,
    catalog: Catalog,
    id: Seq<char>,
    check: RawCommitCheck,
) -> bool {
    &&& a.id@ == id
    &&& forall|r: ResourceId| #[trigger]
        a.triggered_by.has(r) == exists|j: int|
            0 <= j < check.triggered_by@.len() && resolved_id(
                catalog,
                #[trigger] check.triggered_by@[j],
            ) == r
    &&& match check.role {
        None => a.role is None,
        Some(s) => a.role matches Some(role) && role@ == s@,
    }
    &&& a.url_env@ == check.hook.url_env@
    &&& a.timeout_ms == check.hook.timeout_ms
    &&& a.hmac_secret_env@ == check.hook.hmac_secret_env@
}

proof fn lemma_first_error_stays(
    catalog: Catalog,
    entries: Seq<(Seq<char>, RawCommitCheck)>,
    i: int,
)
    requires
        0 <= i <= entries.len(),
        commit_checks_error(catalog, entries.take(i)) is Some,
    ensures
        commit_checks_error(catalog, entries) == commit_checks_error(catalog, entries.take(i)),
    decreases entries.len() - i,
{
    if i < entries.len() {
        assert(entries.take(i + 1).drop_last() =~= entries.take(i));
        lemma_first_error_stays(catalog, entries, i + 1);
    } else {
        assert(entries.take(i) =~= entries);
    }
}

/// Resolves the resources that trigger one check.
fn resolve_triggers(catalog: &Catalog, names: &Vec<String>) -> (r: Result<ResourceSet, PolicyError>)
    ensures
        match r {
            Ok(set) => names_resolve(*catalog, names@) && forall|x: ResourceId| #[trigger]
                set.has(x) == exists|j: int|
                    0 <= j < names@.len() && resolved_id(*catalog, #[trigger] names@[j]) == x,
            Err(e) => !names_resolve(*catalog, names@) && e == PolicyError::UnknownResource,
        },
{
    let mut set = ResourceSet::new();
    let mut j: usize = 0;
    while j < names.len()
        invariant
            j <= names@.len(),
            names_resolve(*catalog, names@.take(j as int)),
            forall|x: ResourceId| #[trigger]
                set.has(x) == exists|k: int|
                    0 <= k < j && resolved_id(*catalog, #[trigger] names@[k]) == x,
        decreases names.len() - j,
    {
        match catalog.resource(names[j].as_str()) {
            None => {
                proof {
                    assert(catalog.resource_spec(catalog_key(names@[j as int]@)) is None);
                }
                return Err(PolicyError::UnknownResource);
            },
            Some(resource) => {
                let ghost before = set;
                set.insert(resource.id());
                proof {
                    assert(resolved_id(*catalog, names@[j as int]) == resource.id_spec());
                    assert forall|x: ResourceId| #[trigger] set.has(x) == exists|k: int|
                        0 <= k < j + 1 && resolved_id(*catalog, #[trigger] names@[k]) == x by {
                        if exists|k: int| 0 <= k < j + 1 && resolved_id(*catalog, #[trigger] names@[k]) == x {
                            let k = choose|k: int| 0 <= k < j + 1 && resolved_id(*catalog, #[trigger] names@[k]) == x;
                            if k < j {
                                assert(before.has(x));
                            }
                        }
                    }
                    assert forall|k: int| 0 <= k < j + 1 implies (#[trigger] catalog.resource_spec(
                        catalog_key(names@.take(j + 1)[k]@),
                    )) is Some by {
                        if k < j {
                            assert(names@.take(j + 1)[k] == names@.take(j as int)[k]);
                        }
                    }
                }
            },
        }
        j = j + 1;
    }
    assert(names@.take(j as int) =~= names@);
    Ok(set)
}

/// Activates one commit check.
fn activate_commit_check(catalog: &Catalog, id: &str, check: &RawCommitCheck) -> (r: Result<
    ActivatedCommitCheck,
    PolicyError,
>)
    ensures
        match r {
            Ok(a) => commit_check_error(*catalog, id@, *check) is None && activates(
                a,
                *catalog,
                id@,
                *check,
            ),
            Err(e) => commit_check_error(*catalog, id@, *check) == Some(e),
        },
{
    if RoleName::new(id).is_err() {
        return Err(PolicyError::InvalidBundle);
    }
    if check.triggered_by.len() == 0 || check.hook.timeout_ms == 0 || check.hook.timeout_ms
        > MAX_COMMIT_CHECK_TIMEOUT_MS || !environment_key(check.hook.url_env.as_str())
        || !environment_key(check.hook.hmac_secret_env.as_str()) {
        return Err(PolicyError::InvalidBundle);
    }
    let triggered_by = match resolve_triggers(catalog, &check.triggered_by) {
        Ok(set) => set,
        Err(e) => return Err(e),
    };
    let role = match &check.role {
        None => None,
        Some(name) => match RoleName::new(name.as_str()) {
            Ok(role) => Some(role),
            Err(_) => return Err(PolicyError::InvalidRole),
        },
    };
    Ok(
        ActivatedCommitCheck {
            id: owned(id),
            triggered_by,
            role,
            url_env: check.hook.url_env.clone(),
            timeout_ms: check.hook.timeout_ms,
            hmac_secret_env: check.hook.hmac_secret_env.clone(),
        },
    )
}

/// Activates a bundle's commit checks, in ascending id order.
pub fn activate_commit_checks(raw: &TextMap<RawCommitCheck>, catalog: &Catalog) -> (r: Result<
    Vec<ActivatedCommitCheck>,
    PolicyError,
>)
    ensures
        raw.entries().len() > MAX_COMMIT_CHECKS ==> r == Err::<Vec<ActivatedCommitCheck>, PolicyError>(
            PolicyError::InvalidBundle,
        ),
        raw.entries().len() <= MAX_COMMIT_CHECKS ==> match r {
            Ok(v) => commit_checks_error(*catalog, raw.entries()) is None && v@.len()
                == raw.entries().len() && forall|i: int|
                0 <= i < v@.len() ==> activates(
                    #[trigger] v@[i],
                    *catalog,
                    raw.entries()[i].0,
                    raw.entries()[i].1,
                ),
            Err(e) => commit_checks_error(*catalog, raw.entries()) == Some(e),
        },
{
    let n = raw.len();
    if n > MAX_COMMIT_CHECKS {
        return Err(PolicyError::InvalidBundle);
    }
    let ghost entries = raw.entries();
    let mut out: Vec<ActivatedCommitCheck> = Vec::new();
    let mut i: usize = 0;
    assert(entries.take(0) =~= Seq::<(Seq<char>, RawCommitCheck)>::empty());
    while i < n
        invariant
            n == entries.len(),
            n <= MAX_COMMIT_CHECKS,
            entries == raw.entries(),
            i <= n,
            out@.len() == i,
            commit_checks_error(*catalog, entries.take(i as int)) is None,
            forall|k: int|
                0 <= k < i ==> activates(#[trigger] out@[k], *catalog, entries[k].0, entries[k].1),
        decreases n - i,
    {
        let id = raw.key_at(i);
        let check = raw.value_at(i);
        assert(entries.take(i + 1).drop_last() =~= entries.take(i as int));
        match activate_commit_check(catalog, id, check) {
            Ok(a) => {
                out.push(a);
            },
            Err(e) => {
                proof {
                    lemma_first_error_stays(*catalog, entries, i + 1);
                }
                return Err(e);
            },
        }
        i = i + 1;
    }
    assert(entries.take(n as int) =~= entries);
    Ok(out)
}

/// The columns a mutation policy may return: none when the section is
/// absent; otherwise each named column once.
pub fn activate_returning(raw: &Option<RawReturning>, resource: &ResourceDescriptor) -> (r: Result<
    ColumnSet,
    PolicyError,
>)
    requires
        resource.wf(),
    ensures
        match raw {
            None => r matches Ok(set) && set.members().len() == 0,
            Some(raw) => returning_outcome(r, raw.columns@, *resource),
        },
{
    let list = match raw {
        None => return Ok(ColumnSet::new()),
        Some(list) => list,
    };
    if list.columns.len() == 0 {
        return Err(PolicyError::InvalidBundle);
    }
    let ghost names = list.columns@;
    let mut columns = ColumnSet::new();
    let mut k: usize = 0;
    while k < list.columns.len()
        invariant
            names == list.columns@,
            *raw == Some(*list),
            names.len() > 0,
            resource.wf(),
            k <= names.len(),
            returning_error(names.take(k as int), *resource) is None,
            forall|c: ColumnId| #[trigger]
                columns.has(c) == exists|j: int|
                    0 <= j < k && column_of(*resource, #[trigger] names[j]) == c,
        decreases names.len() - k,
    {
        assert(names.take(k + 1).drop_last() =~= names.take(k as int));
        assert(names.take(k + 1).last() == names[k as int]);
        match resource.column(list.columns[k].as_str()) {
            None => {
                proof {
                    lemma_returning_error_stays(names, *resource, k + 1);
                }
                return Err(PolicyError::UnknownColumn);
            },
            Some(column) => {
                let ghost before = columns;
                proof {
                    assert(column_of(*resource, names[k as int]) == column.id);
                    assert(seen_columns(names.take(k as int), *resource).contains(column.id) == before.has(column.id)) by {
                        lemma_seen_columns(names.take(k as int), *resource, column.id);
                        if before.has(column.id) {
                            let j = choose|j: int|
                                0 <= j < k && column_of(*resource, #[trigger] names[j]) == column.id;
                            assert(names.take(k as int)[j] == names[j]);
                        }
                        if seen_columns(names.take(k as int), *resource).contains(column.id) {
                            let j = choose|j: int|
                                0 <= j < k && column_of(*resource, #[trigger] names.take(k as int)[j]) == column.id;
                            assert(names.take(k as int)[j] == names[j]);
                        }
                    }
                }
                if !columns.insert(column.id) {
                    proof {
                        lemma_returning_error_stays(names, *resource, k + 1);
                    }
                    return Err(PolicyError::DuplicateColumnPermission);
                }
                proof {
                    assert forall|c: ColumnId| #[trigger] columns.has(c) == exists|j: int|
                        0 <= j < k + 1 && column_of(*resource, #[trigger] names[j]) == c by {
                        if exists|j: int| 0 <= j < k + 1 && column_of(*resource, #[trigger] names[j]) == c {
                            let j = choose|j: int|
                                0 <= j < k + 1 && column_of(*resource, #[trigger] names[j]) == c;
                            if j < k {
                                assert(before.has(c));
                            }
                        }
                    }
                }
            },
        }
        k = k + 1;
    }
    assert(names.take(k as int) =~= names);
    Ok(columns)
}

/// The column that `name` resolves to in `resource`.
pub open spec fn column_of(resource: ResourceDescriptor, name: String) -> ColumnId {
    resource.column_spec(catalog_key(name@))->0.id
}

/// The columns that `names` resolve to, in order.
pub open spec fn seen_columns(names: Seq<String>, resource: ResourceDescriptor) -> Seq<ColumnId> {
    names.map_values(|n: String| column_of(resource, n))
}

pub proof fn lemma_seen_columns(names: Seq<String>, resource: ResourceDescriptor, c: ColumnId)
    ensures
        seen_columns(names, resource).contains(c) == exists|j: int|
            0 <= j < names.len() && column_of(resource, #[trigger] names[j]) == c,
{
    if seen_columns(names, resource).contains(c) {
        let j = choose|j: int| 0 <= j < names.len() && seen_columns(names, resource)[j] == c;
        assert(column_of(resource, names[j]) == c);
    }
    if exists|j: int| 0 <= j < names.len() && column_of(resource, #[trigger] names[j]) == c {
        let j = choose|j: int| 0 <= j < names.len() && column_of(resource, #[trigger] names[j]) == c;
        assert(seen_columns(names, resource)[j] == c);
    }
}

/// The refusal of the first offending name of a `returning` list: an
/// unknown column, or one named twice.
pub open spec fn returning_error(names: Seq<String>, resource: ResourceDescriptor) -> Option<
    PolicyError,
>
    decreases names.len(),
{
    if names.len() == 0 {
        None
    } else {
        match returning_error(names.drop_last(), resource) {
            Some(e) => Some(e),
            None => if resource.column_spec(catalog_key(names.last()@)) is None {
                Some(PolicyError::UnknownColumn)
            } else if seen_columns(names.drop_last(), resource).contains(
                column_of(resource, names.last()),
            ) {
                Some(PolicyError::DuplicateColumnPermission)
            } else {
                None
            },
        }
    }
}

proof fn lemma_returning_error_stays(names: Seq<String>, resource: ResourceDescriptor, i: int)
    requires
        0 <= i <= names.len(),
        returning_error(names.take(i), resource) is Some,
    ensures
        returning_error(names, resource) == returning_error(names.take(i), resource),
    decreases names.len() - i,
{
    if i < names.len() {
        assert(names.take(i + 1).drop_last() =~= names.take(i));
        lemma_returning_error_stays(names, resource, i + 1);
    } else {
        assert(names.take(i) =~= names);
    }
}

/// What activating a present `returning` list gives.
pub open spec fn returning_outcome(
    r: Result<ColumnSet, PolicyError>,
    names: Seq<String>,
    resource: ResourceDescriptor,
) -> bool {
    if names.len() == 0 {
        r == Err::<ColumnSet, PolicyError>(PolicyError::InvalidBundle)
    } else {
        match r {
            Ok(set) => returning_error(names, resource) is None && forall|c: ColumnId| #[trigger]
                set.has(c) == exists|j: int|
                    0 <= j < names.len() && column_of(resource, #[trigger] names[j]) == c,
            Err(e) => returning_error(names, resource) == Some(e),
        }
    }
}

/// The reference to the column `name` of `resource` in the given use.
pub fn policy_column(resource: &ResourceDescriptor, name: &str, usage: ColumnUsage) -> (r: Result<
    BoundColumn,
    PolicyError,
>)
    requires
        resource.wf(),
    ensures
        match resource.column_spec(catalog_key(name@)) {
            None => r == Err::<BoundColumn, PolicyError>(PolicyError::UnknownColumn),
            Some(c) => r == Ok::<BoundColumn, PolicyError>(
                BoundColumn { id: c.id, logical_type: c.value.logical_type, usage },
            ),
        },
{
    match resource.column(name) {
        None => Err(PolicyError::UnknownColumn),
        Some(column) => Ok(bound_policy_column(column, usage)),
    }
}

/// The reference to a Catalog column in the given use.
pub fn bound_policy_column(column: &ColumnDescriptor, usage: ColumnUsage) -> (r: BoundColumn)
    ensures
        r == (BoundColumn { id: column.id, logical_type: column.value.logical_type, usage }),
{
    BoundColumn { id: column.id, logical_type: column.value.logical_type, usage }
}

/// Records that `column` is referenced.
pub fn add_column(column: ColumnId, columns: &mut ColumnSet)
    ensures
        forall|c: ColumnId| #[trigger] final(columns).has(c) == (old(columns).has(c) || c == column),
{
    columns.insert(column);
}

} // verus!
