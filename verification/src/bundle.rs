//! An activated policy bundle: per resource and role, the activated select,
//! insert, update and delete policies, each with its own identity, and the
//! bundle's commit checks. Activation fails closed on the first refusal.
use vstd::prelude::*;
use crate::activation::{
    DeletePolicy, InsertPolicy, RawDelete, RawInsert, RawRole, RawSelect, RawUpdate,
    SelectPolicy, UpdatePolicy, activate_delete, activate_insert, activate_select,
    activate_update, delete_error, delete_is, insert_error, insert_is, select_error, select_is,
    update_error, update_is,
};
use crate::catalog::{Catalog, ResourceDescriptor, catalog_key};
use crate::id_sets::ColumnSet;
use crate::identity::{ColumnId, ResourceId, RoleName, SnapshotId, is_canonical_key};
use crate::predicate::PolicyPredicate;
use crate::policy::{
    ActivatedCommitCheck, MAX_COMMIT_CHECKS, MutationAccess, PolicyError, RawCommitCheck,
    SelectAccess, activate_commit_checks, activates, commit_checks_error,
};
use crate::text::{lemma_lex_lt_irreflexive, owned};
use crate::text_map::{TextMap, keys_ascending};

verus! {

/// The roles of one resource as written in a bundle, keyed by role name.
#[derive(Debug)]
pub struct RawResource {
    pub roles: TextMap<RawRole>,
}

/// A policy bundle as written: resources keyed by name, and commit checks
/// keyed by id.
#[derive(Debug)]
pub struct RawBundle {
    pub version: u32,
    pub resources: TextMap<RawResource>,
    pub commit_checks: TextMap<RawCommitCheck>,
}

/// The outcome of activating one policy kind that may be absent: the next
/// free identity, or the refusal.
pub open spec fn step_outcome(present: bool, error: Option<PolicyError>, next: int) -> Result<
    int,
    PolicyError,
> {
    if !present {
        Ok(next)
    } else {
        match error {
            Some(e) => Err(e),
            None => if next + 1 > u64::MAX {
                Err(PolicyError::TooManyPolicies)
            } else {
                Ok(next + 1)
            },
        }
    }
}

pub open spec fn select_refusal(raw: Option<RawSelect>, resource: ResourceDescriptor, id: int) -> Option<PolicyError> {
    match raw {
        Some(s) => select_error(s, resource, id as u64),
        None => None,
    }
}

pub open spec fn insert_refusal(raw: Option<RawInsert>, resource: ResourceDescriptor, id: int) -> Option<PolicyError> {
    match raw {
        Some(s) => insert_error(s, resource, id as u64),
        None => None,
    }
}

pub open spec fn update_refusal(raw: Option<RawUpdate>, resource: ResourceDescriptor, id: int) -> Option<PolicyError> {
    match raw {
        Some(s) => update_error(s, resource, id as u64),
        None => None,
    }
}

pub open spec fn delete_refusal(raw: Option<RawDelete>, resource: ResourceDescriptor, id: int) -> Option<PolicyError> {
    match raw {
        Some(s) => delete_error(s, resource, id as u64),
        None => None,
    }
}

/// The identities a role's policies take, starting at `next`: select, then
/// insert, update and delete, each present one taking the next identity.
pub open spec fn insert_id(r: RawRole, next: int) -> int {
    next + if r.select is Some { 1int } else { 0int }
}

pub open spec fn update_id(r: RawRole, next: int) -> int {
    insert_id(r, next) + if r.insert is Some { 1int } else { 0int }
}

pub open spec fn delete_id(r: RawRole, next: int) -> int {
    update_id(r, next) + if r.update is Some { 1int } else { 0int }
}

/// Activating one role named `name` whose first identity is `next`.
pub open spec fn role_outcome(name: Seq<char>, r: RawRole, resource: ResourceDescriptor, next: int) -> Result<
    int,
    PolicyError,
> {
    if !is_canonical_key(name) {
        Err(PolicyError::InvalidRole)
    } else {
        match step_outcome(r.select is Some, select_refusal(r.select, resource, next), next) {
            Err(e) => Err(e),
            Ok(n1) => match step_outcome(r.insert is Some, insert_refusal(r.insert, resource, n1), n1) {
                Err(e) => Err(e),
                Ok(n2) => match step_outcome(r.update is Some, update_refusal(r.update, resource, n2), n2) {
                    Err(e) => Err(e),
                    Ok(n3) => step_outcome(r.delete is Some, delete_refusal(r.delete, resource, n3), n3),
                },
            },
        }
    }
}

/// Activating the roles `roles` of a resource in ascending name order, the
/// first taking identity `next`.
pub open spec fn roles_outcome(
    roles: Seq<(Seq<char>, RawRole)>,
    resource: ResourceDescriptor,
    next: int,
) -> Result<int, PolicyError>
    decreases roles.len(),
{
    if roles.len() == 0 {
        Ok(next)
    } else {
        match roles_outcome(roles.drop_last(), resource, next) {
            Err(e) => Err(e),
            Ok(n) => role_outcome(roles.last().0, roles.last().1, resource, n),
        }
    }
}

/// The resource a bundle entry names.
pub open spec fn named_resource(catalog: Catalog, name: Seq<char>) -> Option<ResourceDescriptor> {
    catalog.resource_spec(catalog_key(name))
}

/// The identities of the resources the entries name.
pub open spec fn named_ids(resources: Seq<(Seq<char>, RawResource)>, catalog: Catalog) -> Seq<ResourceId> {
    resources.map_values(|e: (Seq<char>, RawResource)| named_resource(catalog, e.0)->0.id_spec())
}

/// Activating the resources `resources` in ascending name order, the first
/// policy taking identity `next`. Two entries naming one resource (their
/// names differ in case only) are a duplicate policy.
pub open spec fn resources_outcome(
    resources: Seq<(Seq<char>, RawResource)>,
    catalog: Catalog,
    next: int,
) -> Result<int, PolicyError>
    decreases resources.len(),
{
    if resources.len() == 0 {
        Ok(next)
    } else {
        match resources_outcome(resources.drop_last(), catalog, next) {
            Err(e) => Err(e),
            Ok(n) => match named_resource(catalog, resources.last().0) {
                None => Err(PolicyError::UnknownResource),
                Some(d) => match roles_outcome(resources.last().1.roles.entries(), d, n) {
                    Err(e) => Err(e),
                    Ok(m) => if named_ids(resources.drop_last(), catalog).contains(d.id_spec()) {
                        Err(PolicyError::DuplicatePolicy)
                    } else {
                        Ok(m)
                    },
                },
            },
        }
    }
}

/// The refusal of a bundle, if any.
pub open spec fn bundle_error(raw: RawBundle, catalog: Catalog) -> Option<PolicyError> {
    if raw.version != 1 || raw.resources.entries().len() == 0 {
        Some(PolicyError::InvalidBundle)
    } else if raw.commit_checks.entries().len() > MAX_COMMIT_CHECKS {
        Some(PolicyError::InvalidBundle)
    } else {
        match commit_checks_error(catalog, raw.commit_checks.entries()) {
            Some(e) => Some(e),
            None => match resources_outcome(raw.resources.entries(), catalog, 1) {
                Err(e) => Some(e),
                Ok(_) => None,
            },
        }
    }
}

/// The policies of one resource, keyed by role name.
#[derive(Debug)]
pub struct ResourcePolicies {
    pub resource: ResourceId,
    pub select: TextMap<SelectPolicy>,
    pub insert: TextMap<InsertPolicy>,
    pub update: TextMap<UpdatePolicy>,
    pub delete: TextMap<DeletePolicy>,
}

impl ResourcePolicies {
    pub open spec fn wf(&self) -> bool {
        &&& self.select.wf()
        &&& self.insert.wf()
        &&& self.update.wf()
        &&& self.delete.wf()
    }
}

/// An immutable, activated policy bundle.
#[derive(Debug)]
pub struct PolicyBundle {
    snapshot: SnapshotId,
    resources: Vec<ResourcePolicies>,
    commit_checks: Vec<ActivatedCommitCheck>,
}

/// The entry for resource `r`: the first one with that identity.
pub open spec fn policies_for(entries: Seq<ResourcePolicies>, r: ResourceId) -> Option<ResourcePolicies>
    decreases entries.len(),
{
    if entries.len() == 0 {
        None
    } else if entries[0].resource == r {
        Some(entries[0])
    } else {
        policies_for(entries.drop_first(), r)
    }
}


/// The identity that role `j` of `roles` starts at when the first role
/// starts at `base`.
pub open spec fn role_start(roles: Seq<(Seq<char>, RawRole)>, resource: ResourceDescriptor, base: int, j: int) -> int {
    match roles_outcome(roles.take(j), resource, base) {
        Ok(n) => n,
        Err(_) => 0,
    }
}

/// `p` holds the policies that role `name`, written as `r`, activates with
/// identities starting at `start`.
pub open spec fn role_holds(
    p: ResourcePolicies,
    name: Seq<char>,
    r: RawRole,
    resource: ResourceDescriptor,
    start: int,
) -> bool {
    &&& (r.select matches Some(s) ==> (p.select.spec_get(name) matches Some(x) && select_is(
        x,
        s,
        resource,
        start as u64,
    )))
    &&& (r.insert matches Some(s) ==> (p.insert.spec_get(name) matches Some(x) && insert_is(
        x,
        s,
        resource,
        insert_id(r, start) as u64,
    )))
    &&& (r.update matches Some(s) ==> (p.update.spec_get(name) matches Some(x) && update_is(
        x,
        s,
        resource,
        update_id(r, start) as u64,
    )))
    &&& (r.delete matches Some(s) ==> (p.delete.spec_get(name) matches Some(x) && delete_is(
        x,
        s,
        resource,
        delete_id(r, start) as u64,
    )))
}

/// `p` holds exactly the policies of roles `0..upto` of `roles`.
pub open spec fn holds_roles(
    p: ResourcePolicies,
    roles: Seq<(Seq<char>, RawRole)>,
    resource: ResourceDescriptor,
    base: int,
    upto: int,
) -> bool {
    &&& p.wf()
    &&& forall|k: Seq<char>| #[trigger] p.select.has_key(k) == exists|j: int|
        0 <= j < upto && #[trigger] roles[j].0 == k && roles[j].1.select is Some
    &&& forall|k: Seq<char>| #[trigger] p.insert.has_key(k) == exists|j: int|
        0 <= j < upto && #[trigger] roles[j].0 == k && roles[j].1.insert is Some
    &&& forall|k: Seq<char>| #[trigger] p.update.has_key(k) == exists|j: int|
        0 <= j < upto && #[trigger] roles[j].0 == k && roles[j].1.update is Some
    &&& forall|k: Seq<char>| #[trigger] p.delete.has_key(k) == exists|j: int|
        0 <= j < upto && #[trigger] roles[j].0 == k && roles[j].1.delete is Some
    &&& forall|j: int|
        0 <= j < upto ==> role_holds(p, #[trigger] roles[j].0, roles[j].1, resource, role_start(roles, resource, base, j))
}

/// Activates the policies of one role into `policies`.
fn activate_role(
    name: &str,
    raw: &RawRole,
    resource: &ResourceDescriptor,
    next: u64,
    policies: &mut ResourcePolicies,
) -> (r: Result<u64, PolicyError>)
    requires
        resource.wf(),
        old(policies).wf(),
        !old(policies).select.has_key(name@),
        !old(policies).insert.has_key(name@),
        !old(policies).update.has_key(name@),
        !old(policies).delete.has_key(name@),
    ensures
        match r {
            Ok(n) => role_outcome(name@, *raw, *resource, next as int) == Ok::<int, PolicyError>(n as int),
            Err(e) => role_outcome(name@, *raw, *resource, next as int) == Err::<int, PolicyError>(e),
        },
        r is Ok ==> role_holds(*final(policies), name@, *raw, *resource, next as int),
        final(policies).wf(),
        final(policies).resource == old(policies).resource,
        forall|k: Seq<char>| k != name@ ==> #[trigger] final(policies).select.spec_get(k) == old(policies).select.spec_get(k),
        forall|k: Seq<char>| k != name@ ==> #[trigger] final(policies).insert.spec_get(k) == old(policies).insert.spec_get(k),
        forall|k: Seq<char>| k != name@ ==> #[trigger] final(policies).update.spec_get(k) == old(policies).update.spec_get(k),
        forall|k: Seq<char>| k != name@ ==> #[trigger] final(policies).delete.spec_get(k) == old(policies).delete.spec_get(k),
        forall|k: Seq<char>| #[trigger] final(policies).select.has_key(k) == (old(policies).select.has_key(k) || (k == name@ && r is Ok && raw.select is Some)),
        forall|k: Seq<char>| #[trigger] final(policies).insert.has_key(k) == (old(policies).insert.has_key(k) || (k == name@ && r is Ok && raw.insert is Some)),
        forall|k: Seq<char>| #[trigger] final(policies).update.has_key(k) == (old(policies).update.has_key(k) || (k == name@ && r is Ok && raw.update is Some)),
        forall|k: Seq<char>| #[trigger] final(policies).delete.has_key(k) == (old(policies).delete.has_key(k) || (k == name@ && r is Ok && raw.delete is Some)),
{
    if RoleName::new(name).is_err() {
        return Err(PolicyError::InvalidRole);
    }
    let mut id = next;
    let mut selected: Option<SelectPolicy> = None;
    match &raw.select {
        Some(s) => {
            let policy = match activate_select(s, resource, id) {
                Ok(p) => p,
                Err(e) => return Err(e),
            };
            if id == u64::MAX {
                return Err(PolicyError::TooManyPolicies);
            }
            id = id + 1;
            selected = Some(policy);
        },
        None => {},
    }
    let n1 = id;
    let mut inserted: Option<InsertPolicy> = None;
    match &raw.insert {
        Some(s) => {
            let policy = match activate_insert(s, resource, id) {
                Ok(p) => p,
                Err(e) => return Err(e),
            };
            if id == u64::MAX {
                return Err(PolicyError::TooManyPolicies);
            }
            id = id + 1;
            inserted = Some(policy);
        },
        None => {},
    }
    let n2 = id;
    let mut updated: Option<UpdatePolicy> = None;
    match &raw.update {
        Some(s) => {
            let policy = match activate_update(s, resource, id) {
                Ok(p) => p,
                Err(e) => return Err(e),
            };
            if id == u64::MAX {
                return Err(PolicyError::TooManyPolicies);
            }
            id = id + 1;
            updated = Some(policy);
        },
        None => {},
    }
    let n3 = id;
    let mut deleted: Option<DeletePolicy> = None;
    match &raw.delete {
        Some(s) => {
            let policy = match activate_delete(s, resource, id) {
                Ok(p) => p,
                Err(e) => return Err(e),
            };
            if id == u64::MAX {
                return Err(PolicyError::TooManyPolicies);
            }
            id = id + 1;
            deleted = Some(policy);
        },
        None => {},
    }
    assert(n1 as int == insert_id(*raw, next as int));
    assert(n2 as int == update_id(*raw, next as int));
    assert(n3 as int == delete_id(*raw, next as int));
    match selected {
        Some(p) => {
            let previous = policies.select.insert(crate::text::owned(name), p);
            if previous.is_some() {
                return Err(PolicyError::DuplicatePolicy);
            }
        },
        None => {},
    }
    match inserted {
        Some(p) => {
            let previous = policies.insert.insert(crate::text::owned(name), p);
            if previous.is_some() {
                return Err(PolicyError::DuplicatePolicy);
            }
        },
        None => {},
    }
    match updated {
        Some(p) => {
            let previous = policies.update.insert(crate::text::owned(name), p);
            if previous.is_some() {
                return Err(PolicyError::DuplicatePolicy);
            }
        },
        None => {},
    }
    match deleted {
        Some(p) => {
            let previous = policies.delete.insert(crate::text::owned(name), p);
            if previous.is_some() {
                return Err(PolicyError::DuplicatePolicy);
            }
        },
        None => {},
    }
    Ok(id)
}

/// Distinct positions of ascending entries hold distinct keys.
proof fn lemma_distinct_keys<V>(entries: Seq<(Seq<char>, V)>, a: int, b: int)
    requires
        keys_ascending(entries),
        0 <= a < b < entries.len(),
    ensures
        entries[a].0 != entries[b].0,
{
    lemma_lex_lt_irreflexive(entries[a].0);
}

proof fn lemma_roles_outcome_stays(
    roles: Seq<(Seq<char>, RawRole)>,
    resource: ResourceDescriptor,
    base: int,
    i: int,
)
    requires
        0 <= i <= roles.len(),
        roles_outcome(roles.take(i), resource, base) is Err,
    ensures
        roles_outcome(roles, resource, base) == roles_outcome(roles.take(i), resource, base),
    decreases roles.len() - i,
{
    if i < roles.len() {
        assert(roles.take(i + 1).drop_last() =~= roles.take(i));
        lemma_roles_outcome_stays(roles, resource, base, i + 1);
    } else {
        assert(roles.take(i) =~= roles);
    }
}

/// Activates the roles of one resource, the first policy taking identity
/// `next`.
fn activate_roles(roles: &TextMap<RawRole>, resource: &ResourceDescriptor, next: u64) -> (r: Result<
    (ResourcePolicies, u64),
    PolicyError,
>)
    requires
        resource.wf(),
        roles.wf(),
    ensures
        match r {
            Ok((p, n)) => roles_outcome(roles.entries(), *resource, next as int) == Ok::<int, PolicyError>(n as int)
                && holds_roles(p, roles.entries(), *resource, next as int, roles.entries().len() as int)
                && p.resource == resource.id_spec(),
            Err(e) => roles_outcome(roles.entries(), *resource, next as int) == Err::<int, PolicyError>(e),
        },
{
    let ghost entries = roles.entries();
    proof {
        roles.lemma_wf();
    }
    let mut policies = ResourcePolicies {
        resource: resource.id(),
        select: TextMap::new(),
        insert: TextMap::new(),
        update: TextMap::new(),
        delete: TextMap::new(),
    };
    let n = roles.len();
    let mut id = next;
    let mut j: usize = 0;
    assert(entries.take(0) =~= Seq::<(Seq<char>, RawRole)>::empty());
    while j < n
        invariant
            n == entries.len(),
            entries == roles.entries(),
            keys_ascending(entries),
            resource.wf(),
            j <= n,
            policies.resource == resource.id_spec(),
            roles_outcome(entries.take(j as int), *resource, next as int) == Ok::<int, PolicyError>(id as int),
            holds_roles(policies, entries, *resource, next as int, j as int),
        decreases n - j,
    {
        let name = roles.key_at(j);
        let raw = roles.value_at(j);
        let ghost before = policies;
        assert(entries.take(j + 1).drop_last() =~= entries.take(j as int));
        assert(entries.take(j + 1).last() == entries[j as int]);
        proof {
            assert forall|jj: int| 0 <= jj < j implies entries[jj].0 != name@ by {
                lemma_distinct_keys(entries, jj, j as int);
            }
            assert(role_start(entries, *resource, next as int, j as int) == id as int);
        }
        let step = activate_role(name, raw, resource, id, &mut policies);
        match step {
            Err(e) => {
                proof {
                    lemma_roles_outcome_stays(entries, *resource, next as int, j + 1);
                }
                return Err(e);
            },
            Ok(m) => {
                proof {
                    assert forall|jj: int| 0 <= jj < j + 1 implies role_holds(
                        policies,
                        #[trigger] entries[jj].0,
                        entries[jj].1,
                        *resource,
                        role_start(entries, *resource, next as int, jj),
                    ) by {
                        if jj < j {
                            assert(entries[jj].0 != name@) by {
                                lemma_distinct_keys(entries, jj, j as int);
                            }
                            assert(role_holds(before, entries[jj].0, entries[jj].1, *resource, role_start(entries, *resource, next as int, jj)));
                        }
                    }
                    assert forall|k: Seq<char>| #[trigger] policies.select.has_key(k) == exists|jj: int|
                        0 <= jj < j + 1 && #[trigger] entries[jj].0 == k && entries[jj].1.select is Some by {
                        if k == name@ && raw.select is Some {
                            assert(entries[j as int].0 == k);
                        }
                        if exists|jj: int| 0 <= jj < j + 1 && #[trigger] entries[jj].0 == k && entries[jj].1.select is Some {
                            let jj = choose|jj: int| 0 <= jj < j + 1 && #[trigger] entries[jj].0 == k && entries[jj].1.select is Some;
                            if jj < j {
                                assert(before.select.has_key(k));
                            }
                        }
                    }
                    assert forall|k: Seq<char>| #[trigger] policies.insert.has_key(k) == exists|jj: int|
                        0 <= jj < j + 1 && #[trigger] entries[jj].0 == k && entries[jj].1.insert is Some by {
                        if k == name@ && raw.insert is Some {
                            assert(entries[j as int].0 == k);
                        }
                        if exists|jj: int| 0 <= jj < j + 1 && #[trigger] entries[jj].0 == k && entries[jj].1.insert is Some {
                            let jj = choose|jj: int| 0 <= jj < j + 1 && #[trigger] entries[jj].0 == k && entries[jj].1.insert is Some;
                            if jj < j {
                                assert(before.insert.has_key(k));
                            }
                        }
                    }
                    assert forall|k: Seq<char>| #[trigger] policies.update.has_key(k) == exists|jj: int|
                        0 <= jj < j + 1 && #[trigger] entries[jj].0 == k && entries[jj].1.update is Some by {
                        if k == name@ && raw.update is Some {
                            assert(entries[j as int].0 == k);
                        }
                        if exists|jj: int| 0 <= jj < j + 1 && #[trigger] entries[jj].0 == k && entries[jj].1.update is Some {
                            let jj = choose|jj: int| 0 <= jj < j + 1 && #[trigger] entries[jj].0 == k && entries[jj].1.update is Some;
                            if jj < j {
                                assert(before.update.has_key(k));
                            }
                        }
                    }
                    assert forall|k: Seq<char>| #[trigger] policies.delete.has_key(k) == exists|jj: int|
                        0 <= jj < j + 1 && #[trigger] entries[jj].0 == k && entries[jj].1.delete is Some by {
                        if k == name@ && raw.delete is Some {
                            assert(entries[j as int].0 == k);
                        }
                        if exists|jj: int| 0 <= jj < j + 1 && #[trigger] entries[jj].0 == k && entries[jj].1.delete is Some {
                            let jj = choose|jj: int| 0 <= jj < j + 1 && #[trigger] entries[jj].0 == k && entries[jj].1.delete is Some;
                            if jj < j {
                                assert(before.delete.has_key(k));
                            }
                        }
                    }
                }
                id = m;
            },
        }
        j = j + 1;
    }
    assert(entries.take(n as int) =~= entries);
    Ok((policies, id))
}

proof fn lemma_resources_outcome_stays(
    resources: Seq<(Seq<char>, RawResource)>,
    catalog: Catalog,
    base: int,
    i: int,
)
    requires
        0 <= i <= resources.len(),
        resources_outcome(resources.take(i), catalog, base) is Err,
    ensures
        resources_outcome(resources, catalog, base) == resources_outcome(resources.take(i), catalog, base),
    decreases resources.len() - i,
{
    if i < resources.len() {
        assert(resources.take(i + 1).drop_last() =~= resources.take(i));
        lemma_resources_outcome_stays(resources, catalog, base, i + 1);
    } else {
        assert(resources.take(i) =~= resources);
    }
}

/// The identity that the first policy of resource entry `i` takes.
pub open spec fn resource_start(resources: Seq<(Seq<char>, RawResource)>, catalog: Catalog, i: int) -> int {
    match resources_outcome(resources.take(i), catalog, 1) {
        Ok(n) => n,
        Err(_) => 0,
    }
}

/// `p` holds the policies that resource entry `i` of `resources` activates.
pub open spec fn holds_resource(
    p: ResourcePolicies,
    resources: Seq<(Seq<char>, RawResource)>,
    catalog: Catalog,
    i: int,
) -> bool {
    match named_resource(catalog, resources[i].0) {
        Some(d) => p.resource == d.id_spec() && holds_roles(
            p,
            resources[i].1.roles.entries(),
            d,
            resource_start(resources, catalog, i),
            resources[i].1.roles.entries().len() as int,
        ),
        None => false,
    }
}

/// Whether some entry of `out` is for resource `id`.
fn holds_policies_for(out: &Vec<ResourcePolicies>, id: ResourceId) -> (r: bool)
    ensures
        r == exists|k: int| 0 <= k < out@.len() && (#[trigger] out@[k]).resource == id,
{
    let mut k: usize = 0;
    while k < out.len()
        invariant
            k <= out@.len(),
            forall|kk: int| 0 <= kk < k ==> (#[trigger] out@[kk]).resource != id,
        decreases out.len() - k,
    {
        if out[k].resource == id {
            return true;
        }
        k = k + 1;
    }
    false
}

impl PolicyBundle {
    #[verifier::type_invariant]
    closed spec fn entries_wf(self) -> bool {
        forall|k: int| 0 <= k < self.resources@.len() ==> (#[trigger] self.resources@[k]).wf()
    }

    /// The policies, one entry per resource named in the bundle, in
    /// ascending name order.
    pub closed spec fn entries(&self) -> Seq<ResourcePolicies> {
        self.resources@
    }

    pub closed spec fn snapshot_spec(&self) -> SnapshotId {
        self.snapshot
    }

    pub closed spec fn checks(&self) -> Seq<ActivatedCommitCheck> {
        self.commit_checks@
    }

    /// Activates one immutable policy bundle against a Catalog snapshot.
    /// Resources are activated in ascending name order and roles in
    /// ascending role order; within a role the select, insert, update and
    /// delete policies take consecutive identities from 1 on.
    pub fn activate(raw: &RawBundle, catalog: &Catalog, snapshot: SnapshotId) -> (r: Result<Self, PolicyError>)
        requires
            raw.resources.wf(),
            forall|i: int| 0 <= i < raw.resources.entries().len() ==> (#[trigger] raw.resources.entries()[i]).1.roles.wf(),
        ensures
            match r {
                Ok(b) => bundle_error(*raw, *catalog) is None && b.snapshot_spec() == snapshot
                    && b.checks().len() == raw.commit_checks.entries().len() && (forall|i: int|
                    0 <= i < b.checks().len() ==> activates(
                        #[trigger] b.checks()[i],
                        *catalog,
                        raw.commit_checks.entries()[i].0,
                        raw.commit_checks.entries()[i].1,
                    )) && b.entries().len() == raw.resources.entries().len() && (forall|i: int|
                    0 <= i < b.entries().len() ==> holds_resource(
                        #[trigger] b.entries()[i],
                        raw.resources.entries(),
                        *catalog,
                        i,
                    )) && (forall|a: int, c: int|
                    0 <= a < c < b.entries().len() ==> (#[trigger] b.entries()[a]).resource != (
                    #[trigger] b.entries()[c]).resource),
                Err(e) => bundle_error(*raw, *catalog) == Some(e),
            },
    {
        if raw.version != 1 || raw.resources.len() == 0 {
            return Err(PolicyError::InvalidBundle);
        }
        let commit_checks = match activate_commit_checks(&raw.commit_checks, catalog) {
            Ok(checks) => checks,
            Err(e) => return Err(e),
        };
        let ghost res = raw.resources.entries();
        let n = raw.resources.len();
        let mut out: Vec<ResourcePolicies> = Vec::new();
        let mut id: u64 = 1;
        let mut i: usize = 0;
        assert(res.take(0) =~= Seq::<(Seq<char>, RawResource)>::empty());
        while i < n
            invariant
                n == res.len(),
                n > 0,
                res == raw.resources.entries(),
                raw.version == 1,
                raw.commit_checks.entries().len() <= MAX_COMMIT_CHECKS,
                commit_checks_error(*catalog, raw.commit_checks.entries()) is None,
                commit_checks@.len() == raw.commit_checks.entries().len(),
                forall|c: int| 0 <= c < commit_checks@.len() ==> activates(
                    #[trigger] commit_checks@[c],
                    *catalog,
                    raw.commit_checks.entries()[c].0,
                    raw.commit_checks.entries()[c].1,
                ),
                forall|k: int| 0 <= k < res.len() ==> (#[trigger] res[k]).1.roles.wf(),
                i <= n,
                out@.len() == i,
                resources_outcome(res.take(i as int), *catalog, 1) == Ok::<int, PolicyError>(id as int),
                forall|k: int| 0 <= k < i ==> holds_resource(#[trigger] out@[k], res, *catalog, k),
                forall|a: int, c: int| 0 <= a < c < i ==> (#[trigger] out@[a]).resource != (#[trigger] out@[c]).resource,
            decreases n - i,
        {
            let name = raw.resources.key_at(i);
            let entry = raw.resources.value_at(i);
            let ghost prior = res.take(i as int);
            assert(res.take(i + 1).drop_last() =~= prior);
            assert(res.take(i + 1).last() == res[i as int]);
            let resource = match catalog.resource(name) {
                Some(d) => d,
                None => {
                    proof {
                        lemma_resources_outcome_stays(res, *catalog, 1, i + 1);
                    }
                    return Err(PolicyError::UnknownResource);
                },
            };
            assert(resource_start(res, *catalog, i as int) == id as int);
            let (policies, m) = match activate_roles(&entry.roles, resource, id) {
                Ok(step) => step,
                Err(e) => {
                    proof {
                        lemma_resources_outcome_stays(res, *catalog, 1, i + 1);
                    }
                    return Err(e);
                },
            };
            let resource_id = resource.id();
            if holds_policies_for(&out, resource_id) {
                proof {
                    let kk = choose|kk: int| 0 <= kk < out@.len() && (#[trigger] out@[kk]).resource == resource_id;
                    assert(holds_resource(out@[kk], res, *catalog, kk));
                    assert(prior[kk] == res[kk]);
                    assert(named_ids(prior, *catalog)[kk] == resource_id);
                    assert(named_ids(prior, *catalog).contains(resource_id));
                    lemma_resources_outcome_stays(res, *catalog, 1, i + 1);
                }
                return Err(PolicyError::DuplicatePolicy);
            }
            proof {
                if named_ids(prior, *catalog).contains(resource_id) {
                    let kk = choose|kk: int| 0 <= kk < named_ids(prior, *catalog).len() && named_ids(prior, *catalog)[kk] == resource_id;
                    assert(prior[kk] == res[kk]);
                    assert(holds_resource(out@[kk], res, *catalog, kk));
                    assert(out@[kk].resource == resource_id);
                }
            }
            let ghost before = out@;
            out.push(policies);
            proof {
                assert forall|kk: int| 0 <= kk < i + 1 implies holds_resource(#[trigger] out@[kk], res, *catalog, kk) by {
                    if kk < i {
                        assert(out@[kk] == before[kk]);
                    }
                }
            }
            id = m;
            i = i + 1;
        }
        assert(res.take(n as int) =~= res);
        Ok(PolicyBundle { snapshot, resources: out, commit_checks })
    }
}

/// The columns that carry a visibility predicate.
pub open spec fn conditional_ids(conditional: Seq<(ColumnId, PolicyPredicate)>) -> Seq<ColumnId> {
    conditional.map_values(|e: (ColumnId, PolicyPredicate)| e.0)
}

fn conditional_set(conditional: &Vec<(ColumnId, PolicyPredicate)>) -> (r: ColumnSet)
    ensures
        forall|x: ColumnId| #[trigger] r.has(x) == conditional_ids(conditional@).contains(x),
{
    let mut set = ColumnSet::new();
    let mut k: usize = 0;
    while k < conditional.len()
        invariant
            k <= conditional@.len(),
            forall|x: ColumnId| #[trigger] set.has(x) == conditional_ids(conditional@.take(k as int)).contains(x),
        decreases conditional.len() - k,
    {
        let ghost before = set;
        set.insert(conditional[k].0);
        proof {
            assert(conditional_ids(conditional@.take(k + 1)) =~= conditional_ids(conditional@.take(k as int)).push(conditional@[k as int].0));
            assert forall|x: ColumnId| #[trigger] set.has(x) == conditional_ids(conditional@.take(k + 1)).contains(x) by {
                vstd::seq_lib::lemma_seq_contains_after_push(conditional_ids(conditional@.take(k as int)), conditional@[k as int].0, x);
            }
        }
        k = k + 1;
    }
    assert(conditional@.take(k as int) =~= conditional@);
    set
}

impl PolicyBundle {
    /// The entry for resource `resource`.
    pub(crate) fn policies(&self, resource: ResourceId) -> (r: Option<&ResourcePolicies>)
        ensures
            match policies_for(self.entries(), resource) {
                Some(e) => r matches Some(x) && *x == e && x.wf(),
                None => r is None,
            },
    {
        proof {
            use_type_invariant(self);
        }
        let ghost all = self.resources@;
        let mut k: usize = 0;
        assert(all.skip(0) =~= all);
        while k < self.resources.len()
            invariant
                all == self.resources@,
                k <= all.len(),
                forall|kk: int| 0 <= kk < all.len() ==> (#[trigger] all[kk]).wf(),
                policies_for(all, resource) == policies_for(all.skip(k as int), resource),
            decreases self.resources.len() - k,
        {
            assert(all.skip(k as int)[0] == all[k as int]);
            assert(all.skip(k as int).drop_first() =~= all.skip(k + 1));
            if self.resources[k].resource == resource {
                return Some(&self.resources[k]);
            }
            k = k + 1;
        }
        assert(all.skip(k as int) =~= Seq::<ResourcePolicies>::empty());
        None
    }

    /// Only the already-activated SELECT surface visible to one role.
    pub fn select_access(&self, resource: ResourceId, role: &RoleName) -> (r: Option<SelectAccess>)
        ensures
            match policies_for(self.entries(), resource) {
                None => r is None,
                Some(e) => match e.select.spec_get(role@) {
                    None => r is None,
                    Some(p) => r matches Some(a) && a.regular_columns.members()
                        == p.regular_columns.members() && (forall|x: ColumnId| #[trigger]
                        a.conditional_columns.has(x) == conditional_ids(
                            p.conditional_columns@,
                        ).contains(x)) && a.max_rows == p.limit && a.allow_aggregations
                        == p.allow_aggregations && a.allow_windows == p.allow_windows,
                },
            },
    {
        let entry = match self.policies(resource) {
            Some(e) => e,
            None => return None,
        };
        match entry.select.get(role.as_str()) {
            None => None,
            Some(policy) => Some(
                SelectAccess {
                    regular_columns: policy.regular_columns.clone(),
                    conditional_columns: conditional_set(&policy.conditional_columns),
                    max_rows: policy.limit,
                    allow_aggregations: policy.allow_aggregations,
                    allow_windows: policy.allow_windows,
                },
            ),
        }
    }

    /// The columns one role may insert and return.
    pub fn insert_access(&self, resource: ResourceId, role: &RoleName) -> (r: Option<MutationAccess>)
        ensures
            match policies_for(self.entries(), resource) {
                None => r is None,
                Some(e) => match e.insert.spec_get(role@) {
                    None => r is None,
                    Some(p) => r matches Some(a) && a.columns.members() == p.columns.members()
                        && a.returning.members() == p.returning.members(),
                },
            },
    {
        let entry = match self.policies(resource) {
            Some(e) => e,
            None => return None,
        };
        match entry.insert.get(role.as_str()) {
            None => None,
            Some(policy) => Some(
                MutationAccess { columns: policy.columns.clone(), returning: policy.returning.clone() },
            ),
        }
    }

    /// The columns one role may update and return.
    pub fn update_access(&self, resource: ResourceId, role: &RoleName) -> (r: Option<MutationAccess>)
        ensures
            match policies_for(self.entries(), resource) {
                None => r is None,
                Some(e) => match e.update.spec_get(role@) {
                    None => r is None,
                    Some(p) => r matches Some(a) && a.columns.members() == p.columns.members()
                        && a.returning.members() == p.returning.members(),
                },
            },
    {
        let entry = match self.policies(resource) {
            Some(e) => e,
            None => return None,
        };
        match entry.update.get(role.as_str()) {
            None => None,
            Some(policy) => Some(
                MutationAccess { columns: policy.columns.clone(), returning: policy.returning.clone() },
            ),
        }
    }

    /// The columns one role may return from a delete; a delete writes none.
    pub fn delete_access(&self, resource: ResourceId, role: &RoleName) -> (r: Option<MutationAccess>)
        ensures
            match policies_for(self.entries(), resource) {
                None => r is None,
                Some(e) => match e.delete.spec_get(role@) {
                    None => r is None,
                    Some(p) => r matches Some(a) && a.columns.members().len() == 0
                        && a.returning.members() == p.returning.members(),
                },
            },
    {
        let entry = match self.policies(resource) {
            Some(e) => e,
            None => return None,
        };
        match entry.delete.get(role.as_str()) {
            None => None,
            Some(policy) => Some(
                MutationAccess { columns: ColumnSet::new(), returning: policy.returning.clone() },
            ),
        }
    }

    pub fn snapshot(&self) -> (r: &SnapshotId)
        ensures
            *r == self.snapshot_spec(),
    {
        &self.snapshot
    }

    pub fn commit_checks(&self) -> (r: &[ActivatedCommitCheck])
        ensures
            r@ == self.checks(),
    {
        self.commit_checks.as_slice()
    }
}
} // verus!
