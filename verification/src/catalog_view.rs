//! The Catalog as one role sees it: the resources it may read, the columns
//! it may read from each and how, and the columns it may write and get back.
use vstd::prelude::*;
use crate::activation::{DeletePolicy, InsertPolicy, SelectPolicy, UpdatePolicy};
use crate::bundle::{PolicyBundle, conditional_ids, policies_for};
use crate::catalog::{Catalog, ColumnDescriptor, ResourceDescriptor};
use crate::id_sets::ColumnSet;
use crate::identity::{ColumnId, ResourceId, RoleName};

verus! {

/// A readable column: its identity, and whether it reads as null where its
/// condition does not hold.
#[derive(Clone, Copy, Debug, PartialEq, Eq, Structural)]
pub struct ColumnView {
    pub id: ColumnId,
    pub nullable_on_denied: bool,
}

/// What the role may read from a resource.
#[derive(Debug)]
pub struct SelectView {
    pub columns: Vec<ColumnView>,
    pub allow_aggregations: bool,
    pub allow_windows: bool,
    pub max_rows: u64,
}

/// What the role may write to a resource and get back.
#[derive(Debug)]
pub struct MutationView {
    pub columns: Vec<ColumnId>,
    pub returning: Vec<ColumnId>,
}

/// A resource as the role sees it.
#[derive(Debug)]
pub struct ResourceView {
    pub id: ResourceId,
    pub select: SelectView,
    pub insert: Option<MutationView>,
    pub update: Option<MutationView>,
    pub delete: Option<MutationView>,
}

pub open spec fn select_policy_of(b: PolicyBundle, r: ResourceId, role: Seq<char>) -> Option<SelectPolicy> {
    match policies_for(b.entries(), r) {
        Some(e) => e.select.spec_get(role),
        None => None,
    }
}

pub open spec fn insert_policy_of(b: PolicyBundle, r: ResourceId, role: Seq<char>) -> Option<InsertPolicy> {
    match policies_for(b.entries(), r) {
        Some(e) => e.insert.spec_get(role),
        None => None,
    }
}

pub open spec fn update_policy_of(b: PolicyBundle, r: ResourceId, role: Seq<char>) -> Option<UpdatePolicy> {
    match policies_for(b.entries(), r) {
        Some(e) => e.update.spec_get(role),
        None => None,
    }
}

pub open spec fn delete_policy_of(b: PolicyBundle, r: ResourceId, role: Seq<char>) -> Option<DeletePolicy> {
    match policies_for(b.entries(), r) {
        Some(e) => e.delete.spec_get(role),
        None => None,
    }
}

/// The readable columns of `es` under select policy `p`, in listing order:
/// those it shows as they are or under a condition.
pub open spec fn shown_columns(es: Seq<(Seq<char>, ColumnDescriptor)>, p: SelectPolicy) -> Seq<ColumnView>
    decreases es.len(),
{
    if es.len() == 0 {
        seq![]
    } else {
        let c = es.last().1;
        let conditional = conditional_ids(p.conditional_columns@).contains(c.id);
        shown_columns(es.drop_last(), p) + if p.regular_columns.has(c.id) || conditional {
            seq![ColumnView { id: c.id, nullable_on_denied: conditional }]
        } else {
            seq![]
        }
    }
}

/// The identities of `ids` that name a column of resource `d`, in the order
/// given.
pub open spec fn present_ids(ids: Seq<ColumnId>, d: ResourceDescriptor) -> Seq<ColumnId>
    decreases ids.len(),
{
    if ids.len() == 0 {
        seq![]
    } else {
        present_ids(ids.drop_last(), d) + if ids.last().resource_spec() == d.id_spec() && exists|j: int|
            0 <= j < d.column_entries().len() && (#[trigger] d.column_entries()[j]).1.id == ids.last() {
            seq![ids.last()]
        } else {
            seq![]
        }
    }
}

/// The identities of the columns of `es` that `set` holds, in listing order.
pub open spec fn returned_ids(es: Seq<(Seq<char>, ColumnDescriptor)>, set: Seq<ColumnId>) -> Seq<ColumnId>
    decreases es.len(),
{
    if es.len() == 0 {
        seq![]
    } else {
        returned_ids(es.drop_last(), set) + if set.contains(es.last().1.id) {
            seq![es.last().1.id]
        } else {
            seq![]
        }
    }
}

/// `v` is what the role may write to `d` and get back under a policy with
/// writable `columns` and `returning` columns; none without a policy.
pub open spec fn mutation_is(
    v: Option<MutationView>,
    d: ResourceDescriptor,
    policy: Option<(Seq<ColumnId>, Seq<ColumnId>)>,
) -> bool {
    match policy {
        None => v is None,
        Some(p) => match v {
            Some(m) => m.columns@ == present_ids(p.0, d) && m.returning@ == returned_ids(
                d.column_entries(),
                p.1,
            ),
            None => false,
        },
    }
}

/// `v` is resource `d` as `role` sees it under bundle `b`, where the role
/// may read `d` and reads at most `default_max_rows` rows where the policy
/// sets no cap.
pub open spec fn view_is(v: ResourceView, d: ResourceDescriptor, b: PolicyBundle, role: Seq<char>, default_max_rows: u64) -> bool {
    let sp = select_policy_of(b, d.id_spec(), role)->Some_0;
    &&& v.id == d.id_spec()
    &&& v.select.columns@ == shown_columns(d.column_entries(), sp)
    &&& v.select.allow_aggregations == sp.allow_aggregations
    &&& v.select.allow_windows == sp.allow_windows
    &&& v.select.max_rows == match sp.limit {
        Some(n) => n,
        None => default_max_rows,
    }
    &&& mutation_is(
        v.insert,
        d,
        match insert_policy_of(b, d.id_spec(), role) {
            Some(p) => Some((p.columns.members(), p.returning.members())),
            None => None,
        },
    )
    &&& mutation_is(
        v.update,
        d,
        match update_policy_of(b, d.id_spec(), role) {
            Some(p) => Some((p.columns.members(), p.returning.members())),
            None => None,
        },
    )
    &&& mutation_is(
        v.delete,
        d,
        match delete_policy_of(b, d.id_spec(), role) {
            Some(p) => Some((Seq::<ColumnId>::empty(), p.returning.members())),
            None => None,
        },
    )
}

/// The resources of `es` that `role` may read under `b`, in listing order.
pub open spec fn readable_resources(es: Seq<(Seq<char>, ResourceDescriptor)>, b: PolicyBundle, role: Seq<char>) -> Seq<
    ResourceDescriptor,
>
    decreases es.len(),
{
    if es.len() == 0 {
        seq![]
    } else {
        readable_resources(es.drop_last(), b, role) + if select_policy_of(b, es.last().1.id_spec(), role) is Some {
            seq![es.last().1]
        } else {
            seq![]
        }
    }
}

fn readable_columns(resource: &ResourceDescriptor, regular: &ColumnSet, conditional: &ColumnSet, Ghost(p): Ghost<SelectPolicy>) -> (r: Vec<ColumnView>)
    requires
        regular.members() == p.regular_columns.members(),
        forall|x: ColumnId| #[trigger] conditional.has(x) == conditional_ids(p.conditional_columns@).contains(x),
    ensures
        r@ == shown_columns(resource.column_entries(), p),
{
    let columns = resource.columns();
    let ghost es = resource.column_entries();
    let mut out: Vec<ColumnView> = Vec::new();
    let mut i: usize = 0;
    assert(es.take(0) =~= Seq::<(Seq<char>, ColumnDescriptor)>::empty());
    while i < columns.len()
        invariant
            columns@.len() == es.len(),
            forall|j: int| 0 <= j < columns@.len() ==> *#[trigger] columns@[j] == es[j].1,
            regular.members() == p.regular_columns.members(),
            forall|x: ColumnId| #[trigger] conditional.has(x) == conditional_ids(p.conditional_columns@).contains(x),
            i <= es.len(),
            out@ == shown_columns(es.take(i as int), p),
        decreases columns.len() - i,
    {
        let c = columns[i];
        proof {
            assert(es.take(i + 1).drop_last() =~= es.take(i as int));
            assert(es.take(i + 1).last() == es[i as int]);
        }
        let is_conditional = conditional.contains(c.id);
        if regular.contains(c.id) || is_conditional {
            out.push(ColumnView { id: c.id, nullable_on_denied: is_conditional });
        }
        proof {
            assert(out@ =~= shown_columns(es.take(i + 1), p));
        }
        i = i + 1;
    }
    assert(es.take(es.len() as int) =~= es);
    out
}

fn present_columns(resource: &ResourceDescriptor, ids: &ColumnSet) -> (r: Vec<ColumnId>)
    ensures
        r@ == present_ids(ids.members(), *resource),
{
    let ghost ms = ids.members();
    let mut out: Vec<ColumnId> = Vec::new();
    let mut i: usize = 0;
    let n = ids.len();
    assert(ms.take(0) =~= Seq::<ColumnId>::empty());
    while i < n
        invariant
            ms == ids.members(),
            n == ms.len(),
            i <= ms.len(),
            out@ == present_ids(ms.take(i as int), *resource),
        decreases n - i,
    {
        let id = ids.at(i);
        proof {
            assert(ms.take(i + 1).drop_last() =~= ms.take(i as int));
            assert(ms.take(i + 1).last() == id);
        }
        let found = resource.column_by_id(id);
        if found.is_some() {
            out.push(id);
        }
        i = i + 1;
    }
    assert(ms.take(ms.len() as int) =~= ms);
    out
}

fn returned_columns(resource: &ResourceDescriptor, set: &ColumnSet) -> (r: Vec<ColumnId>)
    ensures
        r@ == returned_ids(resource.column_entries(), set.members()),
{
    let columns = resource.columns();
    let ghost es = resource.column_entries();
    let mut out: Vec<ColumnId> = Vec::new();
    let mut i: usize = 0;
    assert(es.take(0) =~= Seq::<(Seq<char>, ColumnDescriptor)>::empty());
    while i < columns.len()
        invariant
            columns@.len() == es.len(),
            forall|j: int| 0 <= j < columns@.len() ==> *#[trigger] columns@[j] == es[j].1,
            i <= es.len(),
            out@ == returned_ids(es.take(i as int), set.members()),
        decreases columns.len() - i,
    {
        let c = columns[i];
        proof {
            assert(es.take(i + 1).drop_last() =~= es.take(i as int));
            assert(es.take(i + 1).last() == es[i as int]);
        }
        if set.contains(c.id) {
            out.push(c.id);
        }
        proof {
            assert(out@ =~= returned_ids(es.take(i + 1), set.members()));
        }
        i = i + 1;
    }
    assert(es.take(es.len() as int) =~= es);
    out
}

/// The Catalog as `role` sees it under `policies`: every resource it may
/// read, in Catalog order, with the columns it may read (and which of them
/// read as null where their condition fails), its aggregation and window
/// permissions, its row cap (`default_max_rows` where the policy sets
/// none), and the columns it may insert, update and get back.
pub fn catalog_view(catalog: &Catalog, policies: &PolicyBundle, role: &RoleName, default_max_rows: u64) -> (r: Vec<
    ResourceView,
>)
    ensures
        r@.len() == readable_resources(catalog.resource_entries(), *policies, role@).len(),
        forall|k: int|
            0 <= k < r@.len() ==> view_is(
                #[trigger] r@[k],
                readable_resources(catalog.resource_entries(), *policies, role@)[k],
                *policies,
                role@,
                default_max_rows,
            ),
{
    let resources = catalog.resources();
    let ghost es = catalog.resource_entries();
    let mut out: Vec<ResourceView> = Vec::new();
    let mut i: usize = 0;
    assert(es.take(0) =~= Seq::<(Seq<char>, ResourceDescriptor)>::empty());
    while i < resources.len()
        invariant
            resources@.len() == es.len(),
            es == catalog.resource_entries(),
            forall|j: int| 0 <= j < resources@.len() ==> *#[trigger] resources@[j] == es[j].1,
            i <= es.len(),
            out@.len() == readable_resources(es.take(i as int), *policies, role@).len(),
            forall|k: int|
                0 <= k < out@.len() ==> view_is(
                    #[trigger] out@[k],
                    readable_resources(es.take(i as int), *policies, role@)[k],
                    *policies,
                    role@,
                    default_max_rows,
                ),
        decreases resources.len() - i,
    {
        let d = resources[i];
        let ghost before = readable_resources(es.take(i as int), *policies, role@);
        proof {
            assert(es.take(i + 1).drop_last() =~= es.take(i as int));
            assert(es.take(i + 1).last() == es[i as int]);
        }
        match policies.select_access(d.id(), role) {
            None => {
                assert(readable_resources(es.take(i + 1), *policies, role@) =~= before);
            },
            Some(access) => {
                let ghost sp = select_policy_of(*policies, d.id_spec(), role@)->Some_0;
                let columns = readable_columns(d, &access.regular_columns, &access.conditional_columns, Ghost(sp));
                let max_rows = match access.max_rows {
                    Some(n) => n,
                    None => default_max_rows,
                };
                let insert = match policies.insert_access(d.id(), role) {
                    Some(m) => Some(
                        MutationView { columns: present_columns(d, &m.columns), returning: returned_columns(d, &m.returning) },
                    ),
                    None => None,
                };
                let update = match policies.update_access(d.id(), role) {
                    Some(m) => Some(
                        MutationView { columns: present_columns(d, &m.columns), returning: returned_columns(d, &m.returning) },
                    ),
                    None => None,
                };
                let delete = match policies.delete_access(d.id(), role) {
                    Some(m) => Some(MutationView { columns: Vec::new(), returning: returned_columns(d, &m.returning) }),
                    None => None,
                };
                let view = ResourceView {
                    id: d.id(),
                    select: SelectView {
                        columns,
                        allow_aggregations: access.allow_aggregations,
                        allow_windows: access.allow_windows,
                        max_rows,
                    },
                    insert,
                    update,
                    delete,
                };
                proof {
                    assert(readable_resources(es.take(i + 1), *policies, role@) =~= before.push(*d));
                }
                out.push(view);
            },
        }
        i = i + 1;
    }
    assert(es.take(es.len() as int) =~= es);
    out
}

} // verus!
