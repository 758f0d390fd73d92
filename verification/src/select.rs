//! Compiling a select: the select policies of every resource it opens
//! decide which columns it may read or show, which rows it sees and how
//! many it returns.
use vstd::prelude::*;
use crate::activation::SelectPolicy;
use crate::bundle::PolicyBundle;
use crate::compile::{
    CompileOutput, and_optional, bound_exactly, joined, lemma_bound_from_empty, restricted,
    select_policy_of, single, single_explain,
};
use crate::id_sets::{ColumnSet, ResourceSet};
use crate::identity::{
    ColumnId, LogicalValue, OperationKind, PolicyId, ResourceId, RoleName, TrustedSession,
};
use crate::instantiate::{
    extends_with, instantiate_predicate, lemma_extends_chain, lemma_extends_none,
    lemma_extends_same, predicate_expr, predicate_reads, predicate_refusal,
};
use crate::ir::{
    BoundExpr, BoundJoin, BoundJsonCollectionSelect, BoundProjection, BoundSelect, BoundStatement,
    JoinKind, ProtectedPlan,
};
use crate::policy::{Explain, PolicyError};
use crate::predicate::PolicyPredicate;
use crate::protect::{
    capped, capped_limit, protect_nested_selects, protect_reads, protect_refusal, protected,
};
use crate::scan::{
    client_refusal, collect_expression_resources, column_set, expr_opens, first_refusal,
    orders_refusal, partition_refusal, referenced_columns, refused, statement_reads, validate_client_expression,
    validate_orders, validate_partition,
};
use crate::text_map::TextMap;

verus! {

/// Resource `r` is opened by select `s`: its own resource, a joined one,
/// or one that a select nested in its condition opens.
pub open spec fn select_opens(s: BoundSelect, r: ResourceId) -> bool {
    ||| r == s.resource
    ||| (exists|j: int| 0 <= j < s.joins@.len() && (#[trigger] s.joins@[j]).resource == r)
    ||| (s.predicate matches Some(p) && expr_opens(p, r))
}

/// Some resource that `s` opens has no select policy for `role`.
pub open spec fn lacks_policy(b: PolicyBundle, s: BoundSelect, role: Seq<char>) -> bool {
    exists|r: ResourceId| #[trigger] select_opens(s, r) && select_policy_of(b, r, role) is None
}

/// Column `c` is a regular column of resource `r`'s select policy.
pub open spec fn regular_in(b: PolicyBundle, r: ResourceId, role: Seq<char>, c: ColumnId) -> bool {
    match select_policy_of(b, r, role) {
        Some(p) => p.regular_columns.has(c),
        None => false,
    }
}

/// The columns that `role` may read in `s`: the regular columns of the
/// select policy of every resource it opens.
pub open spec fn readable(b: PolicyBundle, s: BoundSelect, role: Seq<char>) -> Set<ColumnId> {
    Set::new(
        |c: ColumnId|
            exists|r: ResourceId| #[trigger] select_opens(s, r) && regular_in(b, r, role, c),
    )
}

/// The smallest row cap among the select policies of `rs`.
pub open spec fn min_limit(rs: Seq<ResourceId>, b: PolicyBundle, role: Seq<char>) -> Option<u64>
    decreases rs.len(),
{
    if rs.len() == 0 {
        None
    } else {
        let acc = min_limit(rs.drop_last(), b, role);
        match select_policy_of(b, rs.last(), role) {
            Some(p) => match p.limit {
                Some(l) => match acc {
                    Some(a) => Some(if a <= l { a } else { l }),
                    None => Some(l),
                },
                None => acc,
            },
            None => acc,
        }
    }
}

/// The predicate that shows column `c` under `role`'s policy.
pub open spec fn conditional_of(cs: Seq<(ColumnId, PolicyPredicate)>, c: ColumnId) -> Option<
    PolicyPredicate,
>
    decreases cs.len(),
{
    if cs.len() == 0 {
        None
    } else if cs[0].0 == c {
        Some(cs[0].1)
    } else {
        conditional_of(cs.drop_first(), c)
    }
}

/// The predicate under which projection `e` is shown, when it is a
/// column that the role may only see conditionally.
pub open spec fn shown_if(e: BoundExpr, b: PolicyBundle, role: Seq<char>) -> Option<PolicyPredicate> {
    match e {
        BoundExpr::Column(c) => match select_policy_of(b, c.id.resource_spec(), role) {
            Some(p) => if p.regular_columns.has(c.id) {
                None
            } else {
                conditional_of(p.conditional_columns@, c.id)
            },
            None => None,
        },
        _ => None,
    }
}

/// Why projection `e` may not be shown.
pub open spec fn permission_refusal(e: BoundExpr, b: PolicyBundle, session: TrustedSession) -> Option<
    PolicyError,
> {
    match e {
        BoundExpr::Column(c) => match select_policy_of(b, c.id.resource_spec(), session.role_spec()@) {
            None => Some(PolicyError::MissingPolicy),
            Some(p) => if p.regular_columns.has(c.id) {
                None
            } else {
                match conditional_of(p.conditional_columns@, c.id) {
                    None => Some(PolicyError::ForbiddenColumn),
                    Some(pred) => predicate_refusal(pred, session),
                }
            },
        },
        BoundExpr::CountAll(_) => None,
        BoundExpr::RowNumber { .. } => None,
        BoundExpr::ScalarFunction { .. } => None,
        BoundExpr::Concat(_, _) => None,
        BoundExpr::CastText(_) => None,
        BoundExpr::Case { .. } => None,
        _ => Some(PolicyError::ForbiddenColumnContext),
    }
}

pub open spec fn permissions_refusal(ps: Seq<BoundProjection>, b: PolicyBundle, session: TrustedSession) -> Option<
    PolicyError,
>
    decreases ps.len(),
{
    if ps.len() == 0 {
        None
    } else {
        first_refusal(
            permissions_refusal(ps.drop_last(), b, session),
            permission_refusal(ps.last().expression, b, session),
        )
    }
}

/// `out` is projection `p` as the role may see it: a conditionally shown
/// column is wrapped with the instance of the predicate that shows it.
pub open spec fn permitted(out: BoundProjection, p: BoundProjection, b: PolicyBundle, role: Seq<char>) -> bool {
    &&& out.output_name == p.output_name
    &&& match shown_if(p.expression, b, role) {
        Some(pred) => match out.expression {
            BoundExpr::ConditionalOutput { value, visible_if } => *value == p.expression
                && predicate_expr(*visible_if, pred),
            _ => false,
        },
        None => out.expression == p.expression,
    }
}

/// A session key that the predicates showing the columns of `ps` read.
pub open spec fn permissions_read(ps: Seq<BoundProjection>, b: PolicyBundle, role: Seq<char>, k: Seq<char>) -> bool {
    exists|i: int| 0 <= i < ps.len() && shown_reads((#[trigger] ps[i]).expression, b, role, k)
}

/// A session key that the predicate showing `e` reads.
pub open spec fn shown_reads(e: BoundExpr, b: PolicyBundle, role: Seq<char>, k: Seq<char>) -> bool {
    match shown_if(e, b, role) {
        Some(pred) => predicate_reads(pred, k),
        None => false,
    }
}

/// Resource `r` is joined from the left in `s`.
pub open spec fn left_joined(s: BoundSelect, r: ResourceId) -> bool {
    exists|j: int|
        0 <= j < s.joins@.len() && (#[trigger] s.joins@[j]).kind == JoinKind::Left
            && s.joins@[j].resource == r
}

/// `e` is a conditionally shown column of a left-joined resource.
pub open spec fn left_shown(e: BoundExpr, s: BoundSelect, b: PolicyBundle, role: Seq<char>) -> bool {
    match e {
        BoundExpr::Column(c) => shown_if(e, b, role) is Some && left_joined(s, c.id.resource_spec()),
        _ => false,
    }
}

/// A conditionally shown column of a left-joined resource cannot be shown.
pub open spec fn left_refusal(s: BoundSelect, b: PolicyBundle, role: Seq<char>) -> Option<PolicyError> {
    if exists|i: int| 0 <= i < s.projections@.len() && left_shown((#[trigger] s.projections@[i]).expression, s, b, role) {
        Some(PolicyError::ForbiddenColumnContext)
    } else {
        None
    }
}

/// Why a projection asks for a capability that its policy withholds.
pub open spec fn capability_refusal(
    e: BoundExpr,
    b: PolicyBundle,
    role: Seq<char>,
    allowed: Set<ColumnId>,
) -> Option<PolicyError> {
    match e {
        BoundExpr::CountAll(r) => match select_policy_of(b, r, role) {
            None => Some(PolicyError::MissingPolicy),
            Some(p) => if p.allow_aggregations {
                None
            } else {
                Some(PolicyError::UnsupportedCapability)
            },
        },
        BoundExpr::RowNumber { resource, partition_by, order_by } => match select_policy_of(
            b,
            resource,
            role,
        ) {
            None => Some(PolicyError::MissingPolicy),
            Some(p) => if !p.allow_windows || partition_refusal(partition_by@, allowed) is Some
                || orders_refusal(order_by@, allowed) is Some {
                Some(PolicyError::UnsupportedCapability)
            } else {
                None
            },
        },
        BoundExpr::ScalarFunction { .. } => client_refusal(e, allowed),
        BoundExpr::Concat(_, _) => client_refusal(e, allowed),
        BoundExpr::CastText(_) => client_refusal(e, allowed),
        BoundExpr::Case { .. } => client_refusal(e, allowed),
        _ => None,
    }
}

pub open spec fn capabilities_refusal(
    ps: Seq<BoundProjection>,
    b: PolicyBundle,
    role: Seq<char>,
    allowed: Set<ColumnId>,
) -> Option<PolicyError>
    decreases ps.len(),
{
    if ps.len() == 0 {
        None
    } else {
        first_refusal(
            capabilities_refusal(ps.drop_last(), b, role, allowed),
            capability_refusal(ps.last().expression, b, role, allowed),
        )
    }
}

pub open spec fn joins_refusal(js: Seq<BoundJoin>, allowed: Set<ColumnId>) -> Option<PolicyError>
    decreases js.len(),
{
    if js.len() == 0 {
        None
    } else {
        first_refusal(joins_refusal(js.drop_last(), allowed), client_refusal(js.last().on, allowed))
    }
}

pub open spec fn optional_refusal(e: Option<BoundExpr>, allowed: Set<ColumnId>) -> Option<PolicyError> {
    match e {
        Some(x) => client_refusal(x, allowed),
        None => None,
    }
}

/// The refusal that the filter of resource `r`'s policy gives.
pub open spec fn filter_refusal(b: PolicyBundle, r: ResourceId, session: TrustedSession) -> Option<PolicyError> {
    match select_policy_of(b, r, session.role_spec()@) {
        None => Some(PolicyError::MissingPolicy),
        Some(p) => predicate_refusal(p.filter, session),
    }
}

pub open spec fn join_filters_refusal(js: Seq<BoundJoin>, b: PolicyBundle, session: TrustedSession) -> Option<
    PolicyError,
>
    decreases js.len(),
{
    if js.len() == 0 {
        None
    } else {
        first_refusal(
            join_filters_refusal(js.drop_last(), b, session),
            filter_refusal(b, js.last().resource, session),
        )
    }
}

/// Why select `s` cannot be compiled for `session`, in the order the
/// checks are made.
pub open spec fn select_refusal(b: PolicyBundle, s: BoundSelect, session: TrustedSession) -> Option<PolicyError> {
    let role = session.role_spec()@;
    let allowed = readable(b, s, role);
    if lacks_policy(b, s, role) {
        Some(PolicyError::MissingPolicy)
    } else {
        first_refusal(
            permissions_refusal(s.projections@, b, session),
            first_refusal(
                left_refusal(s, b, role),
                first_refusal(
                    optional_refusal(s.predicate, allowed),
                    first_refusal(
                        orders_refusal(s.order_by@, allowed),
                        first_refusal(
                            partition_refusal(s.group_by@, allowed),
                            first_refusal(
                                optional_refusal(s.having, allowed),
                                first_refusal(
                                    capabilities_refusal(s.projections@, b, role, allowed),
                                    first_refusal(
                                        joins_refusal(s.joins@, allowed),
                                        first_refusal(
                                            match s.predicate {
                                                Some(p) => protect_refusal(p, b, session),
                                                None => None,
                                            },
                                            first_refusal(
                                                filter_refusal(b, s.resource, session),
                                                join_filters_refusal(s.joins@, b, session),
                                            ),
                                        ),
                                    ),
                                ),
                            ),
                        ),
                    ),
                ),
            ),
        )
    }
}

/// The filter of resource `r`'s select policy for `role`.
pub open spec fn filter_of(b: PolicyBundle, r: ResourceId, role: Seq<char>) -> PolicyPredicate {
    select_policy_of(b, r, role)->0.filter
}

/// `q` is the condition of `s` after its policies, as far as the first
/// `js` of its joins go: the protected caller's condition, then the root
/// filter, then the filter of each inner join in turn.
pub open spec fn condition_after(q: BoundExpr, s: BoundSelect, js: Seq<BoundJoin>, b: PolicyBundle, role: Seq<char>) -> bool
    decreases js.len(),
{
    if js.len() == 0 {
        match s.predicate {
            Some(p) => match q {
                BoundExpr::And(l, r) => protected(*l, p, b, role) && predicate_expr(
                    *r,
                    filter_of(b, s.resource, role),
                ),
                _ => false,
            },
            None => predicate_expr(q, filter_of(b, s.resource, role)),
        }
    } else if js.last().kind == JoinKind::Inner {
        match q {
            BoundExpr::And(l, r) => condition_after(*l, s, js.drop_last(), b, role) && predicate_expr(
                *r,
                filter_of(b, js.last().resource, role),
            ),
            _ => false,
        }
    } else {
        condition_after(q, s, js.drop_last(), b, role)
    }
}

/// `t` is join `j` after its policy: a left join's own condition takes
/// its resource's filter, an inner join is left as it is.
pub open spec fn join_after(t: BoundJoin, j: BoundJoin, b: PolicyBundle, role: Seq<char>) -> bool {
    &&& t.resource == j.resource
    &&& t.alias == j.alias
    &&& t.kind == j.kind
    &&& if j.kind == JoinKind::Inner {
        t.on == j.on
    } else {
        match t.on {
            BoundExpr::And(l, r) => *l == j.on && predicate_expr(*r, filter_of(b, j.resource, role)),
            _ => false,
        }
    }
}

/// A session key that the filters applied to `s` read.
pub open spec fn select_reads(s: BoundSelect, b: PolicyBundle, role: Seq<char>, k: Seq<char>) -> bool {
    ||| permissions_read(s.projections@, b, role, k)
    ||| (s.predicate matches Some(p) && protect_reads(p, b, role, k))
    ||| predicate_reads(filter_of(b, s.resource, role), k)
    ||| (exists|j: int|
        0 <= j < s.joins@.len() && predicate_reads(filter_of(b, (#[trigger] s.joins@[j]).resource, role), k))
}

/// `t` is select `s` with the select policies of `role` applied.
pub open spec fn select_compiled(t: BoundSelect, s: BoundSelect, b: PolicyBundle, role: Seq<char>, cap: Option<u64>) -> bool {
    &&& t.resource == s.resource
    &&& t.alias == s.alias
    &&& t.group_by == s.group_by
    &&& t.having == s.having
    &&& t.order_by == s.order_by
    &&& t.offset == s.offset
    &&& t.projections@.len() == s.projections@.len()
    &&& forall|i: int|
        0 <= i < s.projections@.len() ==> permitted(
            #[trigger] t.projections@[i],
            s.projections@[i],
            b,
            role,
        )
    &&& t.joins@.len() == s.joins@.len()
    &&& forall|i: int| 0 <= i < s.joins@.len() ==> join_after(#[trigger] t.joins@[i], s.joins@[i], b, role)
    &&& t.predicate matches Some(q) && condition_after(q, s, s.joins@, b, role)
    &&& t.limit == capped(s.limit, cap)
}

/// The resources that select `select` opens, in ascending order.
fn select_resources(select: &BoundSelect) -> (r: ResourceSet)
    ensures
        forall|x: ResourceId| #[trigger] r.has(x) == select_opens(*select, x),
{
    let mut resources = ResourceSet::new();
    resources.insert(select.resource);
    let mut j: usize = 0;
    while j < select.joins.len()
        invariant
            j <= select.joins@.len(),
            forall|x: ResourceId| #[trigger]
                resources.has(x) == (x == select.resource || exists|i: int|
                    0 <= i < j && (#[trigger] select.joins@[i]).resource == x),
        decreases select.joins.len() - j,
    {
        resources.insert(select.joins[j].resource);
        proof {
            assert forall|x: ResourceId| #[trigger] resources.has(x) == (x == select.resource || exists|i: int|
                0 <= i < j + 1 && (#[trigger] select.joins@[i]).resource == x) by {
                if x == select.joins@[j as int].resource {
                    assert(select.joins@[j as int].resource == x);
                }
            }
        }
        j = j + 1;
    }
    match &select.predicate {
        Some(p) => collect_expression_resources(p, &mut resources),
        None => {},
    }
    resources
}

/// The conditional predicate of column `c`, the first entry for it.
fn conditional_predicate(cs: &Vec<(ColumnId, PolicyPredicate)>, c: ColumnId) -> (r: Option<&PolicyPredicate>)
    ensures
        match conditional_of(cs@, c) {
            Some(p) => r matches Some(x) && *x == p,
            None => r is None,
        },
{
    let ghost all = cs@;
    let mut i: usize = 0;
    assert(all.skip(0) =~= all);
    while i < cs.len()
        invariant
            all == cs@,
            i <= all.len(),
            conditional_of(all, c) == conditional_of(all.skip(i as int), c),
        decreases cs.len() - i,
    {
        assert(all.skip(i as int)[0] == all[i as int]);
        assert(all.skip(i as int).drop_first() =~= all.skip(i + 1));
        if cs[i].0 == c {
            return Some(&cs[i].1);
        }
        i = i + 1;
    }
    assert(all.skip(i as int) =~= Seq::<(ColumnId, PolicyPredicate)>::empty());
    None
}

impl PolicyBundle {
    /// The select policy of `role` on resource `r`.
    fn select_policy(&self, r: ResourceId, role: &RoleName) -> (p: Option<&SelectPolicy>)
        ensures
            match select_policy_of(*self, r, role@) {
                Some(x) => p matches Some(y) && *y == x,
                None => p is None,
            },
    {
        match self.policies(r) {
            Some(entry) => entry.select.get(role.as_str()),
            None => None,
        }
    }

    /// The readable columns, policy identities and smallest row cap of the
    /// select policies of `resources`, taken in ascending resource order.
    fn select_context(&self, resources: &ResourceSet, Ghost(s): Ghost<BoundSelect>, role: &RoleName) -> (r: Result<
        (ColumnSet, Vec<PolicyId>, Option<u64>),
        PolicyError,
    >)
        requires
            forall|x: ResourceId| #[trigger] resources.has(x) == select_opens(s, x),
        ensures
            match r {
                Err(e) => lacks_policy(*self, s, role@) && e == PolicyError::MissingPolicy,
                Ok(t) => !lacks_policy(*self, s, role@) && column_set(t.0) == readable(*self, s, role@)
                    && t.1@ == resources.members().map_values(
                    |x: ResourceId| select_policy_of(*self, x, role@)->0.id,
                ) && t.2 == min_limit(resources.members(), *self, role@),
            },
    {
        let ghost members = resources.members();
        let ghost rl = role@;
        let mut columns = ColumnSet::new();
        let mut ids: Vec<PolicyId> = Vec::new();
        let mut limit: Option<u64> = None;
        let mut i: usize = 0;
        assert(members.take(0) =~= Seq::<ResourceId>::empty());
        while i < resources.len()
            invariant
                members == resources.members(),
                rl == role@,
                forall|x: ResourceId| #[trigger] resources.has(x) == select_opens(s, x),
                i <= members.len(),
                forall|j: int| 0 <= j < i ==> select_policy_of(*self, #[trigger] members[j], rl) is Some,
                forall|c: ColumnId| #[trigger]
                    columns.has(c) == exists|j: int| 0 <= j < i && regular_in(*self, #[trigger] members[j], rl, c),
                ids@ == members.take(i as int).map_values(
                    |x: ResourceId| select_policy_of(*self, x, rl)->0.id,
                ),
                limit == min_limit(members.take(i as int), *self, rl),
            decreases resources.members().len() - i,
        {
            let r = resources.at(i);
            let policy = match self.select_policy(r, role) {
                Some(p) => p,
                None => {
                    proof {
                        assert(members.contains(r));
                        assert(resources.has(r));
                        assert(select_opens(s, r));
                    }
                    return Err(PolicyError::MissingPolicy);
                },
            };
            let ghost before = columns;
            let mut k: usize = 0;
            while k < policy.regular_columns.len()
                invariant
                    k <= policy.regular_columns.members().len(),
                    forall|c: ColumnId| #[trigger]
                        columns.has(c) == (before.has(c) || exists|m: int|
                            0 <= m < k && policy.regular_columns.members()[m] == c),
                decreases policy.regular_columns.members().len() - k,
            {
                let c = policy.regular_columns.at(k);
                columns.insert(c);
                k = k + 1;
            }
            ids.push(policy.id);
            limit = match policy.limit {
                Some(l) => match limit {
                    Some(a) => Some(if a <= l { a } else { l }),
                    None => Some(l),
                },
                None => limit,
            };
            proof {
                assert(members.take(i + 1).drop_last() =~= members.take(i as int));
                assert(members.take(i + 1).last() == r);
                assert(ids@ =~= members.take(i + 1).map_values(
                    |x: ResourceId| select_policy_of(*self, x, rl)->0.id,
                ));
                assert forall|c: ColumnId| #[trigger] columns.has(c) == exists|j: int|
                    0 <= j < i + 1 && regular_in(*self, #[trigger] members[j], rl, c) by {
                    if policy.regular_columns.has(c) {
                        let m = choose|m: int| 0 <= m < policy.regular_columns.members().len()
                            && policy.regular_columns.members()[m] == c;
                        assert(regular_in(*self, members[i as int], rl, c));
                    }
                    if exists|j: int| 0 <= j < i + 1 && regular_in(*self, #[trigger] members[j], rl, c) {
                        let j = choose|j: int| 0 <= j < i + 1 && regular_in(*self, #[trigger] members[j], rl, c);
                        if j == i {
                            assert(policy.regular_columns.has(c));
                            let m = choose|m: int| 0 <= m < policy.regular_columns.members().len()
                                && policy.regular_columns.members()[m] == c;
                            assert(0 <= m < k);
                        }
                    }
                }
            }
            i = i + 1;
        }
        proof {
            assert(members.take(i as int) =~= members);
            assert(!lacks_policy(*self, s, rl)) by {
                if lacks_policy(*self, s, rl) {
                    let x = choose|x: ResourceId| #[trigger] select_opens(s, x) && select_policy_of(*self, x, rl) is None;
                    assert(resources.has(x));
                    let j = choose|j: int| 0 <= j < members.len() && members[j] == x;
                    assert(select_policy_of(*self, members[j], rl) is Some);
                }
            }
            assert(column_set(columns) =~= readable(*self, s, rl)) by {
                assert forall|c: ColumnId| column_set(columns).contains(c) == readable(*self, s, rl).contains(c) by {
                    if columns.has(c) {
                        let j = choose|j: int| 0 <= j < i && regular_in(*self, #[trigger] members[j], rl, c);
                        assert(resources.has(members[j]));
                        assert(select_opens(s, members[j]));
                    }
                    if readable(*self, s, rl).contains(c) {
                        let x = choose|x: ResourceId| #[trigger] select_opens(s, x) && regular_in(*self, x, rl, c);
                        assert(resources.has(x));
                        let j = choose|j: int| 0 <= j < members.len() && members[j] == x;
                        assert(regular_in(*self, members[j], rl, c));
                    }
                }
            }
        }
        Ok((columns, ids, limit))
    }
}

proof fn lemma_permissions_stay(ps: Seq<BoundProjection>, b: PolicyBundle, session: TrustedSession, i: int)
    requires
        0 <= i <= ps.len(),
        permissions_refusal(ps.take(i), b, session) is Some,
    ensures
        permissions_refusal(ps, b, session) == permissions_refusal(ps.take(i), b, session),
    decreases ps.len() - i,
{
    if i < ps.len() {
        assert(ps.take(i + 1).drop_last() =~= ps.take(i));
        lemma_permissions_stay(ps, b, session, i + 1);
    } else {
        assert(ps.take(i) =~= ps);
    }
}

/// Each projection of `ps` passes its own permission check.
pub proof fn lemma_permissions_each(ps: Seq<BoundProjection>, b: PolicyBundle, session: TrustedSession)
    requires
        permissions_refusal(ps, b, session) is None,
    ensures
        forall|i: int| 0 <= i < ps.len() ==> permission_refusal(#[trigger] ps[i].expression, b, session) is None,
    decreases ps.len(),
{
    if ps.len() > 0 {
        lemma_permissions_each(ps.drop_last(), b, session);
        assert forall|i: int| 0 <= i < ps.len() implies permission_refusal(#[trigger] ps[i].expression, b, session) is None by {
            if i < ps.len() - 1 {
                assert(ps.drop_last()[i] == ps[i]);
            }
        }
    }
}

impl PolicyBundle {
    /// Applies the column permissions of the selected policies to the
    /// projections: a regular column stays, a conditional one is shown
    /// only where its predicate holds, and any other column is refused.
    fn apply_projection_permissions(
        &self,
        projections: Vec<BoundProjection>,
        session: &TrustedSession,
        server_values: &mut TextMap<LogicalValue>,
    ) -> (r: Result<Vec<BoundProjection>, PolicyError>)
        requires
            old(server_values).wf(),
        ensures
            final(server_values).wf(),
            match r {
                Ok(v) => permissions_refusal(projections@, *self, *session) is None && v@.len()
                    == projections@.len() && (forall|i: int|
                    0 <= i < projections@.len() ==> permitted(
                        #[trigger] v@[i],
                        projections@[i],
                        *self,
                        session.role_spec()@,
                    )) && extends_with(
                    *old(server_values),
                    *final(server_values),
                    |k: Seq<char>| permissions_read(projections@, *self, session.role_spec()@, k),
                    *session,
                ),
                Err(e) => permissions_refusal(projections@, *self, *session) == Some(e),
            },
    {
        let ghost all = projections@;
        let ghost role = session.role_spec()@;
        let ghost start = *server_values;
        let mut rest = projections;
        let mut out: Vec<BoundProjection> = Vec::new();
        let mut k: usize = 0;
        proof {
            lemma_extends_none(start, *session);
            lemma_extends_same(
                start,
                start,
                |x: Seq<char>| false,
                |x: Seq<char>| exists|i: int| 0 <= i < 0 && shown_reads((#[trigger] all[i]).expression, *self, role, x),
                *session,
            );
            assert(all.take(0) =~= Seq::<BoundProjection>::empty());
            assert(rest@.skip(0) =~= all);
            assert(all.len() == rest.len());
        }
        while rest.len() > 0
            invariant
                all == projections@,
                role == session.role_spec()@,
                all.len() == k + rest@.len(),
                all.len() <= usize::MAX,
                rest@ == all.skip(k as int),
                server_values.wf(),
                permissions_refusal(all.take(k as int), *self, *session) is None,
                out@.len() == k,
                forall|i: int| 0 <= i < k ==> permitted(#[trigger] out@[i], all[i], *self, role),
                extends_with(
                    start,
                    *server_values,
                    |x: Seq<char>| exists|i: int| 0 <= i < k && shown_reads((#[trigger] all[i]).expression, *self, role, x),
                    *session,
                ),
            decreases rest.len(),
        {
            let projection = rest.remove(0);
            let ghost mid = *server_values;
            proof {
                assert(projection == all[k as int]);
                assert(all.take(k + 1).drop_last() =~= all.take(k as int));
                assert(all.take(k + 1).last() == all[k as int]);
                assert(rest@ =~= all.skip(k + 1));
            }
            let shown = match &projection.expression {
                BoundExpr::Column(column) => {
                    let policy = match self.select_policy(column.id.resource(), session.role()) {
                        Some(p) => p,
                        None => {
                            proof {
                                lemma_permissions_stay(all, *self, *session, k + 1);
                            }
                            return Err(PolicyError::MissingPolicy);
                        },
                    };
                    if policy.regular_columns.contains(column.id) {
                        None
                    } else {
                        match conditional_predicate(&policy.conditional_columns, column.id) {
                            Some(pred) => Some(pred),
                            None => {
                                proof {
                                    lemma_permissions_stay(all, *self, *session, k + 1);
                                }
                                return Err(PolicyError::ForbiddenColumn);
                            },
                        }
                    }
                },
                BoundExpr::CountAll(_) => None,
                BoundExpr::RowNumber { .. } => None,
                BoundExpr::ScalarFunction { .. } => None,
                BoundExpr::Concat(_, _) => None,
                BoundExpr::CastText(_) => None,
                BoundExpr::Case { .. } => None,
                _ => {
                    proof {
                        lemma_permissions_stay(all, *self, *session, k + 1);
                    }
                    return Err(PolicyError::ForbiddenColumnContext);
                },
            };
            assert(shown == match shown_if(all[k as int].expression, *self, role) {
                Some(p) => Some(&p),
                None => None::<&PolicyPredicate>,
            });
            match shown {
                Some(pred) => {
                    let visible_if = match instantiate_predicate(pred, session, server_values) {
                        Ok(v) => v,
                        Err(e) => {
                            proof {
                                lemma_permissions_stay(all, *self, *session, k + 1);
                            }
                            return Err(e);
                        },
                    };
                    let BoundProjection { expression, output_name } = projection;
                    out.push(
                        BoundProjection {
                            expression: BoundExpr::ConditionalOutput {
                                value: Box::new(expression),
                                visible_if: Box::new(visible_if),
                            },
                            output_name,
                        },
                    );
                    proof {
                        lemma_extends_same(
                            mid,
                            *server_values,
                            |x: Seq<char>| predicate_reads(*pred, x),
                            |x: Seq<char>| shown_reads(all[k as int].expression, *self, role, x),
                            *session,
                        );
                    }
                },
                None => {
                    out.push(projection);
                    proof {
                        lemma_extends_none(mid, *session);
                        lemma_extends_same(
                            mid,
                            mid,
                            |x: Seq<char>| false,
                            |x: Seq<char>| shown_reads(all[k as int].expression, *self, role, x),
                            *session,
                        );
                    }
                },
            }
            proof {
                let r1 = |x: Seq<char>| exists|i: int| 0 <= i < k && shown_reads((#[trigger] all[i]).expression, *self, role, x);
                let r2 = |x: Seq<char>| shown_reads(all[k as int].expression, *self, role, x);
                lemma_extends_chain(start, mid, *server_values, r1, r2, *session);
                assert forall|x: Seq<char>| #![trigger r2(x)] (r1(x) || r2(x)) == (exists|i: int|
                    0 <= i < k + 1 && shown_reads((#[trigger] all[i]).expression, *self, role, x)) by {
                    if exists|i: int| 0 <= i < k + 1 && shown_reads((#[trigger] all[i]).expression, *self, role, x) {
                        let i = choose|i: int| 0 <= i < k + 1 && shown_reads((#[trigger] all[i]).expression, *self, role, x);
                        if i < k {
                            assert(r1(x));
                        }
                    }
                }
                lemma_extends_same(
                    start,
                    *server_values,
                    |x: Seq<char>| r1(x) || r2(x),
                    |x: Seq<char>| exists|i: int| 0 <= i < k + 1 && shown_reads((#[trigger] all[i]).expression, *self, role, x),
                    *session,
                );
            }
            k = k + 1;
        }
        proof {
            assert(all.take(k as int) =~= all);
        }
        Ok(out)
    }
}

fn is_left_joined(joins: &Vec<BoundJoin>, r: ResourceId) -> (b: bool)
    ensures
        b == exists|j: int|
            0 <= j < joins@.len() && (#[trigger] joins@[j]).kind == JoinKind::Left
                && joins@[j].resource == r,
{
    let mut j: usize = 0;
    while j < joins.len()
        invariant
            j <= joins@.len(),
            forall|m: int| 0 <= m < j ==> !((#[trigger] joins@[m]).kind == JoinKind::Left && joins@[m].resource == r),
        decreases joins.len() - j,
    {
        if joins[j].kind == JoinKind::Left && joins[j].resource == r {
            return true;
        }
        j = j + 1;
    }
    false
}

/// Refuses a conditionally shown column of a left-joined resource.
fn check_left_joins(
    out: &Vec<BoundProjection>,
    joins: &Vec<BoundJoin>,
    Ghost(s): Ghost<BoundSelect>,
    Ghost(b): Ghost<PolicyBundle>,
    Ghost(session): Ghost<TrustedSession>,
) -> (r: Result<(), PolicyError>)
    requires
        joins@ == s.joins@,
        out@.len() == s.projections@.len(),
        forall|i: int|
            0 <= i < s.projections@.len() ==> permitted(
                #[trigger] out@[i],
                s.projections@[i],
                b,
                session.role_spec()@,
            ),
        permissions_refusal(s.projections@, b, session) is None,
    ensures
        r == refused(left_refusal(s, b, session.role_spec()@)),
{
    let ghost role = session.role_spec()@;
    proof {
        lemma_permissions_each(s.projections@, b, session);
    }
    let mut i: usize = 0;
    while i < out.len()
        invariant
            role == session.role_spec()@,
            joins@ == s.joins@,
            out@.len() == s.projections@.len(),
            forall|m: int| 0 <= m < s.projections@.len() ==> permitted(#[trigger] out@[m], s.projections@[m], b, role),
            forall|m: int| 0 <= m < s.projections@.len() ==> permission_refusal(#[trigger] s.projections@[m].expression, b, session) is None,
            i <= out@.len(),
            forall|m: int| 0 <= m < i ==> !left_shown(#[trigger] s.projections@[m].expression, s, b, role),
        decreases out.len() - i,
    {
        let ghost p = s.projections@[i as int];
        assert(permitted(out@[i as int], p, b, role));
        assert(permission_refusal(p.expression, b, session) is None);
        let refused_here = match &out[i].expression {
            BoundExpr::ConditionalOutput { value, .. } => match &**value {
                BoundExpr::Column(c) => is_left_joined(joins, c.id.resource()),
                _ => true,
            },
            _ => false,
        };
        proof {
            match shown_if(p.expression, b, role) {
                Some(pred) => {
                    assert(refused_here == left_shown(p.expression, s, b, role));
                },
                None => {
                    assert(out@[i as int].expression == p.expression);
                    assert(!left_shown(p.expression, s, b, role));
                    assert(!refused_here);
                },
            }
        }
        if refused_here {
            return Err(PolicyError::ForbiddenColumnContext);
        }
        i = i + 1;
    }
    Ok(())
}

proof fn lemma_capabilities_stay(
    ps: Seq<BoundProjection>,
    b: PolicyBundle,
    role: Seq<char>,
    a: Set<ColumnId>,
    i: int,
)
    requires
        0 <= i <= ps.len(),
        capabilities_refusal(ps.take(i), b, role, a) is Some,
    ensures
        capabilities_refusal(ps, b, role, a) == capabilities_refusal(ps.take(i), b, role, a),
    decreases ps.len() - i,
{
    if i < ps.len() {
        assert(ps.take(i + 1).drop_last() =~= ps.take(i));
        lemma_capabilities_stay(ps, b, role, a, i + 1);
    } else {
        assert(ps.take(i) =~= ps);
    }
}

proof fn lemma_joins_stay(js: Seq<BoundJoin>, a: Set<ColumnId>, i: int)
    requires
        0 <= i <= js.len(),
        joins_refusal(js.take(i), a) is Some,
    ensures
        joins_refusal(js, a) == joins_refusal(js.take(i), a),
    decreases js.len() - i,
{
    if i < js.len() {
        assert(js.take(i + 1).drop_last() =~= js.take(i));
        lemma_joins_stay(js, a, i + 1);
    } else {
        assert(js.take(i) =~= js);
    }
}

proof fn lemma_join_filters_stay(js: Seq<BoundJoin>, b: PolicyBundle, session: TrustedSession, i: int)
    requires
        0 <= i <= js.len(),
        join_filters_refusal(js.take(i), b, session) is Some,
    ensures
        join_filters_refusal(js, b, session) == join_filters_refusal(js.take(i), b, session),
    decreases js.len() - i,
{
    if i < js.len() {
        assert(js.take(i + 1).drop_last() =~= js.take(i));
        lemma_join_filters_stay(js, b, session, i + 1);
    } else {
        assert(js.take(i) =~= js);
    }
}

fn validate_join_conditions(joins: &Vec<BoundJoin>, allowed: &ColumnSet) -> (r: Result<(), PolicyError>)
    ensures
        r == refused(joins_refusal(joins@, column_set(*allowed))),
{
    let ghost all = joins@;
    let ghost a = column_set(*allowed);
    let mut i: usize = 0;
    while i < joins.len()
        invariant
            all == joins@,
            a == column_set(*allowed),
            i <= all.len(),
            joins_refusal(all.take(i as int), a) is None,
        decreases joins.len() - i,
    {
        assert(all.take(i + 1).drop_last() =~= all.take(i as int));
        assert(all.take(i + 1).last() == all[i as int]);
        match validate_client_expression(&joins[i].on, allowed) {
            Err(e) => {
                proof {
                    lemma_joins_stay(all, a, i + 1);
                }
                return Err(e);
            },
            Ok(()) => {},
        }
        i = i + 1;
    }
    assert(all.take(i as int) =~= all);
    Ok(())
}

impl PolicyBundle {
    /// Refuses a projection that asks for a capability its policy withholds.
    fn check_capability(&self, e: &BoundExpr, role: &RoleName, allowed: &ColumnSet) -> (r: Result<
        (),
        PolicyError,
    >)
        ensures
            r == refused(capability_refusal(*e, *self, role@, column_set(*allowed))),
    {
        match e {
            BoundExpr::CountAll(resource) => {
                let policy = match self.select_policy(*resource, role) {
                    Some(p) => p,
                    None => return Err(PolicyError::MissingPolicy),
                };
                if policy.allow_aggregations {
                    Ok(())
                } else {
                    Err(PolicyError::UnsupportedCapability)
                }
            },
            BoundExpr::RowNumber { resource, partition_by, order_by } => {
                let policy = match self.select_policy(*resource, role) {
                    Some(p) => p,
                    None => return Err(PolicyError::MissingPolicy),
                };
                if !policy.allow_windows || validate_partition(partition_by, allowed).is_err()
                    || validate_orders(order_by, allowed).is_err() {
                    Err(PolicyError::UnsupportedCapability)
                } else {
                    Ok(())
                }
            },
            BoundExpr::ScalarFunction { .. } => validate_client_expression(e, allowed),
            BoundExpr::Concat(_, _) => validate_client_expression(e, allowed),
            BoundExpr::CastText(_) => validate_client_expression(e, allowed),
            BoundExpr::Case { .. } => validate_client_expression(e, allowed),
            _ => Ok(()),
        }
    }

    /// Checks the capabilities that the projections ask for.
    fn check_capabilities(
        &self,
        out: &Vec<BoundProjection>,
        role: &RoleName,
        allowed: &ColumnSet,
        Ghost(s): Ghost<BoundSelect>,
        Ghost(session): Ghost<TrustedSession>,
    ) -> (r: Result<(), PolicyError>)
        requires
            role@ == session.role_spec()@,
            out@.len() == s.projections@.len(),
            forall|i: int|
                0 <= i < s.projections@.len() ==> permitted(
                    #[trigger] out@[i],
                    s.projections@[i],
                    *self,
                    role@,
                ),
            permissions_refusal(s.projections@, *self, session) is None,
        ensures
            r == refused(capabilities_refusal(s.projections@, *self, role@, column_set(*allowed))),
    {
        let ghost all = s.projections@;
        let ghost a = column_set(*allowed);
        proof {
            lemma_permissions_each(all, *self, session);
        }
        let mut i: usize = 0;
        while i < out.len()
            invariant
                role@ == session.role_spec()@,
                all == s.projections@,
                a == column_set(*allowed),
                out@.len() == all.len(),
                forall|m: int| 0 <= m < all.len() ==> permitted(#[trigger] out@[m], all[m], *self, role@),
                forall|m: int| 0 <= m < all.len() ==> permission_refusal(#[trigger] all[m].expression, *self, session) is None,
                i <= all.len(),
                capabilities_refusal(all.take(i as int), *self, role@, a) is None,
            decreases out.len() - i,
        {
            assert(all.take(i + 1).drop_last() =~= all.take(i as int));
            assert(all.take(i + 1).last() == all[i as int]);
            proof {
                let p = all[i as int];
                assert(permitted(out@[i as int], p, *self, role@));
                assert(permission_refusal(p.expression, *self, session) is None);
                assert(capability_refusal(out@[i as int].expression, *self, role@, a) == capability_refusal(p.expression, *self, role@, a));
            }
            match self.check_capability(&out[i].expression, role, allowed) {
                Err(e) => {
                    proof {
                        lemma_capabilities_stay(all, *self, role@, a, i + 1);
                    }
                    return Err(e);
                },
                Ok(()) => {},
            }
            i = i + 1;
        }
        assert(all.take(i as int) =~= all);
        Ok(())
    }

    /// Adds the filter of each joined resource: an inner join's to the
    /// condition, a left join's to the join's own condition.
    fn apply_join_filters(
        &self,
        joins: Vec<BoundJoin>,
        predicate: BoundExpr,
        session: &TrustedSession,
        server_values: &mut TextMap<LogicalValue>,
        Ghost(s): Ghost<BoundSelect>,
    ) -> (r: Result<(Vec<BoundJoin>, BoundExpr), PolicyError>)
        requires
            old(server_values).wf(),
            joins@ == s.joins@,
            condition_after(predicate, s, Seq::<BoundJoin>::empty(), *self, session.role_spec()@),
        ensures
            final(server_values).wf(),
            match r {
                Ok(t) => join_filters_refusal(s.joins@, *self, *session) is None && t.0@.len()
                    == s.joins@.len() && (forall|i: int|
                    0 <= i < s.joins@.len() ==> join_after(
                        #[trigger] t.0@[i],
                        s.joins@[i],
                        *self,
                        session.role_spec()@,
                    )) && condition_after(t.1, s, s.joins@, *self, session.role_spec()@)
                    && extends_with(
                    *old(server_values),
                    *final(server_values),
                    |k: Seq<char>| exists|j: int|
                        0 <= j < s.joins@.len() && predicate_reads(
                            filter_of(*self, (#[trigger] s.joins@[j]).resource, session.role_spec()@),
                            k,
                        ),
                    *session,
                ),
                Err(e) => join_filters_refusal(s.joins@, *self, *session) == Some(e),
            },
    {
        let ghost all = joins@;
        let ghost role = session.role_spec()@;
        let ghost start = *server_values;
        let mut rest = joins;
        let mut out: Vec<BoundJoin> = Vec::new();
        let mut condition = predicate;
        let mut k: usize = 0;
        proof {
            lemma_extends_none(start, *session);
            lemma_extends_same(
                start,
                start,
                |x: Seq<char>| false,
                |x: Seq<char>| exists|j: int| 0 <= j < 0 && predicate_reads(filter_of(*self, (#[trigger] all[j]).resource, role), x),
                *session,
            );
            assert(all.take(0) =~= Seq::<BoundJoin>::empty());
            assert(rest@.skip(0) =~= all);
            assert(all.len() == rest.len());
        }
        while rest.len() > 0
            invariant
                all == s.joins@,
                role == session.role_spec()@,
                all.len() == k + rest@.len(),
                all.len() <= usize::MAX,
                rest@ == all.skip(k as int),
                server_values.wf(),
                join_filters_refusal(all.take(k as int), *self, *session) is None,
                out@.len() == k,
                forall|i: int| 0 <= i < k ==> join_after(#[trigger] out@[i], all[i], *self, role),
                condition_after(condition, s, all.take(k as int), *self, role),
                extends_with(
                    start,
                    *server_values,
                    |x: Seq<char>| exists|j: int| 0 <= j < k && predicate_reads(filter_of(*self, (#[trigger] all[j]).resource, role), x),
                    *session,
                ),
            decreases rest.len(),
        {
            let join = rest.remove(0);
            let ghost mid = *server_values;
            proof {
                assert(join == all[k as int]);
                assert(all.take(k + 1).drop_last() =~= all.take(k as int));
                assert(all.take(k + 1).last() == all[k as int]);
                assert(rest@ =~= all.skip(k + 1));
            }
            let policy = match self.select_policy(join.resource, session.role()) {
                Some(p) => p,
                None => {
                    proof {
                        lemma_join_filters_stay(all, *self, *session, k + 1);
                    }
                    return Err(PolicyError::MissingPolicy);
                },
            };
            let filter = match instantiate_predicate(&policy.filter, session, server_values) {
                Ok(f) => f,
                Err(e) => {
                    proof {
                        lemma_join_filters_stay(all, *self, *session, k + 1);
                    }
                    return Err(e);
                },
            };
            let BoundJoin { resource, alias, kind, on } = join;
            if kind == JoinKind::Inner {
                condition = BoundExpr::And(Box::new(condition), Box::new(filter));
                out.push(BoundJoin { resource, alias, kind, on });
            } else {
                out.push(BoundJoin { resource, alias, kind, on: BoundExpr::And(Box::new(on), Box::new(filter)) });
            }
            proof {
                let r1 = |x: Seq<char>| exists|j: int| 0 <= j < k && predicate_reads(filter_of(*self, (#[trigger] all[j]).resource, role), x);
                let r2 = |x: Seq<char>| predicate_reads(filter_of(*self, all[k as int].resource, role), x);
                lemma_extends_chain(start, mid, *server_values, r1, r2, *session);
                assert forall|x: Seq<char>| #![trigger r2(x)] (r1(x) || r2(x)) == (exists|j: int|
                    0 <= j < k + 1 && predicate_reads(filter_of(*self, (#[trigger] all[j]).resource, role), x)) by {
                    if exists|j: int| 0 <= j < k + 1 && predicate_reads(filter_of(*self, (#[trigger] all[j]).resource, role), x) {
                        let j = choose|j: int| 0 <= j < k + 1 && predicate_reads(filter_of(*self, (#[trigger] all[j]).resource, role), x);
                        if j < k {
                            assert(r1(x));
                        }
                    }
                }
                lemma_extends_same(
                    start,
                    *server_values,
                    |x: Seq<char>| r1(x) || r2(x),
                    |x: Seq<char>| exists|j: int| 0 <= j < k + 1 && predicate_reads(filter_of(*self, (#[trigger] all[j]).resource, role), x),
                    *session,
                );
            }
            k = k + 1;
        }
        proof {
            assert(all.take(k as int) =~= all);
        }
        Ok((out, condition))
    }
}

/// `out` is select `s` compiled: the protected statement, the resources
/// it opens in ascending order, their policies and their smallest cap.
pub open spec fn select_plan(
    out: CompileOutput,
    b: PolicyBundle,
    s: BoundSelect,
    st: BoundStatement,
    session: TrustedSession,
) -> bool {
    let role = session.role_spec()@;
    let rs = out.explain.resources@;
    &&& match out.plan.statement {
        BoundStatement::Select(t) => select_compiled(*t, s, b, role, out.plan.policy_limit),
        _ => false,
    }
    &&& forall|x: ResourceId| #[trigger] rs.contains(x) == select_opens(s, x)
    &&& forall|i: int, j: int| 0 <= i < j < rs.len() ==> (#[trigger] rs[i])@ < (#[trigger] rs[j])@
    &&& out.plan.policy_limit == min_limit(rs, b, role)
    &&& out.plan.applied_policies@ == rs.map_values(|x: ResourceId| select_policy_of(b, x, role)->0.id)
    &&& bound_exactly(out.plan.server_values, |k: Seq<char>| select_reads(s, b, role, k), session)
    &&& out.plan.operation_check is None
    &&& out.plan.expected_affected_rows is None
    &&& out.plan.expected_result_rows is None
    &&& out.explain.operation == OperationKind::Select
    &&& out.explain.resource == Some(s.resource)
    &&& forall|c: ColumnId| #[trigger] out.explain.referenced_columns.has(c) == statement_reads(st, c)
    &&& out.explain.applied_policies@ == out.plan.applied_policies@
    &&& out.explain.policy_limit == out.plan.policy_limit
}

/// Why a select of a JSON document's collection cannot be compiled.
pub open spec fn json_refusal(b: PolicyBundle, j: BoundJsonCollectionSelect, session: TrustedSession) -> Option<
    PolicyError,
> {
    match select_policy_of(b, j.resource, session.role_spec()@) {
        None => Some(PolicyError::MissingPolicy),
        Some(p) => if !p.allow_aggregations || !p.regular_columns.has(j.document.id) {
            Some(PolicyError::UnsupportedCapability)
        } else {
            first_refusal(
                optional_refusal(j.predicate, column_set(p.regular_columns)),
                predicate_refusal(p.filter, session),
            )
        },
    }
}

/// `out` is the collection select `j` with its resource's select policy
/// applied: one row of the aggregated collection comes back.
pub open spec fn json_plan(
    out: CompileOutput,
    b: PolicyBundle,
    j: BoundJsonCollectionSelect,
    st: BoundStatement,
    session: TrustedSession,
) -> bool {
    match select_policy_of(b, j.resource, session.role_spec()@) {
        Some(p) => match out.plan.statement {
            BoundStatement::JsonCollectionSelect(x) => {
                &&& x.resource == j.resource
                &&& x.alias == j.alias
                &&& x.document == j.document
                &&& x.path == j.path
                &&& x.recursive == j.recursive
                &&& x.output_name == j.output_name
                &&& x.predicate matches Some(q) && restricted(q, j.predicate, p.filter)
                &&& out.plan.applied_policies@ == seq![p.id]
                &&& bound_exactly(
                    out.plan.server_values,
                    |k: Seq<char>| predicate_reads(p.filter, k),
                    session,
                )
                &&& out.plan.policy_limit is None
                &&& out.plan.operation_check is None
                &&& out.plan.expected_affected_rows is None
                &&& out.plan.expected_result_rows == Some(1u64)
                &&& single_explain(out.explain, OperationKind::Select, j.resource, p.id, st)
            },
            _ => false,
        },
        None => false,
    }
}

/// Why a read statement cannot be compiled for `session`.
pub open spec fn read_refusal(b: PolicyBundle, st: BoundStatement, session: TrustedSession) -> Option<
    PolicyError,
> {
    match st {
        BoundStatement::Select(s) => select_refusal(b, *s, session),
        BoundStatement::ConstantSelect(_) => None,
        BoundStatement::JsonCollectionSelect(j) => json_refusal(b, j, session),
        _ => Some(PolicyError::UnsupportedCapability),
    }
}

/// `out` is the read statement `st` compiled for `session`. A select of
/// constants touches no resource and meets no policy.
pub open spec fn read_compiled(out: CompileOutput, b: PolicyBundle, st: BoundStatement, session: TrustedSession) -> bool {
    match st {
        BoundStatement::Select(s) => select_plan(out, b, *s, st, session),
        BoundStatement::JsonCollectionSelect(j) => json_plan(out, b, j, st, session),
        BoundStatement::ConstantSelect(c) => {
            &&& out.plan.statement == st
            &&& out.plan.applied_policies@.len() == 0
            &&& out.plan.server_values.wf()
            &&& forall|n: Seq<char>| !(#[trigger] out.plan.server_values.has_key(n))
            &&& out.plan.policy_limit is None
            &&& out.plan.operation_check is None
            &&& out.plan.expected_affected_rows is None
            &&& out.plan.expected_result_rows is None
            &&& out.explain.operation == OperationKind::Select
            &&& out.explain.resource is None
            &&& out.explain.resources@.len() == 0
            &&& forall|c: ColumnId| !(#[trigger] out.explain.referenced_columns.has(c))
            &&& out.explain.applied_policies@.len() == 0
            &&& out.explain.policy_limit is None
        },
        _ => false,
    }
}

fn copy_ids(ids: &Vec<PolicyId>) -> (r: Vec<PolicyId>)
    ensures
        r@ == ids@,
{
    let mut out: Vec<PolicyId> = Vec::new();
    let mut i: usize = 0;
    while i < ids.len()
        invariant
            i <= ids@.len(),
            out@ == ids@.take(i as int),
        decreases ids.len() - i,
    {
        out.push(ids[i]);
        assert(ids@.take(i + 1) =~= ids@.take(i as int).push(ids@[i as int]));
        i = i + 1;
    }
    assert(ids@.take(i as int) =~= ids@);
    out
}

impl PolicyBundle {
    /// Applies the row and column policies of the session's role to a read
    /// statement: a select, a select of constants, or a select of a JSON
    /// document's collection.
    pub fn compile_select(&self, statement: BoundStatement, session: &TrustedSession) -> (r: Result<
        CompileOutput,
        PolicyError,
    >)
        ensures
            match r {
                Err(e) => read_refusal(*self, statement, *session) == Some(e),
                Ok(out) => read_refusal(*self, statement, *session) is None && read_compiled(
                    out,
                    *self,
                    statement,
                    *session,
                ),
            },
    {
        let referenced = referenced_columns(&statement);
        let ghost st = statement;
        match statement {
            BoundStatement::ConstantSelect(c) => {
                let empty: TextMap<LogicalValue> = TextMap::new();
                Ok(
                    CompileOutput {
                        plan: ProtectedPlan {
                            statement: BoundStatement::ConstantSelect(c),
                            applied_policies: Vec::new(),
                            server_values: empty,
                            policy_limit: None,
                            operation_check: None,
                            expected_affected_rows: None,
                            expected_result_rows: None,
                        },
                        explain: Explain {
                            operation: OperationKind::Select,
                            resource: None,
                            resources: Vec::new(),
                            referenced_columns: referenced,
                            applied_policies: Vec::new(),
                            policy_limit: None,
                        },
                    },
                )
            },
            BoundStatement::JsonCollectionSelect(j) => self.compile_json_collection_select(
                j,
                referenced,
                session,
                Ghost(st),
            ),
            BoundStatement::Select(boxed) => self.compile_bound_select(*boxed, referenced, session, Ghost(st)),
            _ => Err(PolicyError::UnsupportedCapability),
        }
    }

    fn compile_json_collection_select(
        &self,
        select: BoundJsonCollectionSelect,
        referenced: crate::id_sets::ColumnSet,
        session: &TrustedSession,
        Ghost(st): Ghost<BoundStatement>,
    ) -> (r: Result<CompileOutput, PolicyError>)
        requires
            forall|c: ColumnId| #[trigger] referenced.has(c) == statement_reads(st, c),
        ensures
            match r {
                Err(e) => json_refusal(*self, select, *session) == Some(e),
                Ok(out) => json_refusal(*self, select, *session) is None && json_plan(out, *self, select, st, *session),
            },
    {
        let policy = match self.select_policy(select.resource, session.role()) {
            Some(p) => p,
            None => return Err(PolicyError::MissingPolicy),
        };
        if !policy.allow_aggregations || !policy.regular_columns.contains(select.document.id) {
            return Err(PolicyError::UnsupportedCapability);
        }
        match &select.predicate {
            Some(p) => match validate_client_expression(p, &policy.regular_columns) {
                Err(e) => return Err(e),
                Ok(()) => {},
            },
            None => {},
        }
        let mut server_values: TextMap<LogicalValue> = TextMap::new();
        let ghost start = server_values;
        let filter = match instantiate_predicate(&policy.filter, session, &mut server_values) {
            Ok(f) => f,
            Err(e) => return Err(e),
        };
        proof {
            lemma_bound_from_empty(
                start,
                server_values,
                |k: Seq<char>| predicate_reads(policy.filter, k),
                *session,
            );
        }
        let resource = select.resource;
        let BoundJsonCollectionSelect { resource: _, alias, document, path, recursive, output_name, predicate } = select;
        let protected = BoundJsonCollectionSelect {
            resource,
            alias,
            document,
            path,
            recursive,
            output_name,
            predicate: Some(and_optional(predicate, filter)),
        };
        Ok(
            CompileOutput {
                plan: ProtectedPlan {
                    statement: BoundStatement::JsonCollectionSelect(protected),
                    applied_policies: single(policy.id),
                    server_values,
                    policy_limit: None,
                    operation_check: None,
                    expected_affected_rows: None,
                    expected_result_rows: Some(1),
                },
                explain: Explain {
                    operation: OperationKind::Select,
                    resource: Some(resource),
                    resources: single(resource),
                    referenced_columns: referenced,
                    applied_policies: single(policy.id),
                    policy_limit: None,
                },
            },
        )
    }
}

impl PolicyBundle {
    fn compile_bound_select(
        &self,
        select: BoundSelect,
        referenced: ColumnSet,
        session: &TrustedSession,
        Ghost(st): Ghost<BoundStatement>,
    ) -> (r: Result<CompileOutput, PolicyError>)
        requires
            forall|c: ColumnId| #[trigger] referenced.has(c) == statement_reads(st, c),
        ensures
            match r {
                Err(e) => select_refusal(*self, select, *session) == Some(e),
                Ok(out) => select_refusal(*self, select, *session) is None && select_plan(
                    out,
                    *self,
                    select,
                    st,
                    *session,
                ),
            },
    {
        let ghost s0 = select;
        let ghost role = session.role_spec()@;
        let role_name = session.role();
        let resources = select_resources(&select);
        let (allowed, ids, policy_limit) = match self.select_context(&resources, Ghost(s0), role_name) {
            Ok(t) => t,
            Err(e) => return Err(e),
        };
        let ghost a = readable(*self, s0, role);
        assert(column_set(allowed) == a);
        let BoundSelect {
            resource,
            alias,
            joins,
            projections,
            predicate,
            group_by,
            having,
            order_by,
            limit,
            offset,
        } = select;
        let mut server_values: TextMap<LogicalValue> = TextMap::new();
        let ghost start = server_values;
        let projections = match self.apply_projection_permissions(projections, session, &mut server_values) {
            Ok(v) => v,
            Err(e) => return Err(e),
        };
        let ghost after_permissions = server_values;
        match check_left_joins(&projections, &joins, Ghost(s0), Ghost(*self), Ghost(*session)) {
            Err(e) => return Err(e),
            Ok(()) => {},
        }
        match &predicate {
            Some(p) => match validate_client_expression(p, &allowed) {
                Err(e) => return Err(e),
                Ok(()) => {},
            },
            None => {},
        }
        match validate_orders(&order_by, &allowed) {
            Err(e) => return Err(e),
            Ok(()) => {},
        }
        match validate_partition(&group_by, &allowed) {
            Err(e) => return Err(e),
            Ok(()) => {},
        }
        match &having {
            Some(h) => match validate_client_expression(h, &allowed) {
                Err(e) => return Err(e),
                Ok(()) => {},
            },
            None => {},
        }
        match self.check_capabilities(&projections, role_name, &allowed, Ghost(s0), Ghost(*session)) {
            Err(e) => return Err(e),
            Ok(()) => {},
        }
        match validate_join_conditions(&joins, &allowed) {
            Err(e) => return Err(e),
            Ok(()) => {},
        }
        let protected_predicate = match predicate {
            Some(p) => match protect_nested_selects(p, self, session, &mut server_values) {
                Ok(x) => Some(x),
                Err(e) => return Err(e),
            },
            None => None,
        };
        let ghost after_nested = server_values;
        let root = match self.select_policy(resource, role_name) {
            Some(p) => p,
            None => return Err(PolicyError::MissingPolicy),
        };
        let root_filter = match instantiate_predicate(&root.filter, session, &mut server_values) {
            Ok(f) => f,
            Err(e) => return Err(e),
        };
        let ghost after_root = server_values;
        let condition = and_optional(protected_predicate, root_filter);
        proof {
            assert(filter_of(*self, s0.resource, role) == root.filter);
            assert(condition_after(condition, s0, Seq::<BoundJoin>::empty(), *self, role));
        }
        let (joins, condition) = match self.apply_join_filters(joins, condition, session, &mut server_values, Ghost(s0)) {
            Ok(t) => t,
            Err(e) => return Err(e),
        };
        let limit = capped_limit(limit, policy_limit);
        let protected = BoundSelect {
            resource,
            alias,
            joins,
            projections,
            predicate: Some(condition),
            group_by,
            having,
            order_by,
            limit,
            offset,
        };
        proof {
            let r1 = |k: Seq<char>| permissions_read(s0.projections@, *self, role, k);
            let r2 = |k: Seq<char>| s0.predicate matches Some(p) && protect_reads(p, *self, role, k);
            let r3 = |k: Seq<char>| predicate_reads(filter_of(*self, s0.resource, role), k);
            let r4 = |k: Seq<char>| exists|j: int|
                0 <= j < s0.joins@.len() && predicate_reads(filter_of(*self, (#[trigger] s0.joins@[j]).resource, role), k);
            if s0.predicate is None {
                lemma_extends_none(after_permissions, *session);
                lemma_extends_same(after_permissions, after_permissions, |k: Seq<char>| false, r2, *session);
            } else {
                lemma_extends_same(
                    after_permissions,
                    after_nested,
                    |k: Seq<char>| protect_reads(s0.predicate->0, *self, role, k),
                    r2,
                    *session,
                );
            }
            lemma_extends_same(
                after_nested,
                after_root,
                |k: Seq<char>| predicate_reads(root.filter, k),
                r3,
                *session,
            );
            lemma_extends_chain(start, after_permissions, after_nested, r1, r2, *session);
            lemma_extends_chain(start, after_nested, after_root, |k: Seq<char>| r1(k) || r2(k), r3, *session);
            lemma_extends_chain(
                start,
                after_root,
                server_values,
                |k: Seq<char>| (r1(k) || r2(k)) || r3(k),
                r4,
                *session,
            );
            lemma_extends_same(
                start,
                server_values,
                |k: Seq<char>| ((r1(k) || r2(k)) || r3(k)) || r4(k),
                |k: Seq<char>| select_reads(s0, *self, role, k),
                *session,
            );
            lemma_bound_from_empty(
                start,
                server_values,
                |k: Seq<char>| select_reads(s0, *self, role, k),
                *session,
            );
        }
        let resource_list = resources.to_vec();
        let applied = copy_ids(&ids);
        proof {
            assert(select_refusal(*self, s0, *session) is None);
            assert(select_compiled(protected, s0, *self, role, policy_limit));
            assert forall|x: ResourceId| #[trigger] resource_list@.contains(x) == select_opens(s0, x) by {
                assert(resources.has(x) == select_opens(s0, x));
            }
        }
        Ok(
            CompileOutput {
                plan: ProtectedPlan {
                    statement: BoundStatement::Select(Box::new(protected)),
                    applied_policies: ids,
                    server_values,
                    policy_limit,
                    operation_check: None,
                    expected_affected_rows: None,
                    expected_result_rows: None,
                },
                explain: Explain {
                    operation: OperationKind::Select,
                    resource: Some(resource),
                    resources: resource_list,
                    referenced_columns: referenced,
                    applied_policies: applied,
                    policy_limit,
                },
            },
        )
    }
}

/// The row cap of resource `r`'s select policy for `role`.
pub open spec fn cap_of(b: PolicyBundle, r: ResourceId, role: Seq<char>) -> Option<u64> {
    match select_policy_of(b, r, role) {
        Some(p) => p.limit,
        None => None,
    }
}

/// The row cap of a compiled select is the smallest cap among the
/// policies it applies: no larger than any of them, and one of them.
pub proof fn lemma_min_limit(rs: Seq<ResourceId>, b: PolicyBundle, role: Seq<char>)
    ensures
        forall|i: int|
            0 <= i < rs.len() && (#[trigger] cap_of(b, rs[i], role)) is Some ==> (min_limit(rs, b, role) matches Some(
                m,
            ) && m <= cap_of(b, rs[i], role)->0),
        min_limit(rs, b, role) is Some ==> exists|i: int|
            0 <= i < rs.len() && #[trigger] cap_of(b, rs[i], role) == min_limit(rs, b, role),
        min_limit(rs, b, role) is None ==> forall|i: int| 0 <= i < rs.len() ==> (#[trigger] cap_of(b, rs[i], role)) is None,
    decreases rs.len(),
{
    if rs.len() > 0 {
        let front = rs.drop_last();
        lemma_min_limit(front, b, role);
        assert forall|i: int| 0 <= i < front.len() implies #[trigger] cap_of(b, front[i], role) == cap_of(b, rs[i], role) by {}
        if min_limit(rs, b, role) is Some {
            if min_limit(rs, b, role) == cap_of(b, rs.last(), role) {
                assert(cap_of(b, rs[rs.len() - 1], role) == min_limit(rs, b, role));
            } else {
                let i = choose|i: int| 0 <= i < front.len() && #[trigger] cap_of(b, front[i], role) == min_limit(front, b, role);
                assert(cap_of(b, rs[i], role) == min_limit(rs, b, role));
            }
        }
        assert forall|i: int|
            0 <= i < rs.len() && (#[trigger] cap_of(b, rs[i], role)) is Some implies (min_limit(rs, b, role) matches Some(
                m,
            ) && m <= cap_of(b, rs[i], role)->0) by {
            if i < rs.len() - 1 {
                assert(cap_of(b, front[i], role) is Some);
            }
        }
        assert forall|i: int| min_limit(rs, b, role) is None && 0 <= i < rs.len() implies (#[trigger] cap_of(b, rs[i], role)) is None by {
            if i < rs.len() - 1 {
                assert(cap_of(b, front[i], role) == cap_of(b, rs[i], role));
            }
        }
    }
}

/// A capped limit never exceeds the cap: a literal count becomes at most
/// the cap, and any other limit expression is bounded by the cap.
pub proof fn lemma_capped_bounded(limit: Option<BoundExpr>, cap: u64)
    ensures
        capped(limit, Some(cap)) matches Some(e) && match e {
            BoundExpr::Literal(LogicalValue::Int64(n)) => n <= crate::protect::cap_value(cap),
            BoundExpr::Least(_, r) => *r == BoundExpr::Literal(LogicalValue::Int64(crate::protect::cap_value(cap))),
            _ => false,
        },
{
}

/// Every column that a compiled select shows as it is, not under a
/// condition, is a regular column of its resource's select policy.
pub proof fn lemma_shown_columns_are_regular(
    b: PolicyBundle,
    s: BoundSelect,
    t: BoundSelect,
    session: TrustedSession,
    cap: Option<u64>,
)
    requires
        select_refusal(b, s, session) is None,
        select_compiled(t, s, b, session.role_spec()@, cap),
    ensures
        forall|i: int|
            0 <= i < t.projections@.len() ==> match (#[trigger] t.projections@[i]).expression {
                BoundExpr::Column(c) => regular_in(b, c.id.resource_spec(), session.role_spec()@, c.id),
                _ => true,
            },
{
    let role = session.role_spec()@;
    lemma_permissions_each(s.projections@, b, session);
    assert forall|i: int| 0 <= i < t.projections@.len() implies match (#[trigger] t.projections@[i]).expression {
        BoundExpr::Column(c) => regular_in(b, c.id.resource_spec(), role, c.id),
        _ => true,
    } by {
        let p = s.projections@[i];
        assert(permitted(t.projections@[i], p, b, role));
        assert(permission_refusal(p.expression, b, session) is None);
    }
}

} // verus!
