//! Applying an activated bundle to a bound statement: the policies of the
//! session's role restrict rows, gate columns, cap results and preset the
//! values a role may not choose. Every refusal fails closed.
use vstd::prelude::*;
use crate::activation::{DeletePolicy, InsertPolicy, Preset, SelectPolicy, UpdatePolicy};
use crate::bundle::{PolicyBundle, policies_for};
use crate::id_sets::ColumnSet;
use crate::identity::{
    ColumnId, LogicalValue, OperationKind, PolicyId, ResourceId, TrustedSession, has_server_prefix,
    server_prefix,
};
use crate::instantiate::{
    binds, extends_with, instantiate_operand, instantiate_predicate, introduced,
    lemma_extends_chain, lemma_extends_none, lemma_extends_same, operand_expr, operand_reads,
    operand_refusal, predicate_expr, predicate_reads, predicate_refusal,
};
use crate::ir::{
    BoundAssignment, BoundColumn, BoundExpr, BoundProjection, BoundStatement, ColumnUsage,
    ProtectedPlan,
};
use crate::policy::{Explain, PolicyError};
use crate::predicate::PolicyPredicate;
use crate::scan::{first_refusal, referenced_columns, statement_reads};
use crate::text_map::TextMap;

verus! {

/// A protected plan with the account of what it touched.
#[derive(Debug)]
pub struct CompileOutput {
    pub plan: ProtectedPlan,
    pub explain: Explain,
}

/// The `delete` policy of `role` on resource `r`.
pub open spec fn delete_policy_of(b: PolicyBundle, r: ResourceId, role: Seq<char>) -> Option<
    DeletePolicy,
> {
    match policies_for(b.entries(), r) {
        Some(e) => e.delete.spec_get(role),
        None => None,
    }
}

/// The `update` policy of `role` on resource `r`.
pub open spec fn update_policy_of(b: PolicyBundle, r: ResourceId, role: Seq<char>) -> Option<
    UpdatePolicy,
> {
    match policies_for(b.entries(), r) {
        Some(e) => e.update.spec_get(role),
        None => None,
    }
}

/// The `insert` policy of `role` on resource `r`.
pub open spec fn insert_policy_of(b: PolicyBundle, r: ResourceId, role: Seq<char>) -> Option<
    InsertPolicy,
> {
    match policies_for(b.entries(), r) {
        Some(e) => e.insert.spec_get(role),
        None => None,
    }
}

/// The `select` policy of `role` on resource `r`.
pub open spec fn select_policy_of(b: PolicyBundle, r: ResourceId, role: Seq<char>) -> Option<
    SelectPolicy,
> {
    match policies_for(b.entries(), r) {
        Some(e) => e.select.spec_get(role),
        None => None,
    }
}

/// `q` is `current` restricted by an instance of `filter`: the instance
/// alone when there is no `current`, else `current AND instance`.
pub open spec fn restricted(q: BoundExpr, current: Option<BoundExpr>, filter: PolicyPredicate) -> bool {
    match current {
        Some(c) => q matches BoundExpr::And(l, r) && *l == c && predicate_expr(*r, filter),
        None => predicate_expr(q, filter),
    }
}

/// `required` added to the optional `current` condition.
pub open spec fn joined(current: Option<BoundExpr>, required: BoundExpr) -> BoundExpr {
    match current {
        Some(c) => BoundExpr::And(Box::new(c), Box::new(required)),
        None => required,
    }
}

/// A vector holding `x` alone.
pub(crate) fn single<T>(x: T) -> (r: Vec<T>)
    ensures
        r@ == seq![x],
{
    let mut v: Vec<T> = Vec::new();
    v.push(x);
    v
}

pub(crate) fn and_optional(current: Option<BoundExpr>, required: BoundExpr) -> (r: BoundExpr)
    ensures
        r == joined(current, required),
{
    match current {
        Some(c) => BoundExpr::And(Box::new(c), Box::new(required)),
        None => required,
    }
}

/// Why `returning` asks for more than the columns in `allowed`: a
/// returned value must be one of those columns, as it is.
pub open spec fn returning_refusal(ps: Seq<BoundProjection>, allowed: ColumnSet) -> Option<PolicyError>
    decreases ps.len(),
{
    if ps.len() == 0 {
        None
    } else {
        first_refusal(
            returning_refusal(ps.drop_last(), allowed),
            match ps.last().expression {
                BoundExpr::Column(c) => if allowed.has(c.id) {
                    None
                } else {
                    Some(PolicyError::ForbiddenColumn)
                },
                _ => Some(PolicyError::ForbiddenColumnContext),
            },
        )
    }
}

proof fn lemma_returning_refusal_stays(ps: Seq<BoundProjection>, allowed: ColumnSet, i: int)
    requires
        0 <= i <= ps.len(),
        returning_refusal(ps.take(i), allowed) is Some,
    ensures
        returning_refusal(ps, allowed) == returning_refusal(ps.take(i), allowed),
    decreases ps.len() - i,
{
    if i < ps.len() {
        assert(ps.take(i + 1).drop_last() =~= ps.take(i));
        lemma_returning_refusal_stays(ps, allowed, i + 1);
    } else {
        assert(ps.take(i) =~= ps);
    }
}

fn validate_returning(returning: &Vec<BoundProjection>, allowed: &ColumnSet) -> (r: Result<
    (),
    PolicyError,
>)
    ensures
        match returning_refusal(returning@, *allowed) {
            Some(e) => r == Err::<(), PolicyError>(e),
            None => r is Ok,
        },
{
    let ghost all = returning@;
    let mut i: usize = 0;
    while i < returning.len()
        invariant
            all == returning@,
            i <= all.len(),
            returning_refusal(all.take(i as int), *allowed) is None,
        decreases returning.len() - i,
    {
        assert(all.take(i + 1).drop_last() =~= all.take(i as int));
        assert(all.take(i + 1).last() == all[i as int]);
        let refusal = match &returning[i].expression {
            BoundExpr::Column(column) => if allowed.contains(column.id) {
                None
            } else {
                Some(PolicyError::ForbiddenColumn)
            },
            _ => Some(PolicyError::ForbiddenColumnContext),
        };
        match refusal {
            Some(e) => {
                proof {
                    lemma_returning_refusal_stays(all, *allowed, i + 1);
                }
                return Err(e);
            },
            None => {},
        }
        i = i + 1;
    }
    assert(all.take(i as int) =~= all);
    Ok(())
}


/// Column `c` is one that a preset of `presets` writes.
pub open spec fn presets_write(presets: Seq<Preset>, c: ColumnId) -> bool {
    exists|j: int| 0 <= j < presets.len() && (#[trigger] presets[j]).column == c
}

/// Whether `presets` write column `c`.
fn preset_writes(presets: &Vec<Preset>, c: ColumnId) -> (r: bool)
    ensures
        r == presets_write(presets@, c),
{
    let mut j: usize = 0;
    while j < presets.len()
        invariant
            j <= presets@.len(),
            forall|k: int| 0 <= k < j ==> (#[trigger] presets@[k]).column != c,
        decreases presets.len() - j,
    {
        if presets[j].column == c {
            return true;
        }
        j = j + 1;
    }
    false
}

/// The caller's assignments write a column outside `columns` or one that
/// a preset owns.
pub open spec fn assignments_refusal(
    assignments: Seq<BoundAssignment>,
    columns: ColumnSet,
    presets: Seq<Preset>,
) -> Option<PolicyError> {
    if exists|i: int|
        0 <= i < assignments.len() && (!columns.has((#[trigger] assignments[i]).column.id)
            || presets_write(presets, assignments[i].column.id)) {
        Some(PolicyError::ForbiddenColumn)
    } else {
        None
    }
}

fn validate_assignments(assignments: &Vec<BoundAssignment>, columns: &ColumnSet, presets: &Vec<Preset>) -> (r:
    Result<(), PolicyError>)
    ensures
        match assignments_refusal(assignments@, *columns, presets@) {
            Some(e) => r == Err::<(), PolicyError>(e),
            None => r is Ok,
        },
{
    let mut i: usize = 0;
    while i < assignments.len()
        invariant
            i <= assignments@.len(),
            forall|j: int|
                0 <= j < i ==> columns.has((#[trigger] assignments@[j]).column.id) && !presets_write(
                    presets@,
                    assignments@[j].column.id,
                ),
        decreases assignments.len() - i,
    {
        let id = assignments[i].column.id;
        if !columns.contains(id) || preset_writes(presets, id) {
            assert(!columns.has(assignments@[i as int].column.id) || presets_write(
                presets@,
                assignments@[i as int].column.id,
            ));
            return Err(PolicyError::ForbiddenColumn);
        }
        i = i + 1;
    }
    Ok(())
}

/// The first refusal among the operands of `presets`.
pub open spec fn presets_refusal(presets: Seq<Preset>, session: TrustedSession) -> Option<PolicyError>
    decreases presets.len(),
{
    if presets.len() == 0 {
        None
    } else {
        first_refusal(
            presets_refusal(presets.drop_last(), session),
            operand_refusal(presets.last().operand, presets.last().logical_type, session),
        )
    }
}

proof fn lemma_presets_refusal_stays(ps: Seq<Preset>, session: TrustedSession, i: int)
    requires
        0 <= i <= ps.len(),
        presets_refusal(ps.take(i), session) is Some,
    ensures
        presets_refusal(ps, session) == presets_refusal(ps.take(i), session),
    decreases ps.len() - i,
{
    if i < ps.len() {
        assert(ps.take(i + 1).drop_last() =~= ps.take(i));
        lemma_presets_refusal_stays(ps, session, i + 1);
    } else {
        assert(ps.take(i) =~= ps);
    }
}

/// A session key that an operand of `presets` reads.
pub open spec fn presets_read(presets: Seq<Preset>, k: Seq<char>) -> bool {
    exists|j: int| 0 <= j < presets.len() && operand_reads((#[trigger] presets[j]).operand, k)
}

/// The column that preset `p` writes.
pub open spec fn preset_column(p: Preset) -> BoundColumn {
    BoundColumn { id: p.column, logical_type: p.logical_type, usage: ColumnUsage::Write }
}

/// `added` writes each preset of `presets`, in order.
pub open spec fn preset_writes_are(added: Seq<BoundAssignment>, presets: Seq<Preset>) -> bool {
    &&& added.len() == presets.len()
    &&& forall|j: int|
        0 <= j < added.len() ==> (#[trigger] added[j]).column == preset_column(presets[j]) && operand_expr(added[j].value, presets[j].operand)
}

/// Appends to `row` the assignment that each preset makes.
fn append_presets(
    row: &mut Vec<BoundAssignment>,
    presets: &Vec<Preset>,
    session: &TrustedSession,
    server_values: &mut TextMap<LogicalValue>,
) -> (r: Result<(), PolicyError>)
    requires
        old(server_values).wf(),
    ensures
        final(server_values).wf(),
        match r {
            Ok(()) => presets_refusal(presets@, *session) is None && final(row)@.len() == old(
                row,
            )@.len() + presets@.len() && final(row)@.take(old(row)@.len() as int) == old(row)@
                && preset_writes_are(final(row)@.skip(old(row)@.len() as int), presets@)
                && extends_with(
                *old(server_values),
                *final(server_values),
                |k: Seq<char>| presets_read(presets@, k),
                *session,
            ),
            Err(e) => presets_refusal(presets@, *session) == Some(e),
        },
{
    let ghost all = presets@;
    let ghost start = *server_values;
    let ghost base = row@;
    let mut j: usize = 0;
    proof {
        lemma_extends_none(start, *session);
        lemma_extends_same(
            start,
            start,
            |k: Seq<char>| false,
            |k: Seq<char>| exists|i: int| 0 <= i < 0 && operand_reads((#[trigger] all[i]).operand, k),
            *session,
        );
        assert(all.take(0) =~= Seq::<Preset>::empty());
    }
    while j < presets.len()
        invariant
            all == presets@,
            j <= all.len(),
            server_values.wf(),
            presets_refusal(all.take(j as int), *session) is None,
            row@.len() == base.len() + j,
            row@.take(base.len() as int) == base,
            forall|i: int|
                0 <= i < j ==> (#[trigger] row@[base.len() + i]).column == preset_column(all[i]) && operand_expr(row@[base.len() + i].value, all[i].operand),
            extends_with(
                start,
                *server_values,
                |k: Seq<char>| exists|i: int|
                    0 <= i < j && operand_reads((#[trigger] all[i]).operand, k),
                *session,
            ),
        decreases presets.len() - j,
    {
        let preset = &presets[j];
        let ghost mid = *server_values;
        proof {
            assert(all.take(j + 1).drop_last() =~= all.take(j as int));
            assert(all.take(j + 1).last() == all[j as int]);
        }
        let value = match instantiate_operand(&preset.operand, preset.logical_type, session, server_values) {
            Ok(v) => v,
            Err(e) => {
                proof {
                    lemma_presets_refusal_stays(all, *session, j + 1);
                }
                return Err(e);
            },
        };
        row.push(
            BoundAssignment {
                column: BoundColumn {
                    id: preset.column,
                    logical_type: preset.logical_type,
                    usage: ColumnUsage::Write,
                },
                value,
            },
        );
        proof {
            let before_reads = |k: Seq<char>| exists|i: int|
                0 <= i < j && operand_reads((#[trigger] all[i]).operand, k);
            let next_reads = |k: Seq<char>| operand_reads(all[j as int].operand, k);
            lemma_extends_chain(start, mid, *server_values, before_reads, next_reads, *session);
            assert forall|k: Seq<char>| #![trigger next_reads(k)] (before_reads(k) || next_reads(k))
                == (exists|i: int| 0 <= i < j + 1 && operand_reads((#[trigger] all[i]).operand, k)) by {
                if exists|i: int| 0 <= i < j + 1 && operand_reads((#[trigger] all[i]).operand, k) {
                    let i = choose|i: int| 0 <= i < j + 1 && operand_reads((#[trigger] all[i]).operand, k);
                    if i < j {
                        assert(before_reads(k));
                    }
                }
            }
            lemma_extends_same(
                start,
                *server_values,
                |k: Seq<char>| before_reads(k) || next_reads(k),
                |k: Seq<char>| exists|i: int|
                    0 <= i < j + 1 && operand_reads((#[trigger] all[i]).operand, k),
                *session,
            );
            assert(row@.take(base.len() as int) =~= base);
        }
        j = j + 1;
    }
    proof {
        assert(all.take(j as int) =~= all);
        let added = row@.skip(base.len() as int);
        assert forall|i: int| 0 <= i < added.len() implies (#[trigger] added[i]).column == preset_column(all[i]) && operand_expr(added[i].value, all[i].operand) by {
            assert(added[i] == row@[base.len() + i]);
        }
    }
    Ok(())
}

/// The server values are exactly the session values that `reads` names.
pub open spec fn bound_exactly(
    map: TextMap<LogicalValue>,
    reads: spec_fn(Seq<char>) -> bool,
    session: TrustedSession,
) -> bool {
    &&& map.wf()
    &&& forall|n: Seq<char>| #[trigger] map.has_key(n) == introduced(reads, n)
    &&& forall|n: Seq<char>| introduced(reads, n) ==> #[trigger] binds(map, n, session)
}

pub proof fn lemma_bound_from_empty(
    start: TextMap<LogicalValue>,
    map: TextMap<LogicalValue>,
    reads: spec_fn(Seq<char>) -> bool,
    session: TrustedSession,
)
    requires
        start.entries().len() == 0,
        map.wf(),
        extends_with(start, map, reads, session),
    ensures
        bound_exactly(map, reads, session),
{
    assert forall|n: Seq<char>| #[trigger] map.has_key(n) == introduced(reads, n) by {
        assert(!start.has_key(n));
    }
}

/// The server values of a compiled plan carry compiler-owned names only:
/// a name without the compiler's prefix, as every caller's parameter name
/// is, never names one of them.
pub proof fn lemma_server_values_are_compiler_owned(
    map: TextMap<LogicalValue>,
    reads: spec_fn(Seq<char>) -> bool,
    session: TrustedSession,
    name: Seq<char>,
)
    requires
        bound_exactly(map, reads, session),
        !has_server_prefix(name),
    ensures
        !map.has_key(name),
{
    if map.has_key(name) {
        assert(introduced(reads, name));
        let head = server_prefix() + "session_"@;
        assert(name.take(head.len() as int) == head);
        assert(name.take(server_prefix().len() as int) =~= server_prefix());
        assert(server_prefix().is_prefix_of(name));
    }
}

/// The account of a single-resource statement with one applied policy.
pub open spec fn single_explain(
    x: Explain,
    operation: OperationKind,
    r: ResourceId,
    id: PolicyId,
    st: BoundStatement,
) -> bool {
    &&& x.operation == operation
    &&& x.resource == Some(r)
    &&& x.resources@ == seq![r]
    &&& forall|c: ColumnId| #[trigger] x.referenced_columns.has(c) == statement_reads(st, c)
    &&& x.applied_policies@ == seq![id]
    &&& x.policy_limit is None
}

/// Why a delete cannot be compiled for `session`.
pub open spec fn delete_refusal(b: PolicyBundle, st: BoundStatement, session: TrustedSession) -> Option<
    PolicyError,
> {
    match st {
        BoundStatement::Delete(d) => match delete_policy_of(b, d.resource, session.role_spec()@) {
            None => Some(PolicyError::MissingPolicy),
            Some(p) => first_refusal(
                returning_refusal(d.returning@, p.returning),
                predicate_refusal(p.filter, session),
            ),
        },
        _ => Some(PolicyError::UnsupportedCapability),
    }
}

/// `out` is the delete `st` with the role's `delete` policy applied.
pub open spec fn delete_compiled(
    out: CompileOutput,
    b: PolicyBundle,
    st: BoundStatement,
    session: TrustedSession,
) -> bool {
    match st {
        BoundStatement::Delete(d) => match delete_policy_of(b, d.resource, session.role_spec()@) {
            Some(p) => match out.plan.statement {
                BoundStatement::Delete(x) => {
                    &&& x.resource == d.resource
                    &&& x.returning == d.returning
                    &&& x.predicate matches Some(q) && restricted(q, d.predicate, p.filter)
                    &&& out.plan.applied_policies@ == seq![p.id]
                    &&& bound_exactly(
                        out.plan.server_values,
                        |k: Seq<char>| predicate_reads(p.filter, k),
                        session,
                    )
                    &&& out.plan.policy_limit is None
                    &&& out.plan.operation_check is None
                    &&& out.plan.expected_affected_rows is None
                    &&& out.plan.expected_result_rows is None
                    &&& single_explain(out.explain, OperationKind::Delete, d.resource, p.id, st)
                },
                _ => false,
            },
            None => false,
        },
        _ => false,
    }
}


/// Why an update cannot be compiled for `session`.
pub open spec fn update_refusal(b: PolicyBundle, st: BoundStatement, session: TrustedSession) -> Option<
    PolicyError,
> {
    match st {
        BoundStatement::Update(u) => match update_policy_of(b, u.resource, session.role_spec()@) {
            None => Some(PolicyError::MissingPolicy),
            Some(p) => first_refusal(
                returning_refusal(u.returning@, p.returning),
                first_refusal(
                    assignments_refusal(u.assignments@, p.columns, p.presets@),
                    first_refusal(
                        presets_refusal(p.presets@, session),
                        first_refusal(
                            predicate_refusal(p.filter, session),
                            predicate_refusal(p.check, session),
                        ),
                    ),
                ),
            ),
        },
        _ => Some(PolicyError::UnsupportedCapability),
    }
}

/// `after` is the caller's `before` followed by the role's presets.
pub open spec fn with_presets(after: Seq<BoundAssignment>, before: Seq<BoundAssignment>, presets: Seq<Preset>) -> bool {
    &&& after.len() == before.len() + presets.len()
    &&& after.take(before.len() as int) == before
    &&& preset_writes_are(after.skip(before.len() as int), presets)
}

/// `out` is the update `st` with the role's `update` policy applied.
pub open spec fn update_compiled(
    out: CompileOutput,
    b: PolicyBundle,
    st: BoundStatement,
    session: TrustedSession,
) -> bool {
    match st {
        BoundStatement::Update(u) => match update_policy_of(b, u.resource, session.role_spec()@) {
            Some(p) => match out.plan.statement {
                BoundStatement::Update(x) => {
                    &&& x.resource == u.resource
                    &&& x.returning == u.returning
                    &&& with_presets(x.assignments@, u.assignments@, p.presets@)
                    &&& x.predicate matches Some(q) && restricted(q, u.predicate, p.filter)
                    &&& out.plan.operation_check matches Some(c) && predicate_expr(c, p.check)
                    &&& out.plan.applied_policies@ == seq![p.id]
                    &&& bound_exactly(
                        out.plan.server_values,
                        |k: Seq<char>| presets_read(p.presets@, k) || predicate_reads(p.filter, k)
                            || predicate_reads(p.check, k),
                        session,
                    )
                    &&& out.plan.policy_limit is None
                    &&& out.plan.expected_affected_rows is None
                    &&& out.plan.expected_result_rows is None
                    &&& single_explain(out.explain, OperationKind::Update, u.resource, p.id, st)
                },
                _ => false,
            },
            None => false,
        },
        _ => false,
    }
}

/// The first refusal met walking the rows of an insert: a row's own
/// columns, then the presets added to it.
pub open spec fn rows_refusal(rows: Seq<Vec<BoundAssignment>>, p: InsertPolicy, session: TrustedSession) -> Option<
    PolicyError,
>
    decreases rows.len(),
{
    if rows.len() == 0 {
        None
    } else {
        first_refusal(
            rows_refusal(rows.drop_last(), p, session),
            first_refusal(
                assignments_refusal(rows.last()@, p.columns, p.presets@),
                presets_refusal(p.presets@, session),
            ),
        )
    }
}

proof fn lemma_rows_refusal_stays(rows: Seq<Vec<BoundAssignment>>, p: InsertPolicy, session: TrustedSession, i: int)
    requires
        0 <= i <= rows.len(),
        rows_refusal(rows.take(i), p, session) is Some,
    ensures
        rows_refusal(rows, p, session) == rows_refusal(rows.take(i), p, session),
    decreases rows.len() - i,
{
    if i < rows.len() {
        assert(rows.take(i + 1).drop_last() =~= rows.take(i));
        lemma_rows_refusal_stays(rows, p, session, i + 1);
    } else {
        assert(rows.take(i) =~= rows);
    }
}

/// Why an insert cannot be compiled for `session`.
pub open spec fn insert_refusal(b: PolicyBundle, st: BoundStatement, session: TrustedSession) -> Option<
    PolicyError,
> {
    match st {
        BoundStatement::Insert(i) => match insert_policy_of(b, i.resource, session.role_spec()@) {
            None => Some(PolicyError::MissingPolicy),
            Some(p) => first_refusal(
                returning_refusal(i.returning@, p.returning),
                first_refusal(rows_refusal(i.rows@, p, session), predicate_refusal(p.check, session)),
            ),
        },
        _ => Some(PolicyError::UnsupportedCapability),
    }
}

/// `out` is the insert `st` with the role's `insert` policy applied.
pub open spec fn insert_compiled(
    out: CompileOutput,
    b: PolicyBundle,
    st: BoundStatement,
    session: TrustedSession,
) -> bool {
    match st {
        BoundStatement::Insert(i) => match insert_policy_of(b, i.resource, session.role_spec()@) {
            Some(p) => match out.plan.statement {
                BoundStatement::Insert(x) => {
                    &&& x.resource == i.resource
                    &&& x.returning == i.returning
                    &&& x.rows@.len() == i.rows@.len()
                    &&& forall|r: int|
                        0 <= r < x.rows@.len() ==> with_presets(
                            (#[trigger] x.rows@[r])@,
                            i.rows@[r]@,
                            p.presets@,
                        )
                    &&& out.plan.operation_check matches Some(c) && predicate_expr(c, p.check)
                    &&& out.plan.applied_policies@ == seq![p.id]
                    &&& bound_exactly(
                        out.plan.server_values,
                        |k: Seq<char>| (i.rows@.len() > 0 && presets_read(p.presets@, k))
                            || predicate_reads(p.check, k),
                        session,
                    )
                    &&& out.plan.policy_limit is None
                    &&& out.plan.expected_affected_rows == Some(i.rows@.len() as u64)
                    &&& out.plan.expected_result_rows is None
                    &&& single_explain(out.explain, OperationKind::Insert, i.resource, p.id, st)
                },
                _ => false,
            },
            None => false,
        },
        _ => false,
    }
}

impl PolicyBundle {
    /// Applies the row filter and the separately granted `returning`
    /// columns of the role's `delete` policy.
    pub fn compile_delete(&self, statement: BoundStatement, session: &TrustedSession) -> (r: Result<
        CompileOutput,
        PolicyError,
    >)
        ensures
            match r {
                Err(e) => delete_refusal(*self, statement, *session) == Some(e),
                Ok(out) => delete_refusal(*self, statement, *session) is None && delete_compiled(
                    out,
                    *self,
                    statement,
                    *session,
                ),
            },
    {
        let referenced = referenced_columns(&statement);
        let delete = match statement {
            BoundStatement::Delete(d) => d,
            _ => return Err(PolicyError::UnsupportedCapability),
        };
        let policy = match self.policies(delete.resource) {
            Some(entry) => match entry.delete.get(session.role().as_str()) {
                Some(p) => p,
                None => return Err(PolicyError::MissingPolicy),
            },
            None => return Err(PolicyError::MissingPolicy),
        };
        match validate_returning(&delete.returning, &policy.returning) {
            Err(e) => return Err(e),
            Ok(()) => {},
        }
        let mut server_values: TextMap<LogicalValue> = TextMap::new();
        let ghost start = server_values;
        let filter = match instantiate_predicate(&policy.filter, session, &mut server_values) {
            Ok(f) => f,
            Err(e) => return Err(e),
        };
        proof {
            lemma_bound_from_empty(
                start,
                server_values,
                |k: Seq<char>| predicate_reads(policy.filter, k),
                *session,
            );
        }
        let resource = delete.resource;
        let protected = crate::ir::BoundDelete {
            resource,
            predicate: Some(and_optional(delete.predicate, filter)),
            returning: delete.returning,
        };
        Ok(
            CompileOutput {
                plan: ProtectedPlan {
                    statement: BoundStatement::Delete(protected),
                    applied_policies: single(policy.id),
                    server_values,
                    policy_limit: None,
                    operation_check: None,
                    expected_affected_rows: None,
                    expected_result_rows: None,
                },
                explain: Explain {
                    operation: OperationKind::Delete,
                    resource: Some(resource),
                    resources: single(resource),
                    referenced_columns: referenced,
                    applied_policies: single(policy.id),
                    policy_limit: None,
                },
            },
        )
    }
    /// Applies the writable columns, presets, row filter, post-state check
    /// and `returning` columns of the role's `update` policy.
    pub fn compile_update(&self, statement: BoundStatement, session: &TrustedSession) -> (r: Result<
        CompileOutput,
        PolicyError,
    >)
        ensures
            match r {
                Err(e) => update_refusal(*self, statement, *session) == Some(e),
                Ok(out) => update_refusal(*self, statement, *session) is None && update_compiled(
                    out,
                    *self,
                    statement,
                    *session,
                ),
            },
    {
        let referenced = referenced_columns(&statement);
        let update = match statement {
            BoundStatement::Update(u) => u,
            _ => return Err(PolicyError::UnsupportedCapability),
        };
        let policy = match self.policies(update.resource) {
            Some(entry) => match entry.update.get(session.role().as_str()) {
                Some(p) => p,
                None => return Err(PolicyError::MissingPolicy),
            },
            None => return Err(PolicyError::MissingPolicy),
        };
        match validate_returning(&update.returning, &policy.returning) {
            Err(e) => return Err(e),
            Ok(()) => {},
        }
        match validate_assignments(&update.assignments, &policy.columns, &policy.presets) {
            Err(e) => return Err(e),
            Ok(()) => {},
        }
        let mut server_values: TextMap<LogicalValue> = TextMap::new();
        let ghost start = server_values;
        let mut assignments = update.assignments;
        match append_presets(&mut assignments, &policy.presets, session, &mut server_values) {
            Err(e) => return Err(e),
            Ok(()) => {},
        }
        let ghost after_presets = server_values;
        let filter = match instantiate_predicate(&policy.filter, session, &mut server_values) {
            Ok(f) => f,
            Err(e) => return Err(e),
        };
        let ghost after_filter = server_values;
        let check = match instantiate_predicate(&policy.check, session, &mut server_values) {
            Ok(c) => c,
            Err(e) => return Err(e),
        };
        proof {
            let r1 = |k: Seq<char>| presets_read(policy.presets@, k);
            let r2 = |k: Seq<char>| predicate_reads(policy.filter, k);
            let r3 = |k: Seq<char>| predicate_reads(policy.check, k);
            lemma_extends_chain(start, after_presets, after_filter, r1, r2, *session);
            lemma_extends_chain(
                start,
                after_filter,
                server_values,
                |k: Seq<char>| r1(k) || r2(k),
                r3,
                *session,
            );
            lemma_extends_same(
                start,
                server_values,
                |k: Seq<char>| (r1(k) || r2(k)) || r3(k),
                |k: Seq<char>| presets_read(policy.presets@, k) || predicate_reads(policy.filter, k)
                    || predicate_reads(policy.check, k),
                *session,
            );
            lemma_bound_from_empty(
                start,
                server_values,
                |k: Seq<char>| presets_read(policy.presets@, k) || predicate_reads(policy.filter, k)
                    || predicate_reads(policy.check, k),
                *session,
            );
        }
        let resource = update.resource;
        let protected = crate::ir::BoundUpdate {
            resource,
            assignments,
            predicate: Some(and_optional(update.predicate, filter)),
            returning: update.returning,
        };
        Ok(
            CompileOutput {
                plan: ProtectedPlan {
                    statement: BoundStatement::Update(protected),
                    applied_policies: single(policy.id),
                    server_values,
                    policy_limit: None,
                    operation_check: Some(check),
                    expected_affected_rows: None,
                    expected_result_rows: None,
                },
                explain: Explain {
                    operation: OperationKind::Update,
                    resource: Some(resource),
                    resources: single(resource),
                    referenced_columns: referenced,
                    applied_policies: single(policy.id),
                    policy_limit: None,
                },
            },
        )
    }

    /// Applies the writable columns, presets, post-state check and
    /// `returning` columns of the role's `insert` policy to every row.
    pub fn compile_insert(&self, statement: BoundStatement, session: &TrustedSession) -> (r: Result<
        CompileOutput,
        PolicyError,
    >)
        ensures
            match r {
                Err(e) => insert_refusal(*self, statement, *session) == Some(e),
                Ok(out) => insert_refusal(*self, statement, *session) is None && insert_compiled(
                    out,
                    *self,
                    statement,
                    *session,
                ),
            },
    {
        let referenced = referenced_columns(&statement);
        let ghost st0 = statement;
        let insert = match statement {
            BoundStatement::Insert(i) => i,
            _ => return Err(PolicyError::UnsupportedCapability),
        };
        let policy = match self.policies(insert.resource) {
            Some(entry) => match entry.insert.get(session.role().as_str()) {
                Some(p) => p,
                None => return Err(PolicyError::MissingPolicy),
            },
            None => return Err(PolicyError::MissingPolicy),
        };
        match validate_returning(&insert.returning, &policy.returning) {
            Err(e) => return Err(e),
            Ok(()) => {},
        }
        let ghost original = insert.rows@;
        let ghost refusal = first_refusal(
            rows_refusal(original, *policy, *session),
            predicate_refusal(policy.check, *session),
        );
        assert(insert_refusal(*self, st0, *session) == refusal);
        let mut server_values: TextMap<LogicalValue> = TextMap::new();
        let ghost start = server_values;
        let mut rows = insert.rows;
        let mut protected_rows: Vec<Vec<BoundAssignment>> = Vec::new();
        let mut k: usize = 0;
        assert(original.take(0) =~= Seq::<Vec<BoundAssignment>>::empty());
        assert(rows@.skip(0) =~= original);
        assert(original.len() == rows.len());
        while rows.len() > 0
            invariant
                original.len() == k + rows@.len(),
                original.len() <= usize::MAX,
                rows@ == original.skip(k as int),
                server_values.wf(),
                start.entries().len() == 0,
                rows_refusal(original.take(k as int), *policy, *session) is None,
                protected_rows@.len() == k,
                forall|r: int|
                    0 <= r < k ==> with_presets(
                        (#[trigger] protected_rows@[r])@,
                        original[r]@,
                        policy.presets@,
                    ),
                k == 0 ==> server_values == start,
                k > 0 ==> extends_with(
                    start,
                    server_values,
                    |x: Seq<char>| presets_read(policy.presets@, x),
                    *session,
                ),
                insert_refusal(*self, st0, *session) == refusal,
                st0 == statement,
                refusal == first_refusal(
                    rows_refusal(original, *policy, *session),
                    predicate_refusal(policy.check, *session),
                ),
            decreases rows.len(),
        {
            let mut row = rows.remove(0);
            proof {
                assert(row == original[k as int]);
                assert(original.take(k + 1).drop_last() =~= original.take(k as int));
                assert(original.take(k + 1).last() == original[k as int]);
                assert(rows@ =~= original.skip(k + 1));
            }
            match validate_assignments(&row, &policy.columns, &policy.presets) {
                Err(e) => {
                    proof {
                        assert(rows_refusal(original.take(k + 1), *policy, *session) == Some(e));
                        lemma_rows_refusal_stays(original, *policy, *session, k + 1);
                    }
                    return Err(e);
                },
                Ok(()) => {},
            }
            let ghost before = server_values;
            let ghost checked = row@;
            match append_presets(&mut row, &policy.presets, session, &mut server_values) {
                Err(e) => {
                    proof {
                        assert(checked == original[k as int]@);
                        assert(assignments_refusal(original[k as int]@, policy.columns, policy.presets@) is None);
                        assert(rows_refusal(original.take(k + 1), *policy, *session) == Some(e));
                        lemma_rows_refusal_stays(original, *policy, *session, k + 1);
                    }
                    return Err(e);
                },
                Ok(()) => {},
            }
            proof {
                let reads = |x: Seq<char>| presets_read(policy.presets@, x);
                if k > 0 {
                    lemma_extends_chain(start, before, server_values, reads, reads, *session);
                    lemma_extends_same(
                        start,
                        server_values,
                        |x: Seq<char>| reads(x) || reads(x),
                        reads,
                        *session,
                    );
                }
            }
            protected_rows.push(row);
            k = k + 1;
        }
        let ghost after_rows = server_values;
        proof {
            assert(original.take(k as int) =~= original);
            if k == 0 {
                lemma_extends_none(start, *session);
                lemma_extends_same(
                    start,
                    start,
                    |x: Seq<char>| false,
                    |x: Seq<char>| original.len() > 0 && presets_read(policy.presets@, x),
                    *session,
                );
            } else {
                lemma_extends_same(
                    start,
                    server_values,
                    |x: Seq<char>| presets_read(policy.presets@, x),
                    |x: Seq<char>| original.len() > 0 && presets_read(policy.presets@, x),
                    *session,
                );
            }
        }
        let check = match instantiate_predicate(&policy.check, session, &mut server_values) {
            Ok(c) => c,
            Err(e) => return Err(e),
        };
        proof {
            let r1 = |x: Seq<char>| original.len() > 0 && presets_read(policy.presets@, x);
            let r2 = |x: Seq<char>| predicate_reads(policy.check, x);
            lemma_extends_chain(start, after_rows, server_values, r1, r2, *session);
            lemma_extends_same(
                start,
                server_values,
                |x: Seq<char>| r1(x) || r2(x),
                |x: Seq<char>| (original.len() > 0 && presets_read(policy.presets@, x))
                    || predicate_reads(policy.check, x),
                *session,
            );
            lemma_bound_from_empty(
                start,
                server_values,
                |x: Seq<char>| (original.len() > 0 && presets_read(policy.presets@, x))
                    || predicate_reads(policy.check, x),
                *session,
            );
        }
        let affected = protected_rows.len() as u64;
        let resource = insert.resource;
        let protected = crate::ir::BoundInsert {
            resource,
            rows: protected_rows,
            returning: insert.returning,
        };
        Ok(
            CompileOutput {
                plan: ProtectedPlan {
                    statement: BoundStatement::Insert(protected),
                    applied_policies: single(policy.id),
                    server_values,
                    policy_limit: None,
                    operation_check: Some(check),
                    expected_affected_rows: Some(affected),
                    expected_result_rows: None,
                },
                explain: Explain {
                    operation: OperationKind::Insert,
                    resource: Some(resource),
                    resources: single(resource),
                    referenced_columns: referenced,
                    applied_policies: single(policy.id),
                    policy_limit: None,
                },
            },
        )
    }
}

} // verus!
