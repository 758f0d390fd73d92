//! What a bound statement refers to: the resources that its expressions
//! open and the Catalog columns that it reads or writes.
use vstd::prelude::*;
use crate::id_sets::{ColumnSet, ResourceSet};
use crate::identity::{ColumnId, ResourceId};
use crate::policy::PolicyError;
use crate::ir::{
    BoundAssignment, BoundColumn, BoundExpr, BoundJoin, BoundOrder, BoundProjection, BoundSelect,
    BoundStatement,
};

verus! {

/// The two operands of a two-operand expression.
pub open spec fn operands(e: BoundExpr) -> Option<(BoundExpr, BoundExpr)> {
    match e {
        BoundExpr::Equal(a, b) => Some((*a, *b)),
        BoundExpr::NotEqual(a, b) => Some((*a, *b)),
        BoundExpr::Less(a, b) => Some((*a, *b)),
        BoundExpr::LessEqual(a, b) => Some((*a, *b)),
        BoundExpr::Greater(a, b) => Some((*a, *b)),
        BoundExpr::GreaterEqual(a, b) => Some((*a, *b)),
        BoundExpr::And(a, b) => Some((*a, *b)),
        BoundExpr::Or(a, b) => Some((*a, *b)),
        BoundExpr::Like(a, b) => Some((*a, *b)),
        BoundExpr::Glob(a, b) => Some((*a, *b)),
        BoundExpr::Least(a, b) => Some((*a, *b)),
        BoundExpr::Concat(a, b) => Some((*a, *b)),
        _ => None,
    }
}

/// The operand of a one-operand expression.
pub open spec fn single_operand(e: BoundExpr) -> Option<BoundExpr> {
    match e {
        BoundExpr::Not(a) => Some(*a),
        BoundExpr::IsNull(a) => Some(*a),
        BoundExpr::CastText(a) => Some(*a),
        _ => None,
    }
}

pub proof fn lemma_operands_decrease(e: BoundExpr)
    ensures
        operands(e) matches Some(p) ==> decreases_to!(e => p.0) && decreases_to!(e => p.1),
        single_operand(e) matches Some(a) ==> decreases_to!(e => a),
{
}

/// The operands of a two-operand expression.
pub fn operands_of(e: &BoundExpr) -> (r: Option<(&BoundExpr, &BoundExpr)>)
    ensures
        match operands(*e) {
            Some(p) => r matches Some(q) && *q.0 == p.0 && *q.1 == p.1,
            None => r is None,
        },
{
    match e {
        BoundExpr::Equal(a, b) => Some((&**a, &**b)),
        BoundExpr::NotEqual(a, b) => Some((&**a, &**b)),
        BoundExpr::Less(a, b) => Some((&**a, &**b)),
        BoundExpr::LessEqual(a, b) => Some((&**a, &**b)),
        BoundExpr::Greater(a, b) => Some((&**a, &**b)),
        BoundExpr::GreaterEqual(a, b) => Some((&**a, &**b)),
        BoundExpr::And(a, b) => Some((&**a, &**b)),
        BoundExpr::Or(a, b) => Some((&**a, &**b)),
        BoundExpr::Like(a, b) => Some((&**a, &**b)),
        BoundExpr::Glob(a, b) => Some((&**a, &**b)),
        BoundExpr::Least(a, b) => Some((&**a, &**b)),
        BoundExpr::Concat(a, b) => Some((&**a, &**b)),
        _ => None,
    }
}

/// The operand of a one-operand expression.
pub fn single_operand_of(e: &BoundExpr) -> (r: Option<&BoundExpr>)
    ensures
        match single_operand(*e) {
            Some(a) => r matches Some(q) && *q == a,
            None => r is None,
        },
{
    match e {
        BoundExpr::Not(a) => Some(&**a),
        BoundExpr::IsNull(a) => Some(&**a),
        BoundExpr::CastText(a) => Some(&**a),
        _ => None,
    }
}

/// Resource `r` is opened by a nested select or a window in `e`.
pub open spec fn expr_opens(e: BoundExpr, r: ResourceId) -> bool
    decreases e,
{
    proof {
        lemma_operands_decrease(e);
    }
    match operands(e) {
        Some(p) => expr_opens(p.0, r) || expr_opens(p.1, r),
        None => match single_operand(e) {
            Some(a) => expr_opens(a, r),
            None => match e {
                BoundExpr::ConditionalOutput { value, visible_if } => expr_opens(*value, r)
                    || expr_opens(*visible_if, r),
                BoundExpr::Exists(s) => s.resource == r || projections_open(s.projections@, r) || (
                s.predicate matches Some(p) && expr_opens(p, r)),
                BoundExpr::ScalarFunction { arguments, .. } => exprs_open(arguments@, r),
                BoundExpr::In { expression, values, .. } => expr_opens(*expression, r) || exprs_open(
                    values@,
                    r,
                ),
                BoundExpr::Case { branches, else_expression, .. } => branches_open(branches@, r) || (
                else_expression matches Some(x) && expr_opens(*x, r)),
                BoundExpr::RowNumber { resource, .. } => resource == r,
                _ => false,
            },
        },
    }
}

pub open spec fn exprs_open(es: Seq<BoundExpr>, r: ResourceId) -> bool
    decreases es,
{
    exists|i: int| 0 <= i < es.len() && expr_opens(#[trigger] es[i], r)
}

pub open spec fn projections_open(ps: Seq<BoundProjection>, r: ResourceId) -> bool
    decreases ps,
{
    exists|i: int| 0 <= i < ps.len() && expr_opens(#[trigger] ps[i].expression, r)
}

pub open spec fn branches_open(bs: Seq<(BoundExpr, BoundExpr)>, r: ResourceId) -> bool
    decreases bs,
{
    exists|i: int| 0 <= i < bs.len() && (expr_opens(#[trigger] bs[i].0, r) || expr_opens(bs[i].1, r))
}

/// Adds the resources that nested selects and windows of `expression` open.
pub fn collect_expression_resources(expression: &BoundExpr, resources: &mut ResourceSet)
    ensures
        forall|x: ResourceId| #[trigger]
            final(resources).has(x) == (old(resources).has(x) || expr_opens(*expression, x)),
    decreases expression,
{
    proof {
        lemma_operands_decrease(*expression);
    }
    match operands_of(expression) {
        Some((a, b)) => {
            collect_expression_resources(a, resources);
            collect_expression_resources(b, resources);
            return;
        },
        None => {},
    }
    match single_operand_of(expression) {
        Some(a) => {
            collect_expression_resources(a, resources);
            return;
        },
        None => {},
    }
    match expression {
        BoundExpr::ConditionalOutput { value, visible_if } => {
            collect_expression_resources(&**value, resources);
            collect_expression_resources(&**visible_if, resources);
        },
        BoundExpr::Exists(select) => {
            resources.insert(select.resource);
            proof {
                assert(decreases_to!(expression => select.projections));
            }
            collect_projection_resources(&select.projections, resources);
            match &select.predicate {
                Some(p) => collect_expression_resources(p, resources),
                None => {},
            }
        },
        BoundExpr::ScalarFunction { arguments, .. } => {
            collect_exprs_resources(arguments, resources);
        },
        BoundExpr::In { expression: inner, values, .. } => {
            collect_expression_resources(&**inner, resources);
            collect_exprs_resources(values, resources);
        },
        BoundExpr::Case { branches, else_expression, .. } => {
            collect_branch_resources(branches, resources);
            match else_expression {
                Some(x) => collect_expression_resources(&**x, resources),
                None => {},
            }
        },
        BoundExpr::RowNumber { resource, .. } => {
            resources.insert(*resource);
        },
        _ => {},
    }
}

fn collect_exprs_resources(es: &Vec<BoundExpr>, resources: &mut ResourceSet)
    ensures
        forall|x: ResourceId| #[trigger]
            final(resources).has(x) == (old(resources).has(x) || exprs_open(es@, x)),
    decreases es,
{
    let ghost start = *resources;
    let mut i: usize = 0;
    while i < es.len()
        invariant
            i <= es@.len(),
            forall|x: ResourceId| #[trigger]
                resources.has(x) == (start.has(x) || exists|j: int|
                    0 <= j < i && expr_opens(#[trigger] es@[j], x)),
        decreases es.len() - i,
    {
        proof {
            assert(decreases_to!(es => es@[i as int]));
        }
        collect_expression_resources(&es[i], resources);
        proof {
            assert forall|x: ResourceId| #[trigger] resources.has(x) == (start.has(x) || exists|j: int|
                0 <= j < i + 1 && expr_opens(#[trigger] es@[j], x)) by {
                if exists|j: int| 0 <= j < i + 1 && expr_opens(#[trigger] es@[j], x) {
                    let j = choose|j: int| 0 <= j < i + 1 && expr_opens(#[trigger] es@[j], x);
                    if j < i {
                    }
                }
            }
        }
        i = i + 1;
    }
}

fn collect_projection_resources(ps: &Vec<BoundProjection>, resources: &mut ResourceSet)
    ensures
        forall|x: ResourceId| #[trigger]
            final(resources).has(x) == (old(resources).has(x) || projections_open(ps@, x)),
    decreases ps,
{
    let ghost start = *resources;
    let mut i: usize = 0;
    while i < ps.len()
        invariant
            i <= ps@.len(),
            forall|x: ResourceId| #[trigger]
                resources.has(x) == (start.has(x) || exists|j: int|
                    0 <= j < i && expr_opens(#[trigger] ps@[j].expression, x)),
        decreases ps.len() - i,
    {
        proof {
            assert(decreases_to!(ps => ps@[i as int]));
            assert(decreases_to!(ps@[i as int] => ps@[i as int].expression));
        }
        collect_expression_resources(&ps[i].expression, resources);
        proof {
            assert forall|x: ResourceId| #[trigger] resources.has(x) == (start.has(x) || exists|j: int|
                0 <= j < i + 1 && expr_opens(#[trigger] ps@[j].expression, x)) by {
                if exists|j: int| 0 <= j < i + 1 && expr_opens(#[trigger] ps@[j].expression, x) {
                    let j = choose|j: int| 0 <= j < i + 1 && expr_opens(#[trigger] ps@[j].expression, x);
                    if j < i {
                    }
                }
            }
        }
        i = i + 1;
    }
}

fn collect_branch_resources(bs: &Vec<(BoundExpr, BoundExpr)>, resources: &mut ResourceSet)
    ensures
        forall|x: ResourceId| #[trigger]
            final(resources).has(x) == (old(resources).has(x) || branches_open(bs@, x)),
    decreases bs,
{
    let ghost start = *resources;
    let mut i: usize = 0;
    while i < bs.len()
        invariant
            i <= bs@.len(),
            forall|x: ResourceId| #[trigger]
                resources.has(x) == (start.has(x) || exists|j: int|
                    0 <= j < i && (expr_opens(#[trigger] bs@[j].0, x) || expr_opens(bs@[j].1, x))),
        decreases bs.len() - i,
    {
        proof {
            assert(decreases_to!(bs => bs@[i as int]));
            assert(decreases_to!(bs@[i as int] => bs@[i as int].0));
            assert(decreases_to!(bs@[i as int] => bs@[i as int].1));
        }
        collect_expression_resources(&bs[i].0, resources);
        collect_expression_resources(&bs[i].1, resources);
        proof {
            assert forall|x: ResourceId| #[trigger] resources.has(x) == (start.has(x) || exists|j: int|
                0 <= j < i + 1 && (expr_opens(#[trigger] bs@[j].0, x) || expr_opens(bs@[j].1, x))) by {
                if exists|j: int|
                    0 <= j < i + 1 && (expr_opens(#[trigger] bs@[j].0, x) || expr_opens(bs@[j].1, x)) {
                    let j = choose|j: int|
                        0 <= j < i + 1 && (expr_opens(#[trigger] bs@[j].0, x) || expr_opens(bs@[j].1, x));
                    if j < i {
                    }
                }
            }
        }
        i = i + 1;
    }
}

/// Column `c` is referenced by `e`, nested selects included.
pub open spec fn expr_reads(e: BoundExpr, c: ColumnId) -> bool
    decreases e,
{
    proof {
        lemma_operands_decrease(e);
    }
    match operands(e) {
        Some(p) => expr_reads(p.0, c) || expr_reads(p.1, c),
        None => match single_operand(e) {
            Some(a) => expr_reads(a, c),
            None => match e {
                BoundExpr::Column(col) => col.id == c,
                BoundExpr::ConditionalOutput { value, visible_if } => expr_reads(*value, c)
                    || expr_reads(*visible_if, c),
                BoundExpr::Exists(s) => select_reads(*s, c),
                BoundExpr::ScalarFunction { arguments, .. } => exprs_read(arguments@, c),
                BoundExpr::In { expression, values, .. } => expr_reads(*expression, c) || exprs_read(
                    values@,
                    c,
                ),
                BoundExpr::Case { branches, else_expression, .. } => branches_read(branches@, c) || (
                else_expression matches Some(x) && expr_reads(*x, c)),
                BoundExpr::RowNumber { partition_by, order_by, .. } => (exists|i: int|
                    0 <= i < partition_by@.len() && (#[trigger] partition_by@[i]).id == c)
                    || orders_read(order_by@, c),
                _ => false,
            },
        },
    }
}

pub open spec fn exprs_read(es: Seq<BoundExpr>, c: ColumnId) -> bool
    decreases es,
{
    exists|i: int| 0 <= i < es.len() && expr_reads(#[trigger] es[i], c)
}

pub open spec fn projections_read(ps: Seq<BoundProjection>, c: ColumnId) -> bool
    decreases ps,
{
    exists|i: int| 0 <= i < ps.len() && expr_reads(#[trigger] ps[i].expression, c)
}

pub open spec fn orders_read(os: Seq<BoundOrder>, c: ColumnId) -> bool
    decreases os,
{
    exists|i: int| 0 <= i < os.len() && expr_reads(#[trigger] os[i].expression, c)
}

pub open spec fn joins_read(js: Seq<BoundJoin>, c: ColumnId) -> bool
    decreases js,
{
    exists|i: int| 0 <= i < js.len() && expr_reads(#[trigger] js[i].on, c)
}

pub open spec fn branches_read(bs: Seq<(BoundExpr, BoundExpr)>, c: ColumnId) -> bool
    decreases bs,
{
    exists|i: int| 0 <= i < bs.len() && (expr_reads(#[trigger] bs[i].0, c) || expr_reads(bs[i].1, c))
}

pub open spec fn optional_reads(e: Option<BoundExpr>, c: ColumnId) -> bool
    decreases e,
{
    match e {
        Some(x) => expr_reads(x, c),
        None => false,
    }
}

/// Column `c` is referenced anywhere in select `s`.
pub open spec fn select_reads(s: BoundSelect, c: ColumnId) -> bool
    decreases s,
{
    ||| projections_read(s.projections@, c)
    ||| joins_read(s.joins@, c)
    ||| optional_reads(s.predicate, c)
    ||| optional_reads(s.having, c)
    ||| optional_reads(s.limit, c)
    ||| optional_reads(s.offset, c)
    ||| (exists|i: int| 0 <= i < s.group_by@.len() && (#[trigger] s.group_by@[i]).id == c)
    ||| orders_read(s.order_by@, c)
}

/// Column `c` is written or read by one of `assignments`.
pub open spec fn assignments_read(assignments: Seq<BoundAssignment>, c: ColumnId) -> bool {
    exists|i: int|
        0 <= i < assignments.len() && ((#[trigger] assignments[i]).column.id == c || expr_reads(
            assignments[i].value,
            c,
        ))
}

/// Column `c` is referenced by statement `st`.
pub open spec fn statement_reads(st: BoundStatement, c: ColumnId) -> bool {
    match st {
        BoundStatement::Select(s) => select_reads(*s, c),
        BoundStatement::ConstantSelect(_) => false,
        BoundStatement::JsonCollectionSelect(s) => s.document.id == c || expr_reads(s.path, c)
            || optional_reads(s.predicate, c),
        BoundStatement::Insert(i) => (exists|r: int|
            0 <= r < i.rows@.len() && assignments_read((#[trigger] i.rows@[r])@, c))
            || projections_read(i.returning@, c),
        BoundStatement::Update(u) => assignments_read(u.assignments@, c) || optional_reads(
            u.predicate,
            c,
        ) || projections_read(u.returning@, c),
        BoundStatement::Delete(d) => optional_reads(d.predicate, c) || projections_read(
            d.returning@,
            c,
        ),
    }
}

/// Adds the columns that `expression` references.
fn collect_expression_columns(expression: &BoundExpr, columns: &mut ColumnSet)
    ensures
        forall|x: ColumnId| #[trigger]
            final(columns).has(x) == (old(columns).has(x) || expr_reads(*expression, x)),
    decreases expression,
{
    proof {
        lemma_operands_decrease(*expression);
    }
    match operands_of(expression) {
        Some((a, b)) => {
            collect_expression_columns(a, columns);
            collect_expression_columns(b, columns);
            return;
        },
        None => {},
    }
    match single_operand_of(expression) {
        Some(a) => {
            collect_expression_columns(a, columns);
            return;
        },
        None => {},
    }
    match expression {
        BoundExpr::Column(column) => {
            columns.insert(column.id);
        },
        BoundExpr::ConditionalOutput { value, visible_if } => {
            collect_expression_columns(&**value, columns);
            collect_expression_columns(&**visible_if, columns);
        },
        BoundExpr::Exists(select) => {
            collect_select_columns(&**select, columns);
        },
        BoundExpr::ScalarFunction { arguments, .. } => {
            collect_exprs_columns(arguments, columns);
        },
        BoundExpr::In { expression: inner, values, .. } => {
            collect_expression_columns(&**inner, columns);
            collect_exprs_columns(values, columns);
        },
        BoundExpr::Case { branches, else_expression, .. } => {
            collect_branch_columns(branches, columns);
            match else_expression {
                Some(x) => collect_expression_columns(&**x, columns),
                None => {},
            }
        },
        BoundExpr::RowNumber { partition_by, order_by, .. } => {
            let ghost start = *columns;
            let mut i: usize = 0;
            while i < partition_by.len()
                invariant
                    i <= partition_by@.len(),
                    forall|x: ColumnId| #[trigger]
                        columns.has(x) == (start.has(x) || exists|j: int|
                            0 <= j < i && (#[trigger] partition_by@[j]).id == x),
                decreases partition_by.len() - i,
            {
                columns.insert(partition_by[i].id);
                proof {
                    assert forall|x: ColumnId| #[trigger] columns.has(x) == (start.has(x) || exists|j: int|
                        0 <= j < i + 1 && (#[trigger] partition_by@[j]).id == x) by {
                        if x == partition_by@[i as int].id {
                            assert(partition_by@[i as int].id == x);
                        }
                    }
                }
                i = i + 1;
            }
            collect_order_columns(order_by, columns);
        },
        _ => {},
    }
}

fn collect_exprs_columns(es: &Vec<BoundExpr>, columns: &mut ColumnSet)
    ensures
        forall|x: ColumnId| #[trigger]
            final(columns).has(x) == (old(columns).has(x) || exprs_read(es@, x)),
    decreases es,
{
    let ghost start = *columns;
    let mut i: usize = 0;
    while i < es.len()
        invariant
            i <= es@.len(),
            forall|x: ColumnId| #[trigger]
                columns.has(x) == (start.has(x) || exists|j: int|
                    0 <= j < i && expr_reads(#[trigger] es@[j], x)),
        decreases es.len() - i,
    {
        proof {
            assert(decreases_to!(es => es@[i as int]));
        }
        collect_expression_columns(&es[i], columns);
        proof {
            assert forall|x: ColumnId| #[trigger] columns.has(x) == (start.has(x) || exists|j: int|
                0 <= j < i + 1 && expr_reads(#[trigger] es@[j], x)) by {
                if exists|j: int| 0 <= j < i + 1 && expr_reads(#[trigger] es@[j], x) {
                    let j = choose|j: int| 0 <= j < i + 1 && expr_reads(#[trigger] es@[j], x);
                    if j < i {
                    }
                }
            }
        }
        i = i + 1;
    }
}

fn collect_projection_columns(ps: &Vec<BoundProjection>, columns: &mut ColumnSet)
    ensures
        forall|x: ColumnId| #[trigger]
            final(columns).has(x) == (old(columns).has(x) || projections_read(ps@, x)),
    decreases ps,
{
    let ghost start = *columns;
    let mut i: usize = 0;
    while i < ps.len()
        invariant
            i <= ps@.len(),
            forall|x: ColumnId| #[trigger]
                columns.has(x) == (start.has(x) || exists|j: int|
                    0 <= j < i && expr_reads(#[trigger] ps@[j].expression, x)),
        decreases ps.len() - i,
    {
        proof {
            assert(decreases_to!(ps => ps@[i as int]));
            assert(decreases_to!(ps@[i as int] => ps@[i as int].expression));
        }
        collect_expression_columns(&ps[i].expression, columns);
        proof {
            assert forall|x: ColumnId| #[trigger] columns.has(x) == (start.has(x) || exists|j: int|
                0 <= j < i + 1 && expr_reads(#[trigger] ps@[j].expression, x)) by {
                if exists|j: int| 0 <= j < i + 1 && expr_reads(#[trigger] ps@[j].expression, x) {
                    let j = choose|j: int| 0 <= j < i + 1 && expr_reads(#[trigger] ps@[j].expression, x);
                    if j < i {
                    }
                }
            }
        }
        i = i + 1;
    }
}

fn collect_order_columns(os: &Vec<BoundOrder>, columns: &mut ColumnSet)
    ensures
        forall|x: ColumnId| #[trigger]
            final(columns).has(x) == (old(columns).has(x) || orders_read(os@, x)),
    decreases os,
{
    let ghost start = *columns;
    let mut i: usize = 0;
    while i < os.len()
        invariant
            i <= os@.len(),
            forall|x: ColumnId| #[trigger]
                columns.has(x) == (start.has(x) || exists|j: int|
                    0 <= j < i && expr_reads(#[trigger] os@[j].expression, x)),
        decreases os.len() - i,
    {
        proof {
            assert(decreases_to!(os => os@[i as int]));
            assert(decreases_to!(os@[i as int] => os@[i as int].expression));
        }
        collect_expression_columns(&os[i].expression, columns);
        proof {
            assert forall|x: ColumnId| #[trigger] columns.has(x) == (start.has(x) || exists|j: int|
                0 <= j < i + 1 && expr_reads(#[trigger] os@[j].expression, x)) by {
                if exists|j: int| 0 <= j < i + 1 && expr_reads(#[trigger] os@[j].expression, x) {
                    let j = choose|j: int| 0 <= j < i + 1 && expr_reads(#[trigger] os@[j].expression, x);
                    if j < i {
                    }
                }
            }
        }
        i = i + 1;
    }
}

fn collect_join_columns(js: &Vec<BoundJoin>, columns: &mut ColumnSet)
    ensures
        forall|x: ColumnId| #[trigger]
            final(columns).has(x) == (old(columns).has(x) || joins_read(js@, x)),
    decreases js,
{
    let ghost start = *columns;
    let mut i: usize = 0;
    while i < js.len()
        invariant
            i <= js@.len(),
            forall|x: ColumnId| #[trigger]
                columns.has(x) == (start.has(x) || exists|j: int|
                    0 <= j < i && expr_reads(#[trigger] js@[j].on, x)),
        decreases js.len() - i,
    {
        proof {
            assert(decreases_to!(js => js@[i as int]));
            assert(decreases_to!(js@[i as int] => js@[i as int].on));
        }
        collect_expression_columns(&js[i].on, columns);
        proof {
            assert forall|x: ColumnId| #[trigger] columns.has(x) == (start.has(x) || exists|j: int|
                0 <= j < i + 1 && expr_reads(#[trigger] js@[j].on, x)) by {
                if exists|j: int| 0 <= j < i + 1 && expr_reads(#[trigger] js@[j].on, x) {
                    let j = choose|j: int| 0 <= j < i + 1 && expr_reads(#[trigger] js@[j].on, x);
                    if j < i {
                    }
                }
            }
        }
        i = i + 1;
    }
}

fn collect_branch_columns(bs: &Vec<(BoundExpr, BoundExpr)>, columns: &mut ColumnSet)
    ensures
        forall|x: ColumnId| #[trigger]
            final(columns).has(x) == (old(columns).has(x) || branches_read(bs@, x)),
    decreases bs,
{
    let ghost start = *columns;
    let mut i: usize = 0;
    while i < bs.len()
        invariant
            i <= bs@.len(),
            forall|x: ColumnId| #[trigger]
                columns.has(x) == (start.has(x) || exists|j: int|
                    0 <= j < i && (expr_reads(#[trigger] bs@[j].0, x) || expr_reads(bs@[j].1, x))),
        decreases bs.len() - i,
    {
        proof {
            assert(decreases_to!(bs => bs@[i as int]));
            assert(decreases_to!(bs@[i as int] => bs@[i as int].0));
            assert(decreases_to!(bs@[i as int] => bs@[i as int].1));
        }
        collect_expression_columns(&bs[i].0, columns);
        collect_expression_columns(&bs[i].1, columns);
        proof {
            assert forall|x: ColumnId| #[trigger] columns.has(x) == (start.has(x) || exists|j: int|
                0 <= j < i + 1 && (expr_reads(#[trigger] bs@[j].0, x) || expr_reads(bs@[j].1, x))) by {
                if exists|j: int|
                    0 <= j < i + 1 && (expr_reads(#[trigger] bs@[j].0, x) || expr_reads(bs@[j].1, x)) {
                    let j = choose|j: int|
                        0 <= j < i + 1 && (expr_reads(#[trigger] bs@[j].0, x) || expr_reads(bs@[j].1, x));
                    if j < i {
                    }
                }
            }
        }
        i = i + 1;
    }
}

fn collect_optional_columns(e: &Option<BoundExpr>, columns: &mut ColumnSet)
    ensures
        forall|x: ColumnId| #[trigger]
            final(columns).has(x) == (old(columns).has(x) || optional_reads(*e, x)),
    decreases e,
{
    match e {
        Some(x) => collect_expression_columns(x, columns),
        None => {},
    }
}

/// Adds the columns that select `select` references.
fn collect_select_columns(select: &BoundSelect, columns: &mut ColumnSet)
    ensures
        forall|x: ColumnId| #[trigger]
            final(columns).has(x) == (old(columns).has(x) || select_reads(*select, x)),
    decreases select,
{
    collect_projection_columns(&select.projections, columns);
    collect_join_columns(&select.joins, columns);
    collect_optional_columns(&select.predicate, columns);
    collect_optional_columns(&select.having, columns);
    collect_optional_columns(&select.limit, columns);
    collect_optional_columns(&select.offset, columns);
    let ghost start = *columns;
    let mut i: usize = 0;
    while i < select.group_by.len()
        invariant
            i <= select.group_by@.len(),
            forall|x: ColumnId| #[trigger]
                columns.has(x) == (start.has(x) || exists|j: int|
                    0 <= j < i && (#[trigger] select.group_by@[j]).id == x),
        decreases select.group_by.len() - i,
    {
        columns.insert(select.group_by[i].id);
        proof {
            assert forall|x: ColumnId| #[trigger] columns.has(x) == (start.has(x) || exists|j: int|
                0 <= j < i + 1 && (#[trigger] select.group_by@[j]).id == x) by {
                if x == select.group_by@[i as int].id {
                    assert(select.group_by@[i as int].id == x);
                }
            }
        }
        i = i + 1;
    }
    collect_order_columns(&select.order_by, columns);
}

fn collect_assignment_columns(assignments: &Vec<BoundAssignment>, columns: &mut ColumnSet)
    ensures
        forall|x: ColumnId| #[trigger]
            final(columns).has(x) == (old(columns).has(x) || assignments_read(assignments@, x)),
{
    let ghost start = *columns;
    let mut i: usize = 0;
    while i < assignments.len()
        invariant
            i <= assignments@.len(),
            forall|x: ColumnId| #[trigger]
                columns.has(x) == (start.has(x) || exists|j: int|
                    0 <= j < i && ((#[trigger] assignments@[j]).column.id == x || expr_reads(
                        assignments@[j].value,
                        x,
                    ))),
        decreases assignments.len() - i,
    {
        columns.insert(assignments[i].column.id);
        collect_expression_columns(&assignments[i].value, columns);
        proof {
            assert forall|x: ColumnId| #[trigger] columns.has(x) == (start.has(x) || exists|j: int|
                0 <= j < i + 1 && ((#[trigger] assignments@[j]).column.id == x || expr_reads(
                    assignments@[j].value,
                    x,
                ))) by {
                if exists|j: int|
                    0 <= j < i + 1 && ((#[trigger] assignments@[j]).column.id == x || expr_reads(
                        assignments@[j].value,
                        x,
                    )) {
                    let j = choose|j: int|
                        0 <= j < i + 1 && ((#[trigger] assignments@[j]).column.id == x
                            || expr_reads(assignments@[j].value, x));
                    if j < i {
                    }
                }
                if x == assignments@[i as int].column.id || expr_reads(assignments@[i as int].value, x) {
                    assert(0 <= i < i + 1);
                }
            }
        }
        i = i + 1;
    }
}

/// Every column that `statement` references, in ascending identity order.
pub fn referenced_columns(statement: &BoundStatement) -> (r: ColumnSet)
    ensures
        forall|x: ColumnId| #[trigger] r.has(x) == statement_reads(*statement, x),
{
    let mut columns = ColumnSet::new();
    match statement {
        BoundStatement::Select(select) => collect_select_columns(&**select, &mut columns),
        BoundStatement::ConstantSelect(_) => {},
        BoundStatement::JsonCollectionSelect(select) => {
            columns.insert(select.document.id);
            collect_expression_columns(&select.path, &mut columns);
            collect_optional_columns(&select.predicate, &mut columns);
        },
        BoundStatement::Insert(insert) => {
            let ghost start = columns;
            let mut r: usize = 0;
            while r < insert.rows.len()
                invariant
                    r <= insert.rows@.len(),
                    forall|x: ColumnId| #[trigger]
                        columns.has(x) == (start.has(x) || exists|j: int|
                            0 <= j < r && assignments_read((#[trigger] insert.rows@[j])@, x)),
                decreases insert.rows.len() - r,
            {
                collect_assignment_columns(&insert.rows[r], &mut columns);
                proof {
                    assert forall|x: ColumnId| #[trigger] columns.has(x) == (start.has(x) || exists|j: int|
                        0 <= j < r + 1 && assignments_read((#[trigger] insert.rows@[j])@, x)) by {
                        if exists|j: int|
                            0 <= j < r + 1 && assignments_read((#[trigger] insert.rows@[j])@, x) {
                            let j = choose|j: int|
                                0 <= j < r + 1 && assignments_read((#[trigger] insert.rows@[j])@, x);
                            if j < r {
                            }
                        }
                    }
                }
                r = r + 1;
            }
            collect_projection_columns(&insert.returning, &mut columns);
        },
        BoundStatement::Update(update) => {
            collect_assignment_columns(&update.assignments, &mut columns);
            collect_optional_columns(&update.predicate, &mut columns);
            collect_projection_columns(&update.returning, &mut columns);
        },
        BoundStatement::Delete(delete) => {
            collect_optional_columns(&delete.predicate, &mut columns);
            collect_projection_columns(&delete.returning, &mut columns);
        },
    }
    columns
}

/// The members of a column set, as a set.
pub open spec fn column_set(s: ColumnSet) -> Set<ColumnId> {
    Set::new(|c: ColumnId| s.has(c))
}

/// The first of two refusals.
pub open spec fn first_refusal(a: Option<PolicyError>, b: Option<PolicyError>) -> Option<PolicyError> {
    if a is Some {
        a
    } else {
        b
    }
}

/// Why a caller's expression `e` may not stand when only the columns in
/// `allowed` may be read: the first refusal met walking it left to right.
/// A conditionally shown value is never the caller's to write.
pub open spec fn client_refusal(e: BoundExpr, allowed: Set<ColumnId>) -> Option<PolicyError>
    decreases e,
{
    proof {
        lemma_operands_decrease(e);
    }
    match operands(e) {
        Some(p) => first_refusal(client_refusal(p.0, allowed), client_refusal(p.1, allowed)),
        None => match single_operand(e) {
            Some(a) => client_refusal(a, allowed),
            None => match e {
                BoundExpr::Column(c) => if allowed.contains(c.id) {
                    None
                } else {
                    Some(PolicyError::ForbiddenColumn)
                },
                BoundExpr::RowNumber { partition_by, order_by, .. } => first_refusal(
                    partition_refusal(partition_by@, allowed),
                    orders_refusal(order_by@, allowed),
                ),
                BoundExpr::ScalarFunction { arguments, .. } => exprs_refusal(arguments@, allowed),
                BoundExpr::In { expression, values, .. } => first_refusal(
                    client_refusal(*expression, allowed),
                    exprs_refusal(values@, allowed),
                ),
                BoundExpr::ConditionalOutput { .. } => Some(PolicyError::ForbiddenColumnContext),
                BoundExpr::Case { branches, else_expression, .. } => first_refusal(
                    branches_refusal(branches@, allowed),
                    match else_expression {
                        Some(x) => client_refusal(*x, allowed),
                        None => None,
                    },
                ),
                BoundExpr::Exists(s) => first_refusal(
                    projections_refusal(s.projections@, allowed),
                    match s.predicate {
                        Some(p) => client_refusal(p, allowed),
                        None => None,
                    },
                ),
                _ => None,
            },
        },
    }
}

pub open spec fn partition_refusal(cs: Seq<BoundColumn>, allowed: Set<ColumnId>) -> Option<PolicyError> {
    if exists|i: int| 0 <= i < cs.len() && !allowed.contains(#[trigger] cs[i].id) {
        Some(PolicyError::ForbiddenColumn)
    } else {
        None
    }
}

pub open spec fn exprs_refusal(es: Seq<BoundExpr>, allowed: Set<ColumnId>) -> Option<PolicyError>
    decreases es,
{
    if es.len() == 0 {
        None
    } else {
        first_refusal(exprs_refusal(es.drop_last(), allowed), client_refusal(es.last(), allowed))
    }
}

pub open spec fn orders_refusal(os: Seq<BoundOrder>, allowed: Set<ColumnId>) -> Option<PolicyError>
    decreases os,
{
    if os.len() == 0 {
        None
    } else {
        first_refusal(
            orders_refusal(os.drop_last(), allowed),
            client_refusal(os.last().expression, allowed),
        )
    }
}

pub open spec fn projections_refusal(ps: Seq<BoundProjection>, allowed: Set<ColumnId>) -> Option<
    PolicyError,
>
    decreases ps,
{
    if ps.len() == 0 {
        None
    } else {
        first_refusal(
            projections_refusal(ps.drop_last(), allowed),
            client_refusal(ps.last().expression, allowed),
        )
    }
}

pub open spec fn branches_refusal(bs: Seq<(BoundExpr, BoundExpr)>, allowed: Set<ColumnId>) -> Option<
    PolicyError,
>
    decreases bs,
{
    if bs.len() == 0 {
        None
    } else {
        first_refusal(
            branches_refusal(bs.drop_last(), allowed),
            first_refusal(client_refusal(bs.last().0, allowed), client_refusal(bs.last().1, allowed)),
        )
    }
}

/// The outcome that a refusal gives.
pub open spec fn refused(e: Option<PolicyError>) -> Result<(), PolicyError> {
    match e {
        Some(x) => Err(x),
        None => Ok(()),
    }
}

/// Checks that a caller's expression reads only the columns in `allowed`.
pub fn validate_client_expression(expression: &BoundExpr, allowed: &ColumnSet) -> (r: Result<
    (),
    PolicyError,
>)
    ensures
        r == refused(client_refusal(*expression, column_set(*allowed))),
    decreases expression,
{
    proof {
        lemma_operands_decrease(*expression);
    }
    match operands_of(expression) {
        Some((a, b)) => {
            match validate_client_expression(a, allowed) {
                Err(e) => return Err(e),
                Ok(()) => {},
            }
            return validate_client_expression(b, allowed);
        },
        None => {},
    }
    match single_operand_of(expression) {
        Some(a) => {
            return validate_client_expression(a, allowed);
        },
        None => {},
    }
    match expression {
        BoundExpr::Column(column) => {
            if allowed.contains(column.id) {
                Ok(())
            } else {
                Err(PolicyError::ForbiddenColumn)
            }
        },
        BoundExpr::RowNumber { partition_by, order_by, .. } => {
            match validate_partition(partition_by, allowed) {
                Err(e) => return Err(e),
                Ok(()) => {},
            }
            validate_orders(order_by, allowed)
        },
        BoundExpr::ScalarFunction { arguments, .. } => validate_exprs(arguments, allowed),
        BoundExpr::In { expression: inner, values, .. } => {
            match validate_client_expression(&**inner, allowed) {
                Err(e) => return Err(e),
                Ok(()) => {},
            }
            validate_exprs(values, allowed)
        },
        BoundExpr::ConditionalOutput { .. } => Err(PolicyError::ForbiddenColumnContext),
        BoundExpr::Case { branches, else_expression, .. } => {
            match validate_branches(branches, allowed) {
                Err(e) => return Err(e),
                Ok(()) => {},
            }
            match else_expression {
                Some(x) => validate_client_expression(&**x, allowed),
                None => Ok(()),
            }
        },
        BoundExpr::Exists(select) => {
            proof {
                assert(decreases_to!(expression => select.projections));
            }
            match validate_projections(&select.projections, allowed) {
                Err(e) => return Err(e),
                Ok(()) => {},
            }
            match &select.predicate {
                Some(p) => validate_client_expression(p, allowed),
                None => Ok(()),
            }
        },
        _ => Ok(()),
    }
}

pub(crate) fn validate_partition(cs: &Vec<BoundColumn>, allowed: &ColumnSet) -> (r: Result<(), PolicyError>)
    ensures
        r == refused(partition_refusal(cs@, column_set(*allowed))),
{
    let mut i: usize = 0;
    while i < cs.len()
        invariant
            i <= cs@.len(),
            forall|j: int| 0 <= j < i ==> column_set(*allowed).contains(#[trigger] cs@[j].id),
        decreases cs.len() - i,
    {
        if !allowed.contains(cs[i].id) {
            assert(!column_set(*allowed).contains(cs@[i as int].id));
            return Err(PolicyError::ForbiddenColumn);
        }
        i = i + 1;
    }
    Ok(())
}

fn validate_exprs(es: &Vec<BoundExpr>, allowed: &ColumnSet) -> (r: Result<(), PolicyError>)
    ensures
        r == refused(exprs_refusal(es@, column_set(*allowed))),
    decreases es,
{
    let ghost all = es@;
    let ghost a = column_set(*allowed);
    let mut i: usize = 0;
    while i < es.len()
        invariant
            all == es@,
            a == column_set(*allowed),
            i <= all.len(),
            exprs_refusal(all.take(i as int), a) is None,
        decreases es.len() - i,
    {
        proof {
            assert(decreases_to!(es => es@[i as int]));
            assert(all.take(i + 1).drop_last() =~= all.take(i as int));
            assert(all.take(i + 1).last() == all[i as int]);
        }
        match validate_client_expression(&es[i], allowed) {
            Err(e) => {
                proof {
                    lemma_exprs_refusal_stays(all, a, i + 1);
                }
                return Err(e);
            },
            Ok(()) => {},
        }
        i = i + 1;
    }
    assert(all.take(i as int) =~= all);
    Ok(())
}

proof fn lemma_exprs_refusal_stays(es: Seq<BoundExpr>, a: Set<ColumnId>, i: int)
    requires
        0 <= i <= es.len(),
        exprs_refusal(es.take(i), a) is Some,
    ensures
        exprs_refusal(es, a) == exprs_refusal(es.take(i), a),
    decreases es.len() - i,
{
    if i < es.len() {
        assert(es.take(i + 1).drop_last() =~= es.take(i));
        lemma_exprs_refusal_stays(es, a, i + 1);
    } else {
        assert(es.take(i) =~= es);
    }
}

pub(crate) fn validate_orders(os: &Vec<BoundOrder>, allowed: &ColumnSet) -> (r: Result<(), PolicyError>)
    ensures
        r == refused(orders_refusal(os@, column_set(*allowed))),
    decreases os,
{
    let ghost all = os@;
    let ghost a = column_set(*allowed);
    let mut i: usize = 0;
    while i < os.len()
        invariant
            all == os@,
            a == column_set(*allowed),
            i <= all.len(),
            orders_refusal(all.take(i as int), a) is None,
        decreases os.len() - i,
    {
        proof {
            assert(decreases_to!(os => os@[i as int]));
            assert(decreases_to!(os@[i as int] => os@[i as int].expression));
            assert(all.take(i + 1).drop_last() =~= all.take(i as int));
            assert(all.take(i + 1).last() == all[i as int]);
        }
        match validate_client_expression(&os[i].expression, allowed) {
            Err(e) => {
                proof {
                    lemma_orders_refusal_stays(all, a, i + 1);
                }
                return Err(e);
            },
            Ok(()) => {},
        }
        i = i + 1;
    }
    assert(all.take(i as int) =~= all);
    Ok(())
}

proof fn lemma_orders_refusal_stays(os: Seq<BoundOrder>, a: Set<ColumnId>, i: int)
    requires
        0 <= i <= os.len(),
        orders_refusal(os.take(i), a) is Some,
    ensures
        orders_refusal(os, a) == orders_refusal(os.take(i), a),
    decreases os.len() - i,
{
    if i < os.len() {
        assert(os.take(i + 1).drop_last() =~= os.take(i));
        lemma_orders_refusal_stays(os, a, i + 1);
    } else {
        assert(os.take(i) =~= os);
    }
}

fn validate_projections(ps: &Vec<BoundProjection>, allowed: &ColumnSet) -> (r: Result<(), PolicyError>)
    ensures
        r == refused(projections_refusal(ps@, column_set(*allowed))),
    decreases ps,
{
    let ghost all = ps@;
    let ghost a = column_set(*allowed);
    let mut i: usize = 0;
    while i < ps.len()
        invariant
            all == ps@,
            a == column_set(*allowed),
            i <= all.len(),
            projections_refusal(all.take(i as int), a) is None,
        decreases ps.len() - i,
    {
        proof {
            assert(decreases_to!(ps => ps@[i as int]));
            assert(decreases_to!(ps@[i as int] => ps@[i as int].expression));
            assert(all.take(i + 1).drop_last() =~= all.take(i as int));
            assert(all.take(i + 1).last() == all[i as int]);
        }
        match validate_client_expression(&ps[i].expression, allowed) {
            Err(e) => {
                proof {
                    lemma_projections_refusal_stays(all, a, i + 1);
                }
                return Err(e);
            },
            Ok(()) => {},
        }
        i = i + 1;
    }
    assert(all.take(i as int) =~= all);
    Ok(())
}

proof fn lemma_projections_refusal_stays(ps: Seq<BoundProjection>, a: Set<ColumnId>, i: int)
    requires
        0 <= i <= ps.len(),
        projections_refusal(ps.take(i), a) is Some,
    ensures
        projections_refusal(ps, a) == projections_refusal(ps.take(i), a),
    decreases ps.len() - i,
{
    if i < ps.len() {
        assert(ps.take(i + 1).drop_last() =~= ps.take(i));
        lemma_projections_refusal_stays(ps, a, i + 1);
    } else {
        assert(ps.take(i) =~= ps);
    }
}

fn validate_branches(bs: &Vec<(BoundExpr, BoundExpr)>, allowed: &ColumnSet) -> (r: Result<
    (),
    PolicyError,
>)
    ensures
        r == refused(branches_refusal(bs@, column_set(*allowed))),
    decreases bs,
{
    let ghost all = bs@;
    let ghost a = column_set(*allowed);
    let mut i: usize = 0;
    while i < bs.len()
        invariant
            all == bs@,
            a == column_set(*allowed),
            i <= all.len(),
            branches_refusal(all.take(i as int), a) is None,
        decreases bs.len() - i,
    {
        proof {
            assert(decreases_to!(bs => bs@[i as int]));
            assert(decreases_to!(bs@[i as int] => bs@[i as int].0));
            assert(decreases_to!(bs@[i as int] => bs@[i as int].1));
            assert(all.take(i + 1).drop_last() =~= all.take(i as int));
            assert(all.take(i + 1).last() == all[i as int]);
        }
        match validate_client_expression(&bs[i].0, allowed) {
            Err(e) => {
                proof {
                    lemma_branches_refusal_stays(all, a, i + 1);
                }
                return Err(e);
            },
            Ok(()) => {},
        }
        match validate_client_expression(&bs[i].1, allowed) {
            Err(e) => {
                proof {
                    lemma_branches_refusal_stays(all, a, i + 1);
                }
                return Err(e);
            },
            Ok(()) => {},
        }
        i = i + 1;
    }
    assert(all.take(i as int) =~= all);
    Ok(())
}

proof fn lemma_branches_refusal_stays(bs: Seq<(BoundExpr, BoundExpr)>, a: Set<ColumnId>, i: int)
    requires
        0 <= i <= bs.len(),
        branches_refusal(bs.take(i), a) is Some,
    ensures
        branches_refusal(bs, a) == branches_refusal(bs.take(i), a),
    decreases bs.len() - i,
{
    if i < bs.len() {
        assert(bs.take(i + 1).drop_last() =~= bs.take(i));
        lemma_branches_refusal_stays(bs, a, i + 1);
    } else {
        assert(bs.take(i) =~= bs);
    }
}

} // verus!
