//! The SQL surface that a deployment accepts: a bound statement is served
//! only where every expression in it is one that the deployment's
//! executor supports, and every row-number window is ordered.
use vstd::prelude::*;
use crate::ir::{BoundExpr, BoundJoin, BoundProjection, BoundSelect, BoundStatement};
use crate::scan::{lemma_operands_decrease, operands, operands_of, single_operand, single_operand_of};

verus! {

/// `e` stays on the supported surface: every part of it does, a nested
/// `EXISTS` select does as a whole, and every row-number window names at
/// least one ordering.
pub open spec fn basic_expr(e: BoundExpr) -> bool
    decreases e,
{
    proof {
        lemma_operands_decrease(e);
    }
    match operands(e) {
        Some(p) => basic_expr(p.0) && basic_expr(p.1),
        None => match single_operand(e) {
            Some(a) => basic_expr(a),
            None => match e {
                BoundExpr::ConditionalOutput { value, visible_if } => basic_expr(*value) && basic_expr(*visible_if),
                BoundExpr::Exists(s) => {
                    &&& forall|i: int| 0 <= i < s.joins@.len() ==> basic_expr(#[trigger] s.joins@[i].on)
                    &&& forall|i: int| 0 <= i < s.projections@.len() ==> basic_expr(#[trigger] s.projections@[i].expression)
                    &&& match s.predicate {
                        Some(x) => basic_expr(x),
                        None => true,
                    }
                    &&& match s.having {
                        Some(x) => basic_expr(x),
                        None => true,
                    }
                    &&& match s.limit {
                        Some(x) => basic_expr(x),
                        None => true,
                    }
                    &&& match s.offset {
                        Some(x) => basic_expr(x),
                        None => true,
                    }
                },
                BoundExpr::ScalarFunction { arguments, .. } => forall|i: int|
                    0 <= i < arguments@.len() ==> basic_expr(#[trigger] arguments@[i]),
                BoundExpr::In { expression, values, .. } => basic_expr(*expression) && forall|i: int|
                    0 <= i < values@.len() ==> basic_expr(#[trigger] values@[i]),
                BoundExpr::Case { branches, else_expression, .. } => (forall|i: int|
                    0 <= i < branches@.len() ==> basic_expr(#[trigger] branches@[i].0) && basic_expr(branches@[i].1))
                    && match else_expression {
                    Some(x) => basic_expr(*x),
                    None => true,
                },
                BoundExpr::RowNumber { order_by, .. } => order_by@.len() > 0,
                _ => true,
            },
        },
    }
}

/// Both the condition and the value of a `CASE` branch stay on the
/// supported surface.
pub open spec fn branch_basic(b: (BoundExpr, BoundExpr)) -> bool {
    basic_expr(b.0) && basic_expr(b.1)
}

/// An optional expression stays on the supported surface.
pub open spec fn opt_basic(e: Option<BoundExpr>) -> bool {
    match e {
        Some(x) => basic_expr(x),
        None => true,
    }
}

/// Every projection stays on the supported surface.
pub open spec fn projections_basic(ps: Seq<BoundProjection>) -> bool {
    forall|i: int| 0 <= i < ps.len() ==> basic_expr(#[trigger] ps[i].expression)
}

/// A select stays on the supported surface: its join conditions,
/// projections, filter, `HAVING`, `LIMIT` and `OFFSET`.
pub open spec fn select_basic(s: BoundSelect) -> bool {
    &&& forall|i: int| 0 <= i < s.joins@.len() ==> basic_expr(#[trigger] s.joins@[i].on)
    &&& projections_basic(s.projections@)
    &&& opt_basic(s.predicate)
    &&& opt_basic(s.having)
    &&& opt_basic(s.limit)
    &&& opt_basic(s.offset)
}

/// A bound statement is on the supported surface: a select as
/// `select_basic` says, a constant select with at least one projection, a
/// JSON collection select by its path and filter, and a mutation by its
/// values, filter and `RETURNING` list.
pub open spec fn statement_basic(st: BoundStatement) -> bool {
    match st {
        BoundStatement::Select(s) => select_basic(*s),
        BoundStatement::ConstantSelect(s) => s.projections@.len() > 0,
        BoundStatement::JsonCollectionSelect(s) => basic_expr(s.path) && opt_basic(s.predicate),
        BoundStatement::Insert(ins) => {
            &&& forall|r: int, a: int|
                0 <= r < ins.rows@.len() && 0 <= a < ins.rows@[r]@.len() ==> basic_expr(
                    #[trigger] ins.rows@[r]@[a].value,
                )
            &&& projections_basic(ins.returning@)
        },
        BoundStatement::Update(u) => {
            &&& forall|a: int| 0 <= a < u.assignments@.len() ==> basic_expr(#[trigger] u.assignments@[a].value)
            &&& opt_basic(u.predicate)
            &&& projections_basic(u.returning@)
        },
        BoundStatement::Delete(d) => opt_basic(d.predicate) && projections_basic(d.returning@),
    }
}

/// Whether the expression stays on the supported surface.
pub fn basic_expression(expression: &BoundExpr) -> (r: bool)
    ensures
        r == basic_expr(*expression),
    decreases expression,
{
    proof {
        lemma_operands_decrease(*expression);
    }
    match operands_of(expression) {
        Some((a, b)) => {
            return basic_expression(a) && basic_expression(b);
        },
        None => {},
    }
    match single_operand_of(expression) {
        Some(a) => {
            return basic_expression(a);
        },
        None => {},
    }
    match expression {
        BoundExpr::ConditionalOutput { value, visible_if } => basic_expression(&**value) && basic_expression(
            &**visible_if,
        ),
        BoundExpr::Exists(select) => {
            proof {
                assert(decreases_to!(expression => select.joins));
                assert(decreases_to!(expression => select.projections));
            }
            basic_joins(&select.joins) && basic_projections(&select.projections) && basic_option(&select.predicate)
                && basic_option(&select.having) && basic_option(&select.limit) && basic_option(&select.offset)
        },
        BoundExpr::ScalarFunction { arguments, .. } => basic_list(arguments),
        BoundExpr::In { expression: inner, values, .. } => basic_expression(&**inner) && basic_list(values),
        BoundExpr::Case { branches, else_expression, .. } => {
            let bb = basic_branches(branches);
            proof {
                if bb {
                    assert forall|i: int| 0 <= i < branches@.len() implies basic_expr(#[trigger] branches@[i].0)
                        && basic_expr(branches@[i].1) by {
                        assert(branch_basic(branches@[i]));
                    }
                }
            }
            bb && match else_expression {
                Some(x) => basic_expression(&**x),
                None => true,
            }
        },
        BoundExpr::RowNumber { order_by, .. } => order_by.len() > 0,
        _ => true,
    }
}

fn basic_branches(bs: &Vec<(BoundExpr, BoundExpr)>) -> (r: bool)
    ensures
        r == forall|i: int| 0 <= i < bs@.len() ==> #[trigger] branch_basic(bs@[i]),
    decreases bs,
{
    let mut i: usize = 0;
    while i < bs.len()
        invariant
            i <= bs@.len(),
            forall|j: int| 0 <= j < i ==> #[trigger] branch_basic(bs@[j]),
        decreases bs.len() - i,
    {
        proof {
            assert(decreases_to!(bs => bs@[i as int]));
            assert(decreases_to!(bs@[i as int] => bs@[i as int].0));
            assert(decreases_to!(bs@[i as int] => bs@[i as int].1));
        }
        let first = basic_expression(&bs[i].0);
        if !first {
            assert(!branch_basic(bs@[i as int]));
            return false;
        }
        let second = basic_expression(&bs[i].1);
        if !second {
            assert(!branch_basic(bs@[i as int]));
            return false;
        }
        assert(branch_basic(bs@[i as int]));
        i = i + 1;
    }
    true
}

fn basic_option(e: &Option<BoundExpr>) -> (r: bool)
    ensures
        r == opt_basic(*e),
    decreases e,
{
    match e {
        Some(x) => basic_expression(x),
        None => true,
    }
}

fn basic_list(es: &Vec<BoundExpr>) -> (r: bool)
    ensures
        r == forall|i: int| 0 <= i < es@.len() ==> basic_expr(#[trigger] es@[i]),
    decreases es,
{
    let mut i: usize = 0;
    while i < es.len()
        invariant
            i <= es@.len(),
            forall|j: int| 0 <= j < i ==> basic_expr(#[trigger] es@[j]),
        decreases es.len() - i,
    {
        proof {
            assert(decreases_to!(es => es@[i as int]));
        }
        if !basic_expression(&es[i]) {
            return false;
        }
        i = i + 1;
    }
    true
}

fn basic_projections(ps: &Vec<BoundProjection>) -> (r: bool)
    ensures
        r == projections_basic(ps@),
    decreases ps,
{
    let mut i: usize = 0;
    while i < ps.len()
        invariant
            i <= ps@.len(),
            forall|j: int| 0 <= j < i ==> basic_expr(#[trigger] ps@[j].expression),
        decreases ps.len() - i,
    {
        proof {
            assert(decreases_to!(ps => ps@[i as int]));
            assert(decreases_to!(ps@[i as int] => ps@[i as int].expression));
        }
        if !basic_expression(&ps[i].expression) {
            return false;
        }
        i = i + 1;
    }
    true
}

fn basic_joins(js: &Vec<BoundJoin>) -> (r: bool)
    ensures
        r == forall|i: int| 0 <= i < js@.len() ==> basic_expr(#[trigger] js@[i].on),
    decreases js,
{
    let mut i: usize = 0;
    while i < js.len()
        invariant
            i <= js@.len(),
            forall|j: int| 0 <= j < i ==> basic_expr(#[trigger] js@[j].on),
        decreases js.len() - i,
    {
        proof {
            assert(decreases_to!(js => js@[i as int]));
            assert(decreases_to!(js@[i as int] => js@[i as int].on));
        }
        if !basic_expression(&js[i].on) {
            return false;
        }
        i = i + 1;
    }
    true
}

/// Whether the select stays on the supported surface.
pub fn supported_select(select: &BoundSelect) -> (r: bool)
    ensures
        r == select_basic(*select),
{
    basic_joins(&select.joins) && basic_projections(&select.projections) && basic_option(&select.predicate)
        && basic_option(&select.having) && basic_option(&select.limit) && basic_option(&select.offset)
}

/// Whether the bound statement is one the deployment serves; the caller
/// answers `UnsupportedSql` for one that is not.
pub fn deployment_statement_supported(statement: &BoundStatement) -> (r: bool)
    ensures
        r == statement_basic(*statement),
{
    match statement {
        BoundStatement::Select(select) => supported_select(&**select),
        BoundStatement::ConstantSelect(select) => select.projections.len() > 0,
        BoundStatement::JsonCollectionSelect(select) => basic_expression(&select.path) && basic_option(
            &select.predicate,
        ),
        BoundStatement::Insert(insert) => {
            let mut r: usize = 0;
            while r < insert.rows.len()
                invariant
                    *statement == BoundStatement::Insert(*insert),
                    r <= insert.rows@.len(),
                    forall|q: int, a: int|
                        0 <= q < r && 0 <= a < insert.rows@[q]@.len() ==> basic_expr(
                            #[trigger] insert.rows@[q]@[a].value,
                        ),
                decreases insert.rows.len() - r,
            {
                let row = &insert.rows[r];
                let mut a: usize = 0;
                while a < row.len()
                    invariant
                        *statement == BoundStatement::Insert(*insert),
                        r < insert.rows@.len(),
                        *row == insert.rows@[r as int],
                        a <= row@.len(),
                        forall|q: int, b: int|
                            0 <= q < r && 0 <= b < insert.rows@[q]@.len() ==> basic_expr(
                                #[trigger] insert.rows@[q]@[b].value,
                            ),
                        forall|b: int| 0 <= b < a ==> basic_expr(#[trigger] row@[b].value),
                    decreases row.len() - a,
                {
                    if !basic_expression(&row[a].value) {
                        assert(!basic_expr(insert.rows@[r as int]@[a as int].value));
                        return false;
                    }
                    a = a + 1;
                }
                r = r + 1;
            }
            basic_projections(&insert.returning)
        },
        BoundStatement::Update(update) => {
            let mut a: usize = 0;
            while a < update.assignments.len()
                invariant
                    *statement == BoundStatement::Update(*update),
                    a <= update.assignments@.len(),
                    forall|b: int| 0 <= b < a ==> basic_expr(#[trigger] update.assignments@[b].value),
                decreases update.assignments.len() - a,
            {
                if !basic_expression(&update.assignments[a].value) {
                    assert(!basic_expr(update.assignments@[a as int].value));
                    return false;
                }
                a = a + 1;
            }
            basic_option(&update.predicate) && basic_projections(&update.returning)
        },
        BoundStatement::Delete(delete) => basic_option(&delete.predicate) && basic_projections(&delete.returning),
    }
}

} // verus!
