//! The caller's parameter values, checked against the Catalog contracts of
//! the columns they are compared with or written to.
use vstd::prelude::*;
use crate::catalog::Catalog;
use crate::contract::{comparer, contract_holds, value_satisfies_contract, NumericOrder};
use crate::emit::CompileError;
use crate::identity::LogicalValue;
use crate::ir::{BoundAssignment, BoundColumn, BoundExpr, BoundJoin, BoundOrder, BoundProjection, BoundStatement};
use crate::scan::{lemma_operands_decrease, operands, operands_of, single_operand, single_operand_of};
use crate::text_map::TextMap;

verus! {

/// The value given for parameter `name` meets the Catalog contract of
/// column `c`; a column the Catalog does not have accepts nothing.
pub open spec fn column_accepts<F: Fn(&LogicalValue, &String) -> Option<NumericOrder>>(
    f: F,
    c: BoundColumn,
    name: Seq<char>,
    catalog: Catalog,
    values: TextMap<LogicalValue>,
) -> bool {
    match catalog.column_with_id(c.id) {
        Some(d) => match values.spec_get(name) {
            Some(v) => contract_holds(f, v, d.value),
            None => false,
        },
        None => false,
    }
}

/// A column compared directly with a parameter, on either side, accepts
/// the parameter's value.
pub open spec fn pair_accepts<F: Fn(&LogicalValue, &String) -> Option<NumericOrder>>(
    f: F,
    l: BoundExpr,
    r: BoundExpr,
    catalog: Catalog,
    values: TextMap<LogicalValue>,
) -> bool {
    match (l, r) {
        (BoundExpr::Column(c), BoundExpr::ClientParameter { name, .. }) => column_accepts(f, c, name@, catalog, values),
        (BoundExpr::ClientParameter { name, .. }, BoundExpr::Column(c)) => column_accepts(f, c, name@, catalog, values),
        _ => true,
    }
}

/// A conjunction or disjunction, whose operands are not compared.
pub open spec fn is_logical(e: BoundExpr) -> bool {
    e is And || e is Or
}

/// A column tested for membership accepts each parameter in the list.
pub open spec fn items_accept<F: Fn(&LogicalValue, &String) -> Option<NumericOrder>>(
    f: F,
    e: BoundExpr,
    items: Seq<BoundExpr>,
    catalog: Catalog,
    values: TextMap<LogicalValue>,
) -> bool {
    match e {
        BoundExpr::Column(c) => forall|i: int|
            0 <= i < items.len() ==> match #[trigger] items[i] {
                BoundExpr::ClientParameter { name, .. } => column_accepts(f, c, name@, catalog, values),
                _ => true,
            },
        _ => true,
    }
}

/// Every parameter in `e` compared with a column meets that column's
/// contract.
pub open spec fn expr_contracts<F: Fn(&LogicalValue, &String) -> Option<NumericOrder>>(
    f: F,
    e: BoundExpr,
    catalog: Catalog,
    values: TextMap<LogicalValue>,
) -> bool
    decreases e,
{
    proof {
        lemma_operands_decrease(e);
    }
    match operands(e) {
        Some(p) => (is_logical(e) || pair_accepts(f, p.0, p.1, catalog, values)) && expr_contracts(f, p.0, catalog, values)
            && expr_contracts(f, p.1, catalog, values),
        None => match single_operand(e) {
            Some(a) => expr_contracts(f, a, catalog, values),
            None => match e {
                BoundExpr::ConditionalOutput { value, visible_if } => expr_contracts(f, *value, catalog, values)
                    && expr_contracts(f, *visible_if, catalog, values),
                BoundExpr::Exists(s) => (forall|i: int|
                    0 <= i < s.projections@.len() ==> expr_contracts(
                        f,
                        #[trigger] s.projections@[i].expression,
                        catalog,
                        values,
                    )) && match s.predicate {
                    Some(p) => expr_contracts(f, p, catalog, values),
                    None => true,
                },
                BoundExpr::ScalarFunction { arguments, .. } => forall|i: int|
                    0 <= i < arguments@.len() ==> expr_contracts(f, #[trigger] arguments@[i], catalog, values),
                BoundExpr::RowNumber { order_by, .. } => forall|i: int|
                    0 <= i < order_by@.len() ==> expr_contracts(f, #[trigger] order_by@[i].expression, catalog, values),
                BoundExpr::In { expression, values: items, .. } => items_accept(f, *expression, items@, catalog, values)
                    && expr_contracts(f, *expression, catalog, values) && forall|i: int|
                    0 <= i < items@.len() ==> expr_contracts(f, #[trigger] items@[i], catalog, values),
                BoundExpr::Case { branches, else_expression, .. } => (forall|i: int|
                    0 <= i < branches@.len() ==> expr_contracts(f, #[trigger] branches@[i].0, catalog, values)
                        && expr_contracts(f, branches@[i].1, catalog, values)) && match else_expression {
                    Some(x) => expr_contracts(f, *x, catalog, values),
                    None => true,
                },
                _ => true,
            },
        },
    }
}

/// Both the condition and the value of a `CASE` branch meet
/// `expr_contracts`.
pub open spec fn branch_contracts<F: Fn(&LogicalValue, &String) -> Option<NumericOrder>>(
    f: F,
    b: (BoundExpr, BoundExpr),
    catalog: Catalog,
    values: TextMap<LogicalValue>,
) -> bool {
    expr_contracts(f, b.0, catalog, values) && expr_contracts(f, b.1, catalog, values)
}

/// An optional expression meets `expr_contracts`.
pub open spec fn opt_contracts<F: Fn(&LogicalValue, &String) -> Option<NumericOrder>>(
    f: F,
    e: Option<BoundExpr>,
    catalog: Catalog,
    values: TextMap<LogicalValue>,
) -> bool {
    match e {
        Some(x) => expr_contracts(f, x, catalog, values),
        None => true,
    }
}

/// Every projection meets `expr_contracts`.
pub open spec fn projections_contracts<F: Fn(&LogicalValue, &String) -> Option<NumericOrder>>(
    f: F,
    ps: Seq<BoundProjection>,
    catalog: Catalog,
    values: TextMap<LogicalValue>,
) -> bool {
    forall|i: int| 0 <= i < ps.len() ==> expr_contracts(f, #[trigger] ps[i].expression, catalog, values)
}

/// A parameter written to a column meets the column's contract, and the
/// written expression meets `expr_contracts`.
pub open spec fn assignment_contracts<F: Fn(&LogicalValue, &String) -> Option<NumericOrder>>(
    f: F,
    a: BoundAssignment,
    catalog: Catalog,
    values: TextMap<LogicalValue>,
) -> bool {
    &&& match a.value {
        BoundExpr::ClientParameter { name, .. } => column_accepts(f, a.column, name@, catalog, values),
        _ => true,
    }
    &&& expr_contracts(f, a.value, catalog, values)
}

/// Every assignment meets `assignment_contracts`.
pub open spec fn assignments_contracts<F: Fn(&LogicalValue, &String) -> Option<NumericOrder>>(
    f: F,
    assignments: Seq<BoundAssignment>,
    catalog: Catalog,
    values: TextMap<LogicalValue>,
) -> bool {
    forall|i: int| 0 <= i < assignments.len() ==> assignment_contracts(f, #[trigger] assignments[i], catalog, values)
}

/// The caller's values meet the Catalog contracts of every column that
/// `statement` compares them with or writes them to.
pub open spec fn statement_contracts<F: Fn(&LogicalValue, &String) -> Option<NumericOrder>>(
    f: F,
    statement: BoundStatement,
    catalog: Catalog,
    values: TextMap<LogicalValue>,
) -> bool {
    match statement {
        BoundStatement::Select(s) => {
            &&& projections_contracts(f, s.projections@, catalog, values)
            &&& forall|i: int| 0 <= i < s.joins@.len() ==> expr_contracts(f, #[trigger] s.joins@[i].on, catalog, values)
            &&& opt_contracts(f, s.predicate, catalog, values)
            &&& opt_contracts(f, s.having, catalog, values)
            &&& opt_contracts(f, s.limit, catalog, values)
            &&& opt_contracts(f, s.offset, catalog, values)
        },
        BoundStatement::ConstantSelect(s) => projections_contracts(f, s.projections@, catalog, values),
        BoundStatement::JsonCollectionSelect(s) => expr_contracts(f, s.path, catalog, values) && opt_contracts(
            f,
            s.predicate,
            catalog,
            values,
        ),
        BoundStatement::Insert(s) => forall|i: int|
            0 <= i < s.rows@.len() ==> assignments_contracts(f, (#[trigger] s.rows@[i])@, catalog, values),
        BoundStatement::Update(s) => assignments_contracts(f, s.assignments@, catalog, values) && opt_contracts(
            f,
            s.predicate,
            catalog,
            values,
        ),
        BoundStatement::Delete(s) => opt_contracts(f, s.predicate, catalog, values),
    }
}

/// Whether the value given for parameter `name` meets the contract of
/// column `column`.
fn column_parameter_accepted<F: Fn(&LogicalValue, &String) -> Option<NumericOrder>>(
    column: &BoundColumn,
    name: &str,
    catalog: &Catalog,
    values: &TextMap<LogicalValue>,
    numbers: &F,
) -> (r: bool)
    requires
        comparer(*numbers),
        values.wf(),
    ensures
        r == column_accepts(*numbers, *column, name@, *catalog, *values),
{
    match catalog.column_of(column.id) {
        Some(descriptor) => match values.get(name) {
            Some(value) => value_satisfies_contract(value, &descriptor.value, numbers),
            None => false,
        },
        None => false,
    }
}

fn pair_accepted<F: Fn(&LogicalValue, &String) -> Option<NumericOrder>>(
    l: &BoundExpr,
    r: &BoundExpr,
    catalog: &Catalog,
    values: &TextMap<LogicalValue>,
    numbers: &F,
) -> (ok: bool)
    requires
        comparer(*numbers),
        values.wf(),
    ensures
        ok == pair_accepts(*numbers, *l, *r, *catalog, *values),
{
    match (l, r) {
        (BoundExpr::Column(c), BoundExpr::ClientParameter { name, .. }) => column_parameter_accepted(
            c,
            name.as_str(),
            catalog,
            values,
            numbers,
        ),
        (BoundExpr::ClientParameter { name, .. }, BoundExpr::Column(c)) => column_parameter_accepted(
            c,
            name.as_str(),
            catalog,
            values,
            numbers,
        ),
        _ => true,
    }
}

/// Whether a column tested for membership accepts each parameter in the
/// list.
fn items_accepted<F: Fn(&LogicalValue, &String) -> Option<NumericOrder>>(
    e: &BoundExpr,
    items: &Vec<BoundExpr>,
    catalog: &Catalog,
    values: &TextMap<LogicalValue>,
    numbers: &F,
) -> (r: bool)
    requires
        comparer(*numbers),
        values.wf(),
    ensures
        r == items_accept(*numbers, *e, items@, *catalog, *values),
{
    match e {
        BoundExpr::Column(c) => {
            let mut i: usize = 0;
            while i < items.len()
                invariant
                    comparer(*numbers),
                    values.wf(),
                    *e == BoundExpr::Column(*c),
                    i <= items@.len(),
                    forall|j: int|
                        0 <= j < i ==> match #[trigger] items@[j] {
                            BoundExpr::ClientParameter { name, .. } => column_accepts(*numbers, *c, name@, *catalog, *values),
                            _ => true,
                        },
                decreases items.len() - i,
            {
                match &items[i] {
                    BoundExpr::ClientParameter { name, .. } => {
                        if !column_parameter_accepted(c, name.as_str(), catalog, values, numbers) {
                            proof {
                                assert(!match items@[i as int] {
                                    BoundExpr::ClientParameter { name, .. } => column_accepts(*numbers, *c, name@, *catalog, *values),
                                    _ => true,
                                });
                            }
                            return false;
                        }
                    },
                    _ => {},
                }
                i = i + 1;
            }
            true
        },
        _ => true,
    }
}

/// Checks that every parameter in `expression` that is compared with a
/// column meets that column's Catalog contract.
pub fn validate_expression_contracts<F: Fn(&LogicalValue, &String) -> Option<NumericOrder>>(
    expression: &BoundExpr,
    catalog: &Catalog,
    values: &TextMap<LogicalValue>,
    numbers: &F,
) -> (r: Result<(), CompileError>)
    requires
        comparer(*numbers),
        values.wf(),
    ensures
        r is Ok == expr_contracts(*numbers, *expression, *catalog, *values),
        r matches Err(e) ==> e is ClientParameterTypeMismatch,
    decreases expression,
{
    proof {
        lemma_operands_decrease(*expression);
    }
    match operands_of(expression) {
        Some((a, b)) => {
            let logical = match expression {
                BoundExpr::And(..) | BoundExpr::Or(..) => true,
                _ => false,
            };
            if !logical && !pair_accepted(a, b, catalog, values, numbers) {
                return Err(CompileError::ClientParameterTypeMismatch);
            }
            match validate_expression_contracts(a, catalog, values, numbers) {
                Ok(()) => {},
                Err(e) => return Err(e),
            }
            return validate_expression_contracts(b, catalog, values, numbers);
        },
        None => {},
    }
    match single_operand_of(expression) {
        Some(a) => {
            return validate_expression_contracts(a, catalog, values, numbers);
        },
        None => {},
    }
    match expression {
        BoundExpr::ConditionalOutput { value, visible_if } => {
            match validate_expression_contracts(&**value, catalog, values, numbers) {
                Ok(()) => {},
                Err(e) => return Err(e),
            }
            validate_expression_contracts(&**visible_if, catalog, values, numbers)
        },
        BoundExpr::Exists(select) => {
            proof {
                assert(decreases_to!(expression => select.projections));
            }
            match validate_projection_contracts(&select.projections, catalog, values, numbers) {
                Ok(()) => {},
                Err(e) => return Err(e),
            }
            match &select.predicate {
                Some(p) => validate_expression_contracts(p, catalog, values, numbers),
                None => Ok(()),
            }
        },
        BoundExpr::ScalarFunction { arguments, .. } => validate_exprs_contracts(arguments, catalog, values, numbers),
        BoundExpr::RowNumber { order_by, .. } => validate_order_contracts(order_by, catalog, values, numbers),
        BoundExpr::In { expression: inner, values: items, .. } => {
            if !items_accepted(&**inner, items, catalog, values, numbers) {
                return Err(CompileError::ClientParameterTypeMismatch);
            }
            match validate_expression_contracts(&**inner, catalog, values, numbers) {
                Ok(()) => {},
                Err(e) => return Err(e),
            }
            validate_exprs_contracts(items, catalog, values, numbers)
        },
        BoundExpr::Case { branches, else_expression, .. } => {
            let checked = validate_branch_contracts(branches, catalog, values, numbers);
            if checked.is_err() {
                proof {
                    let j = choose|j: int| 0 <= j < branches@.len() && !#[trigger] branch_contracts(*numbers, branches@[j], *catalog, *values);
                    assert(!(expr_contracts(*numbers, branches@[j].0, *catalog, *values) && expr_contracts(*numbers, branches@[j].1, *catalog, *values)));
                }
                return checked;
            }
            proof {
                assert forall|j: int| 0 <= j < branches@.len() implies expr_contracts(*numbers, #[trigger] branches@[j].0, *catalog, *values)
                    && expr_contracts(*numbers, branches@[j].1, *catalog, *values) by {
                    assert(branch_contracts(*numbers, branches@[j], *catalog, *values));
                }
            }
            match else_expression {
                Some(x) => validate_expression_contracts(&**x, catalog, values, numbers),
                None => Ok(()),
            }
        },
        _ => Ok(()),
    }
}

fn validate_exprs_contracts<F: Fn(&LogicalValue, &String) -> Option<NumericOrder>>(
    es: &Vec<BoundExpr>,
    catalog: &Catalog,
    values: &TextMap<LogicalValue>,
    numbers: &F,
) -> (r: Result<(), CompileError>)
    requires
        comparer(*numbers),
        values.wf(),
    ensures
        r is Ok == forall|i: int| 0 <= i < es@.len() ==> expr_contracts(*numbers, #[trigger] es@[i], *catalog, *values),
        r matches Err(e) ==> e is ClientParameterTypeMismatch,
    decreases es,
{
    let mut i: usize = 0;
    while i < es.len()
        invariant
            comparer(*numbers),
            values.wf(),
            i <= es@.len(),
            forall|j: int| 0 <= j < i ==> expr_contracts(*numbers, #[trigger] es@[j], *catalog, *values),
        decreases es.len() - i,
    {
        proof {
            assert(decreases_to!(es => es@[i as int]));
        }
        match validate_expression_contracts(&es[i], catalog, values, numbers) {
            Ok(()) => {},
            Err(e) => return Err(e),
        }
        i = i + 1;
    }
    Ok(())
}

fn validate_projection_contracts<F: Fn(&LogicalValue, &String) -> Option<NumericOrder>>(
    ps: &Vec<BoundProjection>,
    catalog: &Catalog,
    values: &TextMap<LogicalValue>,
    numbers: &F,
) -> (r: Result<(), CompileError>)
    requires
        comparer(*numbers),
        values.wf(),
    ensures
        r is Ok == projections_contracts(*numbers, ps@, *catalog, *values),
        r matches Err(e) ==> e is ClientParameterTypeMismatch,
    decreases ps,
{
    let mut i: usize = 0;
    while i < ps.len()
        invariant
            comparer(*numbers),
            values.wf(),
            i <= ps@.len(),
            forall|j: int| 0 <= j < i ==> expr_contracts(*numbers, #[trigger] ps@[j].expression, *catalog, *values),
        decreases ps.len() - i,
    {
        proof {
            assert(decreases_to!(ps => ps@[i as int]));
            assert(decreases_to!(ps@[i as int] => ps@[i as int].expression));
        }
        match validate_expression_contracts(&ps[i].expression, catalog, values, numbers) {
            Ok(()) => {},
            Err(e) => return Err(e),
        }
        i = i + 1;
    }
    Ok(())
}

fn validate_order_contracts<F: Fn(&LogicalValue, &String) -> Option<NumericOrder>>(
    os: &Vec<BoundOrder>,
    catalog: &Catalog,
    values: &TextMap<LogicalValue>,
    numbers: &F,
) -> (r: Result<(), CompileError>)
    requires
        comparer(*numbers),
        values.wf(),
    ensures
        r is Ok == forall|i: int|
            0 <= i < os@.len() ==> expr_contracts(*numbers, #[trigger] os@[i].expression, *catalog, *values),
        r matches Err(e) ==> e is ClientParameterTypeMismatch,
    decreases os,
{
    let mut i: usize = 0;
    while i < os.len()
        invariant
            comparer(*numbers),
            values.wf(),
            i <= os@.len(),
            forall|j: int| 0 <= j < i ==> expr_contracts(*numbers, #[trigger] os@[j].expression, *catalog, *values),
        decreases os.len() - i,
    {
        proof {
            assert(decreases_to!(os => os@[i as int]));
            assert(decreases_to!(os@[i as int] => os@[i as int].expression));
        }
        match validate_expression_contracts(&os[i].expression, catalog, values, numbers) {
            Ok(()) => {},
            Err(e) => return Err(e),
        }
        i = i + 1;
    }
    Ok(())
}

fn validate_branch_contracts<F: Fn(&LogicalValue, &String) -> Option<NumericOrder>>(
    bs: &Vec<(BoundExpr, BoundExpr)>,
    catalog: &Catalog,
    values: &TextMap<LogicalValue>,
    numbers: &F,
) -> (r: Result<(), CompileError>)
    requires
        comparer(*numbers),
        values.wf(),
    ensures
        r is Ok == forall|i: int| 0 <= i < bs@.len() ==> #[trigger] branch_contracts(*numbers, bs@[i], *catalog, *values),
        r matches Err(e) ==> e is ClientParameterTypeMismatch,
    decreases bs,
{
    let mut i: usize = 0;
    while i < bs.len()
        invariant
            comparer(*numbers),
            values.wf(),
            i <= bs@.len(),
            forall|j: int| 0 <= j < i ==> #[trigger] branch_contracts(*numbers, bs@[j], *catalog, *values),
        decreases bs.len() - i,
    {
        proof {
            assert(decreases_to!(bs => bs@[i as int]));
            assert(decreases_to!(bs@[i as int] => bs@[i as int].0));
            assert(decreases_to!(bs@[i as int] => bs@[i as int].1));
        }
        match validate_expression_contracts(&bs[i].0, catalog, values, numbers) {
            Ok(()) => {},
            Err(e) => {
                proof {
                    assert(!branch_contracts(*numbers, bs@[i as int], *catalog, *values));
                }
                return Err(e);
            },
        }
        match validate_expression_contracts(&bs[i].1, catalog, values, numbers) {
            Ok(()) => {},
            Err(e) => {
                proof {
                    assert(!branch_contracts(*numbers, bs@[i as int], *catalog, *values));
                }
                return Err(e);
            },
        }
        assert(branch_contracts(*numbers, bs@[i as int], *catalog, *values));
        i = i + 1;
    }
    Ok(())
}

/// Checks a written parameter against its column's contract, then the
/// written expression.
fn validate_assignment_contract<F: Fn(&LogicalValue, &String) -> Option<NumericOrder>>(
    assignment: &BoundAssignment,
    catalog: &Catalog,
    values: &TextMap<LogicalValue>,
    numbers: &F,
) -> (r: Result<(), CompileError>)
    requires
        comparer(*numbers),
        values.wf(),
    ensures
        r is Ok == assignment_contracts(*numbers, *assignment, *catalog, *values),
        r matches Err(e) ==> e is ClientParameterTypeMismatch,
{
    match &assignment.value {
        BoundExpr::ClientParameter { name, .. } => {
            if !column_parameter_accepted(&assignment.column, name.as_str(), catalog, values, numbers) {
                return Err(CompileError::ClientParameterTypeMismatch);
            }
        },
        _ => {},
    }
    validate_expression_contracts(&assignment.value, catalog, values, numbers)
}

fn validate_assignments_contracts<F: Fn(&LogicalValue, &String) -> Option<NumericOrder>>(
    assignments: &Vec<BoundAssignment>,
    catalog: &Catalog,
    values: &TextMap<LogicalValue>,
    numbers: &F,
) -> (r: Result<(), CompileError>)
    requires
        comparer(*numbers),
        values.wf(),
    ensures
        r is Ok == assignments_contracts(*numbers, assignments@, *catalog, *values),
        r matches Err(e) ==> e is ClientParameterTypeMismatch,
{
    let mut i: usize = 0;
    while i < assignments.len()
        invariant
            comparer(*numbers),
            values.wf(),
            i <= assignments@.len(),
            forall|j: int| 0 <= j < i ==> assignment_contracts(*numbers, #[trigger] assignments@[j], *catalog, *values),
        decreases assignments.len() - i,
    {
        match validate_assignment_contract(&assignments[i], catalog, values, numbers) {
            Ok(()) => {},
            Err(e) => return Err(e),
        }
        i = i + 1;
    }
    Ok(())
}

fn validate_opt_contracts<F: Fn(&LogicalValue, &String) -> Option<NumericOrder>>(
    e: &Option<BoundExpr>,
    catalog: &Catalog,
    values: &TextMap<LogicalValue>,
    numbers: &F,
) -> (r: Result<(), CompileError>)
    requires
        comparer(*numbers),
        values.wf(),
    ensures
        r is Ok == opt_contracts(*numbers, *e, *catalog, *values),
        r matches Err(e) ==> e is ClientParameterTypeMismatch,
{
    match e {
        Some(x) => validate_expression_contracts(x, catalog, values, numbers),
        None => Ok(()),
    }
}

fn validate_join_contracts<F: Fn(&LogicalValue, &String) -> Option<NumericOrder>>(
    joins: &Vec<BoundJoin>,
    catalog: &Catalog,
    values: &TextMap<LogicalValue>,
    numbers: &F,
) -> (r: Result<(), CompileError>)
    requires
        comparer(*numbers),
        values.wf(),
    ensures
        r is Ok == forall|i: int| 0 <= i < joins@.len() ==> expr_contracts(*numbers, #[trigger] joins@[i].on, *catalog, *values),
        r matches Err(e) ==> e is ClientParameterTypeMismatch,
{
    let mut i: usize = 0;
    while i < joins.len()
        invariant
            comparer(*numbers),
            values.wf(),
            i <= joins@.len(),
            forall|j: int| 0 <= j < i ==> expr_contracts(*numbers, #[trigger] joins@[j].on, *catalog, *values),
        decreases joins.len() - i,
    {
        match validate_expression_contracts(&joins[i].on, catalog, values, numbers) {
            Ok(()) => {},
            Err(e) => return Err(e),
        }
        i = i + 1;
    }
    Ok(())
}

fn validate_rows_contracts<F: Fn(&LogicalValue, &String) -> Option<NumericOrder>>(
    rows: &Vec<Vec<BoundAssignment>>,
    catalog: &Catalog,
    values: &TextMap<LogicalValue>,
    numbers: &F,
) -> (r: Result<(), CompileError>)
    requires
        comparer(*numbers),
        values.wf(),
    ensures
        r is Ok == forall|i: int| 0 <= i < rows@.len() ==> assignments_contracts(*numbers, (#[trigger] rows@[i])@, *catalog, *values),
        r matches Err(e) ==> e is ClientParameterTypeMismatch,
{
    let mut i: usize = 0;
    while i < rows.len()
        invariant
            comparer(*numbers),
            values.wf(),
            i <= rows@.len(),
            forall|j: int| 0 <= j < i ==> assignments_contracts(*numbers, (#[trigger] rows@[j])@, *catalog, *values),
        decreases rows.len() - i,
    {
        match validate_assignments_contracts(&rows[i], catalog, values, numbers) {
            Ok(()) => {},
            Err(e) => return Err(e),
        }
        i = i + 1;
    }
    Ok(())
}

/// Checks the caller's values against the Catalog contracts of every
/// column that `statement` compares them with or writes them to; `numbers`
/// compares numbers with the decimal bounds of the contracts.
pub fn validate_client_parameter_contracts<F: Fn(&LogicalValue, &String) -> Option<NumericOrder>>(
    statement: &BoundStatement,
    catalog: &Catalog,
    values: &TextMap<LogicalValue>,
    numbers: &F,
) -> (r: Result<(), CompileError>)
    requires
        comparer(*numbers),
        values.wf(),
    ensures
        r is Ok == statement_contracts(*numbers, *statement, *catalog, *values),
        r matches Err(e) ==> e is ClientParameterTypeMismatch,
{
    match statement {
        BoundStatement::Select(s) => {
            match validate_projection_contracts(&s.projections, catalog, values, numbers) {
                Ok(()) => {},
                Err(e) => return Err(e),
            }
            match validate_join_contracts(&s.joins, catalog, values, numbers) {
                Ok(()) => {},
                Err(e) => return Err(e),
            }
            match validate_opt_contracts(&s.predicate, catalog, values, numbers) {
                Ok(()) => {},
                Err(e) => return Err(e),
            }
            match validate_opt_contracts(&s.having, catalog, values, numbers) {
                Ok(()) => {},
                Err(e) => return Err(e),
            }
            match validate_opt_contracts(&s.limit, catalog, values, numbers) {
                Ok(()) => {},
                Err(e) => return Err(e),
            }
            validate_opt_contracts(&s.offset, catalog, values, numbers)
        },
        BoundStatement::ConstantSelect(s) => validate_projection_contracts(&s.projections, catalog, values, numbers),
        BoundStatement::JsonCollectionSelect(s) => {
            match validate_expression_contracts(&s.path, catalog, values, numbers) {
                Ok(()) => {},
                Err(e) => return Err(e),
            }
            validate_opt_contracts(&s.predicate, catalog, values, numbers)
        },
        BoundStatement::Insert(s) => validate_rows_contracts(&s.rows, catalog, values, numbers),
        BoundStatement::Update(s) => {
            match validate_assignments_contracts(&s.assignments, catalog, values, numbers) {
                Ok(()) => {},
                Err(e) => return Err(e),
            }
            validate_opt_contracts(&s.predicate, catalog, values, numbers)
        },
        BoundStatement::Delete(s) => validate_opt_contracts(&s.predicate, catalog, values, numbers),
    }
}

} // verus!
