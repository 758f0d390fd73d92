//! The caller's parameters of a protected statement: which names it uses,
//! at which types, and whether the values supplied for them fit.
use vstd::prelude::*;
use crate::emit::CompileError;
use crate::identity::{ClientParameterName, LogicalType, LogicalValue};
use crate::ir::{BoundAssignment, BoundExpr, BoundJoin, BoundProjection, BoundStatement};
use crate::protect::{lemma_parts_decrease, parts};
use crate::scan::{lemma_operands_decrease, operands_of, single_operand, single_operand_of};
use crate::text::owned;
use crate::text_map::{TextMap, TextSet};

verus! {

/// One use of a caller's parameter: its name and the type it is bound at.
pub type ParameterUse = (ClientParameterName, LogicalType);

/// The caller's parameters that `e` uses, in the order they are met.
/// Nested selects contribute their projections and their condition.
pub open spec fn expr_uses(e: BoundExpr) -> Seq<ParameterUse>
    decreases e,
{
    proof {
        lemma_parts_decrease(e);
        lemma_operands_decrease(e);
    }
    match parts(e) {
        Some(p) => expr_uses(p.0) + expr_uses(p.1),
        None => match single_operand(e) {
            Some(a) => expr_uses(a),
            None => match e {
                BoundExpr::ClientParameter { name, logical_type } => seq![(name, logical_type)],
                BoundExpr::ScalarFunction { arguments, .. } => list_uses(arguments@),
                BoundExpr::In { expression, values, .. } => expr_uses(*expression) + list_uses(values@),
                BoundExpr::Exists(s) => projection_uses(s.projections@) + optional_uses(s.predicate),
                BoundExpr::Case { branches, else_expression, .. } => branch_uses(branches@) + match else_expression {
                    Some(x) => expr_uses(*x),
                    None => Seq::empty(),
                },
                _ => Seq::empty(),
            },
        },
    }
}

pub open spec fn list_uses(es: Seq<BoundExpr>) -> Seq<ParameterUse>
    decreases es,
{
    if es.len() == 0 {
        Seq::empty()
    } else {
        list_uses(es.drop_last()) + expr_uses(es.last())
    }
}

pub open spec fn projection_uses(ps: Seq<BoundProjection>) -> Seq<ParameterUse>
    decreases ps,
{
    if ps.len() == 0 {
        Seq::empty()
    } else {
        projection_uses(ps.drop_last()) + expr_uses(ps.last().expression)
    }
}

pub open spec fn join_uses(js: Seq<BoundJoin>) -> Seq<ParameterUse>
    decreases js,
{
    if js.len() == 0 {
        Seq::empty()
    } else {
        join_uses(js.drop_last()) + expr_uses(js.last().on)
    }
}

pub open spec fn branch_uses(bs: Seq<(BoundExpr, BoundExpr)>) -> Seq<ParameterUse>
    decreases bs,
{
    if bs.len() == 0 {
        Seq::empty()
    } else {
        branch_uses(bs.drop_last()) + expr_uses(bs.last().0) + expr_uses(bs.last().1)
    }
}

pub open spec fn assignment_uses(assignments: Seq<BoundAssignment>) -> Seq<ParameterUse>
    decreases assignments,
{
    if assignments.len() == 0 {
        Seq::empty()
    } else {
        assignment_uses(assignments.drop_last()) + expr_uses(assignments.last().value)
    }
}

pub open spec fn row_uses(rows: Seq<Vec<BoundAssignment>>) -> Seq<ParameterUse>
    decreases rows.len(),
{
    if rows.len() == 0 {
        Seq::empty()
    } else {
        row_uses(rows.drop_last()) + assignment_uses(rows.last()@)
    }
}

pub open spec fn optional_uses(e: Option<BoundExpr>) -> Seq<ParameterUse>
    decreases e,
{
    match e {
        Some(x) => expr_uses(x),
        None => Seq::empty(),
    }
}

/// The caller's parameters that statement `st` uses, in the order they
/// are met: a select's projections, join conditions, condition, `having`,
/// `limit` and `offset`; a write's assigned values and condition.
pub open spec fn statement_uses(st: BoundStatement) -> Seq<ParameterUse> {
    match st {
        BoundStatement::Select(s) => projection_uses(s.projections@) + join_uses(s.joins@)
            + optional_uses(s.predicate) + optional_uses(s.having) + optional_uses(s.limit)
            + optional_uses(s.offset),
        BoundStatement::ConstantSelect(c) => projection_uses(c.projections@),
        BoundStatement::JsonCollectionSelect(j) => expr_uses(j.path) + optional_uses(j.predicate),
        BoundStatement::Insert(i) => row_uses(i.rows@),
        BoundStatement::Update(u) => assignment_uses(u.assignments@) + optional_uses(u.predicate),
        BoundStatement::Delete(d) => optional_uses(d.predicate),
    }
}

/// Appends the uses of the caller's parameters in `expression`.
fn collect_uses(expression: &BoundExpr, out: &mut Vec<ParameterUse>)
    ensures
        final(out)@ == old(out)@ + expr_uses(*expression),
    decreases expression,
{
    proof {
        lemma_parts_decrease(*expression);
        lemma_operands_decrease(*expression);
    }
    let ghost start = out@;
    match expression {
        BoundExpr::ConditionalOutput { value, visible_if } => {
            collect_uses(&**value, out);
            collect_uses(&**visible_if, out);
            assert(out@ =~= start + expr_uses(*expression));
            return;
        },
        _ => {},
    }
    match operands_of(expression) {
        Some((a, b)) => {
            collect_uses(a, out);
            collect_uses(b, out);
            assert(out@ =~= start + expr_uses(*expression));
            return;
        },
        None => {},
    }
    match single_operand_of(expression) {
        Some(a) => {
            collect_uses(a, out);
            return;
        },
        None => {},
    }
    match expression {
        BoundExpr::ClientParameter { name, logical_type } => {
            out.push((name.clone(), *logical_type));
            assert(out@ =~= start + expr_uses(*expression));
        },
        BoundExpr::ScalarFunction { arguments, .. } => {
            collect_list_uses(arguments, out);
        },
        BoundExpr::In { expression: inner, values, .. } => {
            collect_uses(&**inner, out);
            collect_list_uses(values, out);
            assert(out@ =~= start + expr_uses(*expression));
        },
        BoundExpr::Exists(select) => {
            proof {
                assert(decreases_to!(expression => select.projections));
            }
            collect_projection_uses(&select.projections, out);
            let ghost mid = out@;
            proof {
                assert(decreases_to!(expression => select.predicate));
            }
            collect_optional_uses(&select.predicate, out);
            assert(mid == start + projection_uses(select.projections@));
            assert(out@ == mid + optional_uses(select.predicate));
            assert(expr_uses(*expression) == projection_uses(select.projections@) + optional_uses(select.predicate));
            assert(out@ =~= start + expr_uses(*expression));
        },
        BoundExpr::Case { branches, else_expression, .. } => {
            collect_branch_uses(branches, out);
            match else_expression {
                Some(x) => collect_uses(&**x, out),
                None => {},
            }
            assert(out@ =~= start + expr_uses(*expression));
        },
        _ => {
            assert(parts(*expression) is None);
            assert(single_operand(*expression) is None);
            assert(expr_uses(*expression) =~= Seq::<ParameterUse>::empty());
            assert(out@ =~= start + expr_uses(*expression));
        },
    }
}

fn collect_list_uses(es: &Vec<BoundExpr>, out: &mut Vec<ParameterUse>)
    ensures
        final(out)@ == old(out)@ + list_uses(es@),
    decreases es,
{
    let ghost start = out@;
    let ghost all = es@;
    let mut i: usize = 0;
    assert(all.take(0) =~= Seq::<BoundExpr>::empty());
    assert(out@ =~= start + list_uses(all.take(0)));
    while i < es.len()
        invariant
            all == es@,
            i <= all.len(),
            out@ == start + list_uses(all.take(i as int)),
        decreases es.len() - i,
    {
        proof {
            assert(decreases_to!(es => es@[i as int]));
            assert(all.take(i + 1).drop_last() =~= all.take(i as int));
            assert(all.take(i + 1).last() == all[i as int]);
        }
        collect_uses(&es[i], out);
        assert(out@ =~= start + list_uses(all.take(i + 1)));
        i = i + 1;
    }
    assert(all.take(i as int) =~= all);
}

fn collect_projection_uses(ps: &Vec<BoundProjection>, out: &mut Vec<ParameterUse>)
    ensures
        final(out)@ == old(out)@ + projection_uses(ps@),
    decreases ps,
{
    let ghost start = out@;
    let ghost all = ps@;
    let mut i: usize = 0;
    assert(all.take(0) =~= Seq::<BoundProjection>::empty());
    assert(out@ =~= start + projection_uses(all.take(0)));
    while i < ps.len()
        invariant
            all == ps@,
            i <= all.len(),
            out@ == start + projection_uses(all.take(i as int)),
        decreases ps.len() - i,
    {
        proof {
            assert(decreases_to!(ps => ps@[i as int]));
            assert(decreases_to!(ps@[i as int] => ps@[i as int].expression));
            assert(all.take(i + 1).drop_last() =~= all.take(i as int));
            assert(all.take(i + 1).last() == all[i as int]);
        }
        collect_uses(&ps[i].expression, out);
        assert(out@ =~= start + projection_uses(all.take(i + 1)));
        i = i + 1;
    }
    assert(all.take(i as int) =~= all);
}

fn collect_join_uses(js: &Vec<BoundJoin>, out: &mut Vec<ParameterUse>)
    ensures
        final(out)@ == old(out)@ + join_uses(js@),
{
    let ghost start = out@;
    let ghost all = js@;
    let mut i: usize = 0;
    assert(all.take(0) =~= Seq::<BoundJoin>::empty());
    assert(out@ =~= start + join_uses(all.take(0)));
    while i < js.len()
        invariant
            all == js@,
            i <= all.len(),
            out@ == start + join_uses(all.take(i as int)),
        decreases js.len() - i,
    {
        assert(all.take(i + 1).drop_last() =~= all.take(i as int));
        assert(all.take(i + 1).last() == all[i as int]);
        collect_uses(&js[i].on, out);
        assert(out@ =~= start + join_uses(all.take(i + 1)));
        i = i + 1;
    }
    assert(all.take(i as int) =~= all);
}

fn collect_branch_uses(bs: &Vec<(BoundExpr, BoundExpr)>, out: &mut Vec<ParameterUse>)
    ensures
        final(out)@ == old(out)@ + branch_uses(bs@),
    decreases bs,
{
    let ghost start = out@;
    let ghost all = bs@;
    let mut i: usize = 0;
    assert(all.take(0) =~= Seq::<(BoundExpr, BoundExpr)>::empty());
    assert(out@ =~= start + branch_uses(all.take(0)));
    while i < bs.len()
        invariant
            all == bs@,
            i <= all.len(),
            out@ == start + branch_uses(all.take(i as int)),
        decreases bs.len() - i,
    {
        proof {
            assert(decreases_to!(bs => bs@[i as int]));
            assert(decreases_to!(bs@[i as int] => bs@[i as int].0));
            assert(decreases_to!(bs@[i as int] => bs@[i as int].1));
            assert(all.take(i + 1).drop_last() =~= all.take(i as int));
            assert(all.take(i + 1).last() == all[i as int]);
        }
        collect_uses(&bs[i].0, out);
        collect_uses(&bs[i].1, out);
        assert(out@ =~= start + branch_uses(all.take(i + 1)));
        i = i + 1;
    }
    assert(all.take(i as int) =~= all);
}

fn collect_assignment_uses(assignments: &Vec<BoundAssignment>, out: &mut Vec<ParameterUse>)
    ensures
        final(out)@ == old(out)@ + assignment_uses(assignments@),
{
    let ghost start = out@;
    let ghost all = assignments@;
    let mut i: usize = 0;
    assert(all.take(0) =~= Seq::<BoundAssignment>::empty());
    assert(out@ =~= start + assignment_uses(all.take(0)));
    while i < assignments.len()
        invariant
            all == assignments@,
            i <= all.len(),
            out@ == start + assignment_uses(all.take(i as int)),
        decreases assignments.len() - i,
    {
        assert(all.take(i + 1).drop_last() =~= all.take(i as int));
        assert(all.take(i + 1).last() == all[i as int]);
        collect_uses(&assignments[i].value, out);
        assert(out@ =~= start + assignment_uses(all.take(i + 1)));
        i = i + 1;
    }
    assert(all.take(i as int) =~= all);
}

fn collect_optional_uses(e: &Option<BoundExpr>, out: &mut Vec<ParameterUse>)
    ensures
        final(out)@ == old(out)@ + optional_uses(*e),
    decreases e,
{
    match e {
        Some(x) => collect_uses(x, out),
        None => {
            assert(out@ =~= old(out)@ + optional_uses(*e));
        },
    }
}

/// Every use of a caller's parameter in `statement`, in the order met.
pub fn statement_parameter_uses(statement: &BoundStatement) -> (r: Vec<ParameterUse>)
    ensures
        r@ == statement_uses(*statement),
{
    let mut out: Vec<ParameterUse> = Vec::new();
    match statement {
        BoundStatement::Select(select) => {
            collect_projection_uses(&select.projections, &mut out);
            collect_join_uses(&select.joins, &mut out);
            collect_optional_uses(&select.predicate, &mut out);
            collect_optional_uses(&select.having, &mut out);
            collect_optional_uses(&select.limit, &mut out);
            collect_optional_uses(&select.offset, &mut out);
        },
        BoundStatement::ConstantSelect(select) => {
            collect_projection_uses(&select.projections, &mut out);
        },
        BoundStatement::JsonCollectionSelect(select) => {
            collect_uses(&select.path, &mut out);
            collect_optional_uses(&select.predicate, &mut out);
        },
        BoundStatement::Insert(insert) => {
            let ghost all = insert.rows@;
            let mut r: usize = 0;
            assert(all.take(0) =~= Seq::<Vec<BoundAssignment>>::empty());
            assert(out@ =~= row_uses(all.take(0)));
            while r < insert.rows.len()
                invariant
                    all == insert.rows@,
                    r <= all.len(),
                    out@ == row_uses(all.take(r as int)),
                decreases insert.rows.len() - r,
            {
                assert(all.take(r + 1).drop_last() =~= all.take(r as int));
                assert(all.take(r + 1).last() == all[r as int]);
                collect_assignment_uses(&insert.rows[r], &mut out);
                r = r + 1;
            }
            assert(all.take(r as int) =~= all);
        },
        BoundStatement::Update(update) => {
            collect_assignment_uses(&update.assignments, &mut out);
            collect_optional_uses(&update.predicate, &mut out);
        },
        BoundStatement::Delete(delete) => {
            collect_optional_uses(&delete.predicate, &mut out);
        },
    }
    assert(out@ =~= statement_uses(*statement));
    out
}

/// The names of the caller's parameters that `statement` uses, ascending.
pub fn collect_client_parameters(statement: &BoundStatement) -> (r: TextSet)
    ensures
        forall|n: Seq<char>| #[trigger] r.has(n) == exists|i: int|
            0 <= i < statement_uses(*statement).len() && statement_uses(*statement)[i].0@ == n,
{
    let uses = statement_parameter_uses(statement);
    let mut names = TextSet::new();
    let mut i: usize = 0;
    while i < uses.len()
        invariant
            i <= uses@.len(),
            uses@ == statement_uses(*statement),
            forall|n: Seq<char>| #[trigger] names.has(n) == exists|j: int| 0 <= j < i && uses@[j].0@ == n,
        decreases uses.len() - i,
    {
        names.insert(owned(uses[i].0.as_str()));
        proof {
            assert forall|n: Seq<char>| #[trigger] names.has(n) == exists|j: int| 0 <= j < i + 1 && uses@[j].0@ == n by {
                if n == uses@[i as int].0@ {
                    assert(uses@[i as int].0@ == n);
                }
            }
        }
        i = i + 1;
    }
    names
}

/// A value of `v`'s kind may be bound at type `t`; an integer only within
/// the range a double holds exactly.
pub open spec fn value_fits(v: LogicalValue, t: LogicalType) -> bool {
    match v {
        LogicalValue::String(_) => t == LogicalType::String || t == LogicalType::Date || t
            == LogicalType::DateTime || t == LogicalType::Instant,
        LogicalValue::Boolean(_) => t == LogicalType::Boolean,
        LogicalValue::Int64(i) => t == LogicalType::Int64 || (t == LogicalType::Integer
            && -9_007_199_254_740_991 <= i <= 9_007_199_254_740_991),
        LogicalValue::Number(_) => t == LogicalType::Number,
        LogicalValue::Bytes(_) => t == LogicalType::Bytes,
        LogicalValue::Json(_) => t == LogicalType::Json,
        LogicalValue::Null => false,
    }
}

/// Every value may be bound at the logical type of its own kind: text at
/// each of the text-carried types (string, date, datetime, instant), a
/// boolean as a boolean, any 64-bit integer as an `Int64`, any double as a
/// number, bytes as bytes and JSON text as JSON. Null is bound at no type,
/// and no value is bound at a type of another kind.
pub proof fn law_values_bind_at_their_own_kind(s: String, b: bool, i: i64, bits: u64, bytes: Vec<u8>, t: LogicalType)
    ensures
        value_fits(LogicalValue::String(s), LogicalType::String),
        value_fits(LogicalValue::String(s), LogicalType::Date),
        value_fits(LogicalValue::String(s), LogicalType::DateTime),
        value_fits(LogicalValue::String(s), LogicalType::Instant),
        value_fits(LogicalValue::Boolean(b), LogicalType::Boolean),
        value_fits(LogicalValue::Int64(i), LogicalType::Int64),
        value_fits(LogicalValue::Number(bits), LogicalType::Number),
        value_fits(LogicalValue::Bytes(bytes), LogicalType::Bytes),
        value_fits(LogicalValue::Json(s), LogicalType::Json),
        !value_fits(LogicalValue::Null, t),
        value_fits(LogicalValue::Boolean(b), t) ==> t == LogicalType::Boolean,
        value_fits(LogicalValue::Number(bits), t) ==> t == LogicalType::Number,
        value_fits(LogicalValue::Bytes(bytes), t) ==> t == LogicalType::Bytes,
        value_fits(LogicalValue::Json(s), t) ==> t == LogicalType::Json,
        value_fits(LogicalValue::Int64(i), t) ==> t == LogicalType::Int64 || t == LogicalType::Integer,
        value_fits(LogicalValue::String(s), t) ==> t != LogicalType::Boolean && t != LogicalType::Number
            && t != LogicalType::Int64 && t != LogicalType::Integer && t != LogicalType::Bytes && t
            != LogicalType::Json,
{
}

/// An integer is bound as an `Integer` exactly when a double holds it
/// exactly, that is when its magnitude is at most 2^53 - 1.
pub proof fn law_integer_parameters_are_exact(i: i64)
    ensures
        value_fits(LogicalValue::Int64(i), LogicalType::Integer) <==> -9_007_199_254_740_991 <= i
            <= 9_007_199_254_740_991,
{
}

/// Whether `value` may be bound at type `expected`.
pub fn logical_value_matches(value: &LogicalValue, expected: LogicalType) -> (r: bool)
    ensures
        r == value_fits(*value, expected),
{
    match value {
        LogicalValue::String(_) => expected == LogicalType::String || expected == LogicalType::Date
            || expected == LogicalType::DateTime || expected == LogicalType::Instant,
        LogicalValue::Boolean(_) => expected == LogicalType::Boolean,
        LogicalValue::Int64(i) => expected == LogicalType::Int64 || (expected == LogicalType::Integer
            && -9_007_199_254_740_991 <= *i && *i <= 9_007_199_254_740_991),
        LogicalValue::Number(_) => expected == LogicalType::Number,
        LogicalValue::Bytes(_) => expected == LogicalType::Bytes,
        LogicalValue::Json(_) => expected == LogicalType::Json,
        LogicalValue::Null => false,
    }
}

/// Each parameter is used at one type, and the value supplied for it fits.
pub open spec fn types_agree(uses: Seq<ParameterUse>, values: TextMap<LogicalValue>) -> bool {
    &&& forall|i: int, j: int|
        0 <= i < uses.len() && 0 <= j < uses.len() && (#[trigger] uses[i]).0@ == (#[trigger] uses[j]).0@
            ==> uses[i].1 == uses[j].1
    &&& forall|i: int| 0 <= i < uses.len() ==> fits_use(#[trigger] uses[i], values)
}

/// The value supplied for use `u` fits its type.
pub open spec fn fits_use(u: ParameterUse, values: TextMap<LogicalValue>) -> bool {
    match values.spec_get(u.0@) {
        Some(v) => value_fits(v, u.1),
        None => false,
    }
}

/// Checks the types at which `statement` uses the caller's parameters
/// against each other and against the values supplied.
pub fn validate_client_parameter_types(statement: &BoundStatement, values: &TextMap<LogicalValue>) -> (r:
    Result<(), CompileError>)
    requires
        values.wf(),
    ensures
        r is Ok == types_agree(statement_uses(*statement), *values),
        r matches Err(e) ==> e is ClientParameterTypeMismatch,
{
    let uses = statement_parameter_uses(statement);
    let ghost u = uses@;
    let mut i: usize = 0;
    while i < uses.len()
        invariant
            u == uses@,
            u == statement_uses(*statement),
            values.wf(),
            i <= u.len(),
            forall|a: int, b: int|
                0 <= a < i && 0 <= b < u.len() && (#[trigger] u[a]).0@ == (#[trigger] u[b]).0@ ==> u[a].1 == u[b].1,
        decreases uses.len() - i,
    {
        let mut j: usize = 0;
        while j < uses.len()
            invariant
                u == uses@,
                u == statement_uses(*statement),
                i < u.len(),
                j <= u.len(),
                forall|b: int| 0 <= b < j && u[i as int].0@ == (#[trigger] u[b]).0@ ==> u[i as int].1 == u[b].1,
            decreases uses.len() - j,
        {
            if crate::text::text_eq(uses[i].0.as_str(), uses[j].0.as_str()) && uses[i].1 != uses[j].1 {
                proof {
                    assert(u[i as int].0@ == u[j as int].0@ && u[i as int].1 != u[j as int].1);
                }
                return Err(CompileError::ClientParameterTypeMismatch);
            }
            j = j + 1;
        }
        proof {
            assert forall|a: int, b: int|
                0 <= a < i + 1 && 0 <= b < u.len() && (#[trigger] u[a]).0@ == (#[trigger] u[b]).0@ implies u[a].1 == u[b].1 by {
                if a == i {
                    assert(u[i as int].0@ == u[b].0@);
                }
            }
        }
        i = i + 1;
    }
    let mut k: usize = 0;
    while k < uses.len()
        invariant
            u == uses@,
            u == statement_uses(*statement),
            values.wf(),
            k <= u.len(),
            forall|a: int| 0 <= a < k ==> fits_use(#[trigger] u[a], *values),
        decreases uses.len() - k,
    {
        let fits = match values.get(uses[k].0.as_str()) {
            Some(v) => logical_value_matches(v, uses[k].1),
            None => false,
        };
        if !fits {
            assert(!fits_use(u[k as int], *values));
            return Err(CompileError::ClientParameterTypeMismatch);
        }
        k = k + 1;
    }
    Ok(())
}

/// The values supplied name exactly the parameters that the uses name.
pub open spec fn names_match(uses: Seq<ParameterUse>, values: TextMap<LogicalValue>) -> bool {
    forall|n: Seq<char>| #[trigger] values.has_key(n) == exists|i: int| 0 <= i < uses.len() && uses[i].0@ == n
}

/// Checks the values supplied for the caller's parameters of `statement`:
/// one value for each parameter it uses and no other, each fitting the
/// one type at which the parameter is used.
pub fn check_client_parameters(statement: &BoundStatement, values: &TextMap<LogicalValue>) -> (r: Result<
    (),
    CompileError,
>)
    requires
        values.wf(),
    ensures
        r is Ok == (names_match(statement_uses(*statement), *values) && types_agree(
            statement_uses(*statement),
            *values,
        )),
        r matches Err(e) ==> if names_match(statement_uses(*statement), *values) {
            e is ClientParameterTypeMismatch
        } else {
            e is ClientParameterMismatch
        },
{
    let names = collect_client_parameters(statement);
    let ghost u = statement_uses(*statement);
    let mut i: usize = 0;
    while i < values.len()
        invariant
            values.wf(),
            u == statement_uses(*statement),
            forall|n: Seq<char>| #[trigger] names.has(n) == exists|j: int| 0 <= j < u.len() && u[j].0@ == n,
            i <= values.entries().len(),
            forall|m: int| 0 <= m < i ==> names.has(#[trigger] values.entries()[m].0),
        decreases values.entries().len() - i,
    {
        if !names.contains(values.key_at(i)) {
            proof {
                let k = values.entries()[i as int].0;
                assert(values.has_key(k));
                assert(!names.has(k));
            }
            return Err(CompileError::ClientParameterMismatch);
        }
        i = i + 1;
    }
    let mut j: usize = 0;
    while j < names.len()
        invariant
            values.wf(),
            u == statement_uses(*statement),
            forall|n: Seq<char>| #[trigger] names.has(n) == exists|k: int| 0 <= k < u.len() && u[k].0@ == n,
            forall|m: int| 0 <= m < values.entries().len() ==> names.has(#[trigger] values.entries()[m].0),
            j <= names.items().len(),
            forall|m: int| 0 <= m < j ==> values.has_key(#[trigger] names.items()[m]),
        decreases names.items().len() - j,
    {
        if values.get(names.at(j)).is_none() {
            proof {
                let k = names.items()[j as int];
                assert(names.has(k));
                assert(!values.has_key(k));
            }
            return Err(CompileError::ClientParameterMismatch);
        }
        j = j + 1;
    }
    proof {
        assert forall|n: Seq<char>| #[trigger] values.has_key(n) == exists|k: int| 0 <= k < u.len() && u[k].0@ == n by {
            if values.has_key(n) {
                let m = choose|m: int| 0 <= m < values.entries().len() && #[trigger] values.entries()[m].0 == n;
                assert(names.has(values.entries()[m].0));
            }
            if names.has(n) {
                let m = choose|m: int| 0 <= m < names.items().len() && names.items()[m] == n;
                assert(values.has_key(names.items()[m]));
            }
        }
    }
    validate_client_parameter_types(statement, values)
}

} // verus!
