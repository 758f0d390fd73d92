//! The types at which a statement uses the caller's parameters: each name
//! at one type, or the statement is refused as ambiguous.
use vstd::prelude::*;
use crate::gateway::RejectionKind;
use crate::identity::LogicalType;
use crate::ir::{BoundAssignment, BoundExpr, BoundJoin, BoundProjection, BoundStatement};
use crate::params::ParameterUse;
use crate::protect::{lemma_parts_decrease, parts};
use crate::public_error::RuntimeError;
use crate::scan::{lemma_operands_decrease, operands_of, single_operand, single_operand_of};
use crate::text::owned;
use crate::text_map::TextMap;

verus! {

/// The caller's parameters that `e` uses, in the order they are met.
/// Nested selects contribute their projections, join conditions,
/// condition, `having`, `limit` and `offset`.
pub open spec fn type_uses(e: BoundExpr) -> Seq<ParameterUse>
    decreases e,
{
    proof {
        lemma_parts_decrease(e);
        lemma_operands_decrease(e);
    }
    match parts(e) {
        Some(p) => type_uses(p.0) + type_uses(p.1),
        None => match single_operand(e) {
            Some(a) => type_uses(a),
            None => match e {
                BoundExpr::ClientParameter { name, logical_type } => seq![(name, logical_type)],
                BoundExpr::ScalarFunction { arguments, .. } => type_list_uses(arguments@),
                BoundExpr::In { expression, values, .. } => type_uses(*expression) + type_list_uses(values@),
                BoundExpr::Exists(s) => type_projection_uses(s.projections@) + type_join_uses(s.joins@)
                    + type_optional_uses(s.predicate) + type_optional_uses(s.having) + type_optional_uses(s.limit)
                    + type_optional_uses(s.offset),
                BoundExpr::Case { branches, else_expression, .. } => type_branch_uses(branches@) + match else_expression {
                    Some(x) => type_uses(*x),
                    None => Seq::empty(),
                },
                _ => Seq::empty(),
            },
        },
    }
}

pub open spec fn type_list_uses(es: Seq<BoundExpr>) -> Seq<ParameterUse>
    decreases es,
{
    if es.len() == 0 {
        Seq::empty()
    } else {
        type_list_uses(es.drop_last()) + type_uses(es.last())
    }
}

pub open spec fn type_projection_uses(ps: Seq<BoundProjection>) -> Seq<ParameterUse>
    decreases ps,
{
    if ps.len() == 0 {
        Seq::empty()
    } else {
        type_projection_uses(ps.drop_last()) + type_uses(ps.last().expression)
    }
}

pub open spec fn type_join_uses(js: Seq<BoundJoin>) -> Seq<ParameterUse>
    decreases js,
{
    if js.len() == 0 {
        Seq::empty()
    } else {
        type_join_uses(js.drop_last()) + type_uses(js.last().on)
    }
}

pub open spec fn type_branch_uses(bs: Seq<(BoundExpr, BoundExpr)>) -> Seq<ParameterUse>
    decreases bs,
{
    if bs.len() == 0 {
        Seq::empty()
    } else {
        type_branch_uses(bs.drop_last()) + type_uses(bs.last().0) + type_uses(bs.last().1)
    }
}

pub open spec fn type_assignment_uses(assignments: Seq<BoundAssignment>) -> Seq<ParameterUse>
    decreases assignments,
{
    if assignments.len() == 0 {
        Seq::empty()
    } else {
        type_assignment_uses(assignments.drop_last()) + type_uses(assignments.last().value)
    }
}

pub open spec fn type_row_uses(rows: Seq<Vec<BoundAssignment>>) -> Seq<ParameterUse>
    decreases rows.len(),
{
    if rows.len() == 0 {
        Seq::empty()
    } else {
        type_row_uses(rows.drop_last()) + type_assignment_uses(rows.last()@)
    }
}

pub open spec fn type_optional_uses(e: Option<BoundExpr>) -> Seq<ParameterUse>
    decreases e,
{
    match e {
        Some(x) => type_uses(x),
        None => Seq::empty(),
    }
}

/// Appends the uses of the caller's parameters in `expression`.
fn gather_uses(expression: &BoundExpr, out: &mut Vec<ParameterUse>)
    ensures
        final(out)@ == old(out)@ + type_uses(*expression),
    decreases expression,
{
    proof {
        lemma_parts_decrease(*expression);
        lemma_operands_decrease(*expression);
    }
    let ghost start = out@;
    match expression {
        BoundExpr::ConditionalOutput { value, visible_if } => {
            gather_uses(&**value, out);
            gather_uses(&**visible_if, out);
            assert(out@ =~= start + type_uses(*expression));
            return;
        },
        _ => {},
    }
    match operands_of(expression) {
        Some((a, b)) => {
            gather_uses(a, out);
            gather_uses(b, out);
            assert(out@ =~= start + type_uses(*expression));
            return;
        },
        None => {},
    }
    match single_operand_of(expression) {
        Some(a) => {
            gather_uses(a, out);
            return;
        },
        None => {},
    }
    match expression {
        BoundExpr::ClientParameter { name, logical_type } => {
            out.push((name.clone(), *logical_type));
            assert(out@ =~= start + type_uses(*expression));
        },
        BoundExpr::ScalarFunction { arguments, .. } => {
            gather_list_uses(arguments, out);
        },
        BoundExpr::In { expression: inner, values, .. } => {
            gather_uses(&**inner, out);
            gather_list_uses(values, out);
            assert(out@ =~= start + type_uses(*expression));
        },
        BoundExpr::Exists(select) => {
            proof {
                assert(decreases_to!(expression => select.projections));
                assert(decreases_to!(expression => select.joins));
                assert(decreases_to!(expression => select.predicate));
                assert(decreases_to!(expression => select.having));
                assert(decreases_to!(expression => select.limit));
                assert(decreases_to!(expression => select.offset));
            }
            gather_projection_uses(&select.projections, out);
            gather_join_uses(&select.joins, out);
            gather_optional_uses(&select.predicate, out);
            gather_optional_uses(&select.having, out);
            gather_optional_uses(&select.limit, out);
            gather_optional_uses(&select.offset, out);
            assert(out@ =~= start + type_uses(*expression));
        },
        BoundExpr::Case { branches, else_expression, .. } => {
            gather_branch_uses(branches, out);
            match else_expression {
                Some(x) => gather_uses(&**x, out),
                None => {},
            }
            assert(out@ =~= start + type_uses(*expression));
        },
        _ => {
            assert(parts(*expression) is None);
            assert(single_operand(*expression) is None);
            assert(type_uses(*expression) =~= Seq::<ParameterUse>::empty());
            assert(out@ =~= start + type_uses(*expression));
        },
    }
}

fn gather_list_uses(es: &Vec<BoundExpr>, out: &mut Vec<ParameterUse>)
    ensures
        final(out)@ == old(out)@ + type_list_uses(es@),
    decreases es,
{
    let ghost start = out@;
    let ghost all = es@;
    let mut i: usize = 0;
    assert(all.take(0) =~= Seq::<BoundExpr>::empty());
    assert(out@ =~= start + type_list_uses(all.take(0)));
    while i < es.len()
        invariant
            all == es@,
            i <= all.len(),
            out@ == start + type_list_uses(all.take(i as int)),
        decreases es.len() - i,
    {
        proof {
            assert(decreases_to!(es => es@[i as int]));
            assert(all.take(i + 1).drop_last() =~= all.take(i as int));
            assert(all.take(i + 1).last() == all[i as int]);
        }
        gather_uses(&es[i], out);
        assert(out@ =~= start + type_list_uses(all.take(i + 1)));
        i = i + 1;
    }
    assert(all.take(i as int) =~= all);
}

fn gather_projection_uses(ps: &Vec<BoundProjection>, out: &mut Vec<ParameterUse>)
    ensures
        final(out)@ == old(out)@ + type_projection_uses(ps@),
    decreases ps,
{
    let ghost start = out@;
    let ghost all = ps@;
    let mut i: usize = 0;
    assert(all.take(0) =~= Seq::<BoundProjection>::empty());
    assert(out@ =~= start + type_projection_uses(all.take(0)));
    while i < ps.len()
        invariant
            all == ps@,
            i <= all.len(),
            out@ == start + type_projection_uses(all.take(i as int)),
        decreases ps.len() - i,
    {
        proof {
            assert(decreases_to!(ps => ps@[i as int]));
            assert(decreases_to!(ps@[i as int] => ps@[i as int].expression));
            assert(all.take(i + 1).drop_last() =~= all.take(i as int));
            assert(all.take(i + 1).last() == all[i as int]);
        }
        gather_uses(&ps[i].expression, out);
        assert(out@ =~= start + type_projection_uses(all.take(i + 1)));
        i = i + 1;
    }
    assert(all.take(i as int) =~= all);
}

fn gather_join_uses(js: &Vec<BoundJoin>, out: &mut Vec<ParameterUse>)
    ensures
        final(out)@ == old(out)@ + type_join_uses(js@),
    decreases js,
{
    let ghost start = out@;
    let ghost all = js@;
    let mut i: usize = 0;
    assert(all.take(0) =~= Seq::<BoundJoin>::empty());
    assert(out@ =~= start + type_join_uses(all.take(0)));
    while i < js.len()
        invariant
            all == js@,
            i <= all.len(),
            out@ == start + type_join_uses(all.take(i as int)),
        decreases js.len() - i,
    {
        proof {
            assert(decreases_to!(js => js@[i as int]));
            assert(decreases_to!(js@[i as int] => js@[i as int].on));
            assert(all.take(i + 1).drop_last() =~= all.take(i as int));
            assert(all.take(i + 1).last() == all[i as int]);
        }
        gather_uses(&js[i].on, out);
        assert(out@ =~= start + type_join_uses(all.take(i + 1)));
        i = i + 1;
    }
    assert(all.take(i as int) =~= all);
}

fn gather_branch_uses(bs: &Vec<(BoundExpr, BoundExpr)>, out: &mut Vec<ParameterUse>)
    ensures
        final(out)@ == old(out)@ + type_branch_uses(bs@),
    decreases bs,
{
    let ghost start = out@;
    let ghost all = bs@;
    let mut i: usize = 0;
    assert(all.take(0) =~= Seq::<(BoundExpr, BoundExpr)>::empty());
    assert(out@ =~= start + type_branch_uses(all.take(0)));
    while i < bs.len()
        invariant
            all == bs@,
            i <= all.len(),
            out@ == start + type_branch_uses(all.take(i as int)),
        decreases bs.len() - i,
    {
        proof {
            assert(decreases_to!(bs => bs@[i as int]));
            assert(decreases_to!(bs@[i as int] => bs@[i as int].0));
            assert(decreases_to!(bs@[i as int] => bs@[i as int].1));
            assert(all.take(i + 1).drop_last() =~= all.take(i as int));
            assert(all.take(i + 1).last() == all[i as int]);
        }
        gather_uses(&bs[i].0, out);
        gather_uses(&bs[i].1, out);
        assert(out@ =~= start + type_branch_uses(all.take(i + 1)));
        i = i + 1;
    }
    assert(all.take(i as int) =~= all);
}

fn gather_assignment_uses(assignments: &Vec<BoundAssignment>, out: &mut Vec<ParameterUse>)
    ensures
        final(out)@ == old(out)@ + type_assignment_uses(assignments@),
{
    let ghost start = out@;
    let ghost all = assignments@;
    let mut i: usize = 0;
    assert(all.take(0) =~= Seq::<BoundAssignment>::empty());
    assert(out@ =~= start + type_assignment_uses(all.take(0)));
    while i < assignments.len()
        invariant
            all == assignments@,
            i <= all.len(),
            out@ == start + type_assignment_uses(all.take(i as int)),
        decreases assignments.len() - i,
    {
        assert(all.take(i + 1).drop_last() =~= all.take(i as int));
        assert(all.take(i + 1).last() == all[i as int]);
        gather_uses(&assignments[i].value, out);
        assert(out@ =~= start + type_assignment_uses(all.take(i + 1)));
        i = i + 1;
    }
    assert(all.take(i as int) =~= all);
}

fn gather_optional_uses(e: &Option<BoundExpr>, out: &mut Vec<ParameterUse>)
    ensures
        final(out)@ == old(out)@ + type_optional_uses(*e),
    decreases e,
{
    match e {
        Some(x) => gather_uses(x, out),
        None => {
            assert(out@ =~= old(out)@ + type_optional_uses(*e));
        },
    }
}

/// The caller's parameters that statement `st` uses, in the order they
/// are met: a select's projections, join conditions, condition, `having`,
/// `limit` and `offset`; a write's assigned values and condition.
pub open spec fn statement_type_uses(st: BoundStatement) -> Seq<ParameterUse> {
    match st {
        BoundStatement::Select(s) => type_projection_uses(s.projections@) + type_join_uses(s.joins@)
            + type_optional_uses(s.predicate) + type_optional_uses(s.having) + type_optional_uses(s.limit)
            + type_optional_uses(s.offset),
        BoundStatement::ConstantSelect(c) => type_projection_uses(c.projections@),
        BoundStatement::JsonCollectionSelect(j) => type_uses(j.path) + type_optional_uses(j.predicate),
        BoundStatement::Insert(i) => type_row_uses(i.rows@),
        BoundStatement::Update(u) => type_assignment_uses(u.assignments@) + type_optional_uses(u.predicate),
        BoundStatement::Delete(d) => type_optional_uses(d.predicate),
    }
}

/// No name is used at two types.
pub open spec fn uses_agree(u: Seq<ParameterUse>) -> bool {
    forall|i: int, j: int|
        0 <= i < u.len() && 0 <= j < u.len() && (#[trigger] u[i]).0@ == (#[trigger] u[j]).0@ ==> u[i].1 == u[j].1
}

/// `m` maps each name used in `u` to the type it is used at, and holds
/// nothing else.
pub open spec fn types_are(m: TextMap<LogicalType>, u: Seq<ParameterUse>) -> bool {
    &&& m.wf()
    &&& forall|k: Seq<char>| #[trigger] m.has_key(k) == exists|i: int| 0 <= i < u.len() && (#[trigger] u[i]).0@ == k
    &&& forall|i: int| 0 <= i < u.len() ==> m.spec_get((#[trigger] u[i]).0@) == Some(u[i].1)
}

fn gather_statement_uses(statement: &BoundStatement) -> (r: Vec<ParameterUse>)
    ensures
        r@ == statement_type_uses(*statement),
{
    let mut out: Vec<ParameterUse> = Vec::new();
    match statement {
        BoundStatement::Select(select) => {
            gather_projection_uses(&select.projections, &mut out);
            gather_join_uses(&select.joins, &mut out);
            gather_optional_uses(&select.predicate, &mut out);
            gather_optional_uses(&select.having, &mut out);
            gather_optional_uses(&select.limit, &mut out);
            gather_optional_uses(&select.offset, &mut out);
        },
        BoundStatement::ConstantSelect(select) => {
            gather_projection_uses(&select.projections, &mut out);
        },
        BoundStatement::JsonCollectionSelect(select) => {
            gather_uses(&select.path, &mut out);
            gather_optional_uses(&select.predicate, &mut out);
        },
        BoundStatement::Insert(insert) => {
            let ghost all = insert.rows@;
            let mut r: usize = 0;
            assert(all.take(0) =~= Seq::<Vec<BoundAssignment>>::empty());
            assert(out@ =~= type_row_uses(all.take(0)));
            while r < insert.rows.len()
                invariant
                    all == insert.rows@,
                    r <= all.len(),
                    out@ == type_row_uses(all.take(r as int)),
                decreases insert.rows.len() - r,
            {
                assert(all.take(r + 1).drop_last() =~= all.take(r as int));
                assert(all.take(r + 1).last() == all[r as int]);
                gather_assignment_uses(&insert.rows[r], &mut out);
                r = r + 1;
            }
            assert(all.take(r as int) =~= all);
        },
        BoundStatement::Update(update) => {
            gather_assignment_uses(&update.assignments, &mut out);
            gather_optional_uses(&update.predicate, &mut out);
        },
        BoundStatement::Delete(delete) => {
            gather_optional_uses(&delete.predicate, &mut out);
        },
    }
    assert(out@ =~= statement_type_uses(*statement));
    out
}

/// The type at which `statement` uses each of the caller's parameters;
/// refused as ambiguous where it uses one name at two types.
pub fn statement_parameter_types(statement: &BoundStatement) -> (r: Result<TextMap<LogicalType>, RuntimeError>)
    ensures
        r is Ok <==> uses_agree(statement_type_uses(*statement)),
        r matches Err(e) ==> e == RuntimeError::Rejected(RejectionKind::AmbiguousParameterType),
        r matches Ok(m) ==> types_are(m, statement_type_uses(*statement)),
{
    let uses = gather_statement_uses(statement);
    let ghost u = uses@;
    let mut map: TextMap<LogicalType> = TextMap::new();
    let mut i: usize = 0;
    assert(u.take(0) =~= Seq::<ParameterUse>::empty());
    while i < uses.len()
        invariant
            u == uses@,
            u == statement_type_uses(*statement),
            i <= u.len(),
            uses_agree(u.take(i as int)),
            types_are(map, u.take(i as int)),
        decreases uses.len() - i,
    {
        let name = uses[i].0.as_str();
        let t = uses[i].1;
        let ghost before = map;
        let ghost key = u[i as int].0@;
        let ghost prefix = u.take(i as int);
        let ghost next = u.take(i + 1);
        assert(next =~= prefix.push(u[i as int]));
        let previous = map.insert(owned(name), t);
        match previous {
            Some(old) => {
                if old != t {
                    proof {
                        assert(before.has_key(key));
                        let j = choose|j: int| 0 <= j < prefix.len() && (#[trigger] prefix[j]).0@ == key;
                        assert(before.spec_get(prefix[j].0@) == Some(prefix[j].1));
                        assert(u[j].0@ == u[i as int].0@);
                        assert(u[j].1 != u[i as int].1);
                        assert(!uses_agree(u)) by {
                            assert(u[j].0@ == u[i as int].0@);
                        }
                    }
                    return Err(RuntimeError::Rejected(RejectionKind::AmbiguousParameterType));
                }
            },
            None => {},
        }
        proof {
            assert forall|k: Seq<char>| #[trigger]
                map.has_key(k) == exists|q: int| 0 <= q < next.len() && (#[trigger] next[q]).0@ == k by {
                if k == key {
                    assert(next[i as int].0@ == k);
                } else {
                    if exists|q: int| 0 <= q < next.len() && (#[trigger] next[q]).0@ == k {
                        let q = choose|q: int| 0 <= q < next.len() && (#[trigger] next[q]).0@ == k;
                        assert(q < i);
                        assert(prefix[q] == next[q]);
                    }
                    if before.has_key(k) {
                        let q = choose|q: int| 0 <= q < prefix.len() && (#[trigger] prefix[q]).0@ == k;
                        assert(next[q] == prefix[q]);
                    }
                }
            }
            assert forall|q: int| 0 <= q < next.len() implies map.spec_get((#[trigger] next[q]).0@) == Some(next[q].1) by {
                if q < i {
                    assert(next[q] == prefix[q]);
                    if next[q].0@ == key {
                        assert(before.spec_get(prefix[q].0@) == Some(prefix[q].1));
                    }
                }
            }
            assert forall|a: int, b: int|
                0 <= a < next.len() && 0 <= b < next.len() && (#[trigger] next[a]).0@ == (#[trigger] next[b]).0@ implies next[a].1
                == next[b].1 by {
                if a < i && b < i {
                    assert(next[a] == prefix[a] && next[b] == prefix[b]);
                } else if a < i {
                    assert(next[a] == prefix[a]);
                    assert(before.spec_get(prefix[a].0@) == Some(prefix[a].1));
                } else if b < i {
                    assert(next[b] == prefix[b]);
                    assert(before.spec_get(prefix[b].0@) == Some(prefix[b].1));
                }
            }
        }
        i = i + 1;
    }
    assert(u.take(i as int) =~= u);
    Ok(map)
}

} // verus!
