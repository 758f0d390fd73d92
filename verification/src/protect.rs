//! Protecting the selects nested in a caller's condition: each one gets
//! its own resource's row filter and row cap, as a top-level select would.
use vstd::prelude::*;
use crate::bundle::PolicyBundle;
use crate::compile::{joined, restricted, select_policy_of};
use crate::identity::{LogicalValue, TrustedSession};
use crate::instantiate::{
    extends_with, instantiate_predicate, lemma_extends_chain, lemma_extends_none,
    lemma_extends_same, predicate_expr, predicate_reads, predicate_refusal,
};
use crate::ir::{BoundExpr, BoundSelect};
use crate::policy::PolicyError;
use crate::scan::{first_refusal, lemma_operands_decrease, operands, single_operand};
use crate::text_map::TextMap;

verus! {

/// The row cap as a signed count: caps beyond the largest `i64` saturate.
pub open spec fn cap_value(cap: u64) -> i64 {
    if cap <= i64::MAX as u64 {
        cap as i64
    } else {
        i64::MAX
    }
}

/// The `limit` of a select after a policy's row cap: a literal count
/// becomes the smaller of the two, another count expression becomes the
/// least of both, and a select without a limit gets the cap.
pub open spec fn capped(limit: Option<BoundExpr>, cap: Option<u64>) -> Option<BoundExpr> {
    match cap {
        None => limit,
        Some(c) => {
            let p = cap_value(c);
            match limit {
                Some(BoundExpr::Literal(LogicalValue::Int64(client))) => Some(
                    BoundExpr::Literal(LogicalValue::Int64(if client <= p { client } else { p })),
                ),
                Some(other) => Some(
                    BoundExpr::Least(Box::new(other), Box::new(BoundExpr::Literal(LogicalValue::Int64(p)))),
                ),
                None => Some(BoundExpr::Literal(LogicalValue::Int64(p))),
            }
        },
    }
}

/// Applies a policy's row cap to a select's `limit`.
pub fn capped_limit(limit: Option<BoundExpr>, cap: Option<u64>) -> (r: Option<BoundExpr>)
    ensures
        r == capped(limit, cap),
{
    let c = match cap {
        None => return limit,
        Some(c) => c,
    };
    let p: i64 = if c <= i64::MAX as u64 {
        c as i64
    } else {
        i64::MAX
    };
    match limit {
        Some(BoundExpr::Literal(LogicalValue::Int64(client))) => Some(
            BoundExpr::Literal(LogicalValue::Int64(if client <= p { client } else { p })),
        ),
        Some(other) => Some(
            BoundExpr::Least(Box::new(other), Box::new(BoundExpr::Literal(LogicalValue::Int64(p)))),
        ),
        None => Some(BoundExpr::Literal(LogicalValue::Int64(p))),
    }
}

/// `e` rebuilt with the operands `a` and `b`.
pub open spec fn rebuild2(e: BoundExpr, a: BoundExpr, b: BoundExpr) -> BoundExpr {
    match e {
        BoundExpr::Equal(_, _) => BoundExpr::Equal(Box::new(a), Box::new(b)),
        BoundExpr::NotEqual(_, _) => BoundExpr::NotEqual(Box::new(a), Box::new(b)),
        BoundExpr::Less(_, _) => BoundExpr::Less(Box::new(a), Box::new(b)),
        BoundExpr::LessEqual(_, _) => BoundExpr::LessEqual(Box::new(a), Box::new(b)),
        BoundExpr::Greater(_, _) => BoundExpr::Greater(Box::new(a), Box::new(b)),
        BoundExpr::GreaterEqual(_, _) => BoundExpr::GreaterEqual(Box::new(a), Box::new(b)),
        BoundExpr::And(_, _) => BoundExpr::And(Box::new(a), Box::new(b)),
        BoundExpr::Or(_, _) => BoundExpr::Or(Box::new(a), Box::new(b)),
        BoundExpr::Like(_, _) => BoundExpr::Like(Box::new(a), Box::new(b)),
        BoundExpr::Glob(_, _) => BoundExpr::Glob(Box::new(a), Box::new(b)),
        BoundExpr::Least(_, _) => BoundExpr::Least(Box::new(a), Box::new(b)),
        BoundExpr::Concat(_, _) => BoundExpr::Concat(Box::new(a), Box::new(b)),
        BoundExpr::ConditionalOutput { .. } => BoundExpr::ConditionalOutput {
            value: Box::new(a),
            visible_if: Box::new(b),
        },
        _ => e,
    }
}

/// `e` rebuilt with the operand `a`.
pub open spec fn rebuild1(e: BoundExpr, a: BoundExpr) -> BoundExpr {
    match e {
        BoundExpr::Not(_) => BoundExpr::Not(Box::new(a)),
        BoundExpr::IsNull(_) => BoundExpr::IsNull(Box::new(a)),
        BoundExpr::CastText(_) => BoundExpr::CastText(Box::new(a)),
        _ => e,
    }
}

/// The two parts of a two-part expression, a shown-if value included.
pub open spec fn parts(e: BoundExpr) -> Option<(BoundExpr, BoundExpr)> {
    match e {
        BoundExpr::ConditionalOutput { value, visible_if } => Some((*value, *visible_if)),
        _ => operands(e),
    }
}

pub proof fn lemma_parts_decrease(e: BoundExpr)
    ensures
        parts(e) matches Some(p) ==> decreases_to!(e => p.0) && decreases_to!(e => p.1),
{
    lemma_operands_decrease(e);
}

/// Why the selects nested in `e` cannot be protected: the first refusal
/// met walking it left to right.
pub open spec fn protect_refusal(e: BoundExpr, b: PolicyBundle, session: TrustedSession) -> Option<
    PolicyError,
>
    decreases e,
{
    proof {
        lemma_parts_decrease(e);
        lemma_operands_decrease(e);
    }
    match parts(e) {
        Some(p) => first_refusal(protect_refusal(p.0, b, session), protect_refusal(p.1, b, session)),
        None => match single_operand(e) {
            Some(a) => protect_refusal(a, b, session),
            None => match e {
                BoundExpr::Exists(s) => first_refusal(
                    match s.predicate {
                        Some(p) => protect_refusal(p, b, session),
                        None => None,
                    },
                    match select_policy_of(b, s.resource, session.role_spec()@) {
                        None => Some(PolicyError::MissingPolicy),
                        Some(pol) => predicate_refusal(pol.filter, session),
                    },
                ),
                BoundExpr::ScalarFunction { arguments, .. } => protect_list_refusal(
                    arguments@,
                    b,
                    session,
                ),
                BoundExpr::In { expression, values, .. } => first_refusal(
                    protect_refusal(*expression, b, session),
                    protect_list_refusal(values@, b, session),
                ),
                BoundExpr::Case { branches, else_expression, .. } => first_refusal(
                    protect_branches_refusal(branches@, b, session),
                    match else_expression {
                        Some(x) => protect_refusal(*x, b, session),
                        None => None,
                    },
                ),
                _ => None,
            },
        },
    }
}

pub open spec fn protect_list_refusal(es: Seq<BoundExpr>, b: PolicyBundle, session: TrustedSession) -> Option<
    PolicyError,
>
    decreases es,
{
    if es.len() == 0 {
        None
    } else {
        first_refusal(
            protect_list_refusal(es.drop_last(), b, session),
            protect_refusal(es.last(), b, session),
        )
    }
}

pub open spec fn protect_branches_refusal(
    bs: Seq<(BoundExpr, BoundExpr)>,
    b: PolicyBundle,
    session: TrustedSession,
) -> Option<PolicyError>
    decreases bs,
{
    if bs.len() == 0 {
        None
    } else {
        first_refusal(
            protect_branches_refusal(bs.drop_last(), b, session),
            first_refusal(
                protect_refusal(bs.last().0, b, session),
                protect_refusal(bs.last().1, b, session),
            ),
        )
    }
}

/// The session keys that the filters of the selects nested in `e` read.
pub open spec fn protect_reads(e: BoundExpr, b: PolicyBundle, role: Seq<char>, k: Seq<char>) -> bool
    decreases e,
{
    proof {
        lemma_parts_decrease(e);
        lemma_operands_decrease(e);
    }
    match parts(e) {
        Some(p) => protect_reads(p.0, b, role, k) || protect_reads(p.1, b, role, k),
        None => match single_operand(e) {
            Some(a) => protect_reads(a, b, role, k),
            None => match e {
                BoundExpr::Exists(s) => (s.predicate matches Some(p) && protect_reads(p, b, role, k))
                    || (select_policy_of(b, s.resource, role) matches Some(pol) && predicate_reads(
                    pol.filter,
                    k,
                )),
                BoundExpr::ScalarFunction { arguments, .. } => exists|i: int|
                    0 <= i < arguments@.len() && protect_reads(#[trigger] arguments@[i], b, role, k),
                BoundExpr::In { expression, values, .. } => protect_reads(*expression, b, role, k)
                    || exists|i: int| 0 <= i < values@.len() && protect_reads(#[trigger] values@[i], b, role, k),
                BoundExpr::Case { branches, else_expression, .. } => (exists|i: int|
                    0 <= i < branches@.len() && (protect_reads(#[trigger] branches@[i].0, b, role, k)
                        || protect_reads(branches@[i].1, b, role, k))) || (else_expression matches Some(
                    x,
                ) && protect_reads(*x, b, role, k)),
                _ => false,
            },
        },
    }
}

/// `out` is `e` with every nested select protected by its resource's
/// select policy for `role`.
pub open spec fn protected(out: BoundExpr, e: BoundExpr, b: PolicyBundle, role: Seq<char>) -> bool
    decreases e,
{
    proof {
        lemma_parts_decrease(e);
        lemma_operands_decrease(e);
    }
    match parts(e) {
        Some(p) => parts(out) matches Some(q) && out == rebuild2(e, q.0, q.1) && protected(
            q.0,
            p.0,
            b,
            role,
        ) && protected(q.1, p.1, b, role),
        None => match single_operand(e) {
            Some(a) => single_operand(out) matches Some(x) && out == rebuild1(e, x) && protected(
                x,
                a,
                b,
                role,
            ),
            None => match e {
                BoundExpr::Exists(s) => match out {
                    BoundExpr::Exists(t) => select_protected(*t, *s, b, role),
                    _ => false,
                },
                BoundExpr::ScalarFunction { function, arguments, logical_type } => out matches BoundExpr::ScalarFunction {
                    function: f2,
                    arguments: a2,
                    logical_type: t2,
                } && f2 == function && t2 == logical_type && a2@.len() == arguments@.len()
                    && forall|i: int|
                    0 <= i < arguments@.len() ==> protected(
                        #[trigger] a2@[i],
                        arguments@[i],
                        b,
                        role,
                    ),
                BoundExpr::In { expression, values, negated } => out matches BoundExpr::In {
                    expression: x2,
                    values: v2,
                    negated: n2,
                } && n2 == negated && protected(*x2, *expression, b, role) && v2@.len()
                    == values@.len() && forall|i: int|
                    0 <= i < values@.len() ==> protected(#[trigger] v2@[i], values@[i], b, role),
                BoundExpr::Case { branches, else_expression, logical_type } => out matches BoundExpr::Case {
                    branches: b2,
                    else_expression: e2,
                    logical_type: t2,
                } && t2 == logical_type && b2@.len() == branches@.len() && (forall|i: int|
                    0 <= i < branches@.len() ==> protected(
                        (#[trigger] b2@[i]).0,
                        branches@[i].0,
                        b,
                        role,
                    ) && protected(b2@[i].1, branches@[i].1, b, role)) && match else_expression {
                    Some(x) => e2 matches Some(y) && protected(*y, *x, b, role),
                    None => e2 is None,
                },
                _ => out == e,
            },
        },
    }
}

/// `t` is the nested select `s` with its resource's select policy for
/// `role` applied: its row filter joins the protected condition and its
/// row cap bounds the limit.
pub open spec fn select_protected(t: BoundSelect, s: BoundSelect, b: PolicyBundle, role: Seq<char>) -> bool
    decreases s,
{
    match select_policy_of(b, s.resource, role) {
        None => false,
        Some(pol) => {
            &&& t.resource == s.resource
            &&& t.alias == s.alias
            &&& t.joins == s.joins
            &&& t.projections == s.projections
            &&& t.group_by == s.group_by
            &&& t.having == s.having
            &&& t.order_by == s.order_by
            &&& t.offset == s.offset
            &&& t.limit == capped(s.limit, pol.limit)
            &&& match t.predicate {
                None => false,
                Some(q) => match s.predicate {
                    Some(p) => match q {
                        BoundExpr::And(l, r) => protected(*l, p, b, role) && predicate_expr(
                            *r,
                            pol.filter,
                        ),
                        _ => false,
                    },
                    None => predicate_expr(q, pol.filter),
                },
            }
        },
    }
}

/// Which two-part expression a pair of parts came from.
#[derive(Clone, Copy, Debug, PartialEq, Eq, Structural)]
pub enum PairKind {
    Equal,
    NotEqual,
    Less,
    LessEqual,
    Greater,
    GreaterEqual,
    And,
    Or,
    Like,
    Glob,
    Least,
    Concat,
    Conditional,
}

/// The two-part expression of kind `k` over `a` and `b`.
pub open spec fn pair_of(k: PairKind, a: BoundExpr, b: BoundExpr) -> BoundExpr {
    match k {
        PairKind::Equal => BoundExpr::Equal(Box::new(a), Box::new(b)),
        PairKind::NotEqual => BoundExpr::NotEqual(Box::new(a), Box::new(b)),
        PairKind::Less => BoundExpr::Less(Box::new(a), Box::new(b)),
        PairKind::LessEqual => BoundExpr::LessEqual(Box::new(a), Box::new(b)),
        PairKind::Greater => BoundExpr::Greater(Box::new(a), Box::new(b)),
        PairKind::GreaterEqual => BoundExpr::GreaterEqual(Box::new(a), Box::new(b)),
        PairKind::And => BoundExpr::And(Box::new(a), Box::new(b)),
        PairKind::Or => BoundExpr::Or(Box::new(a), Box::new(b)),
        PairKind::Like => BoundExpr::Like(Box::new(a), Box::new(b)),
        PairKind::Glob => BoundExpr::Glob(Box::new(a), Box::new(b)),
        PairKind::Least => BoundExpr::Least(Box::new(a), Box::new(b)),
        PairKind::Concat => BoundExpr::Concat(Box::new(a), Box::new(b)),
        PairKind::Conditional => BoundExpr::ConditionalOutput { value: Box::new(a), visible_if: Box::new(b) },
    }
}

fn join_pair(k: PairKind, a: BoundExpr, b: BoundExpr) -> (r: BoundExpr)
    ensures
        r == pair_of(k, a, b),
{
    let a = Box::new(a);
    let b = Box::new(b);
    match k {
        PairKind::Equal => BoundExpr::Equal(a, b),
        PairKind::NotEqual => BoundExpr::NotEqual(a, b),
        PairKind::Less => BoundExpr::Less(a, b),
        PairKind::LessEqual => BoundExpr::LessEqual(a, b),
        PairKind::Greater => BoundExpr::Greater(a, b),
        PairKind::GreaterEqual => BoundExpr::GreaterEqual(a, b),
        PairKind::And => BoundExpr::And(a, b),
        PairKind::Or => BoundExpr::Or(a, b),
        PairKind::Like => BoundExpr::Like(a, b),
        PairKind::Glob => BoundExpr::Glob(a, b),
        PairKind::Least => BoundExpr::Least(a, b),
        PairKind::Concat => BoundExpr::Concat(a, b),
        PairKind::Conditional => BoundExpr::ConditionalOutput { value: a, visible_if: b },
    }
}

/// Takes a two-part expression apart, or gives the expression back.
fn split_pair(e: BoundExpr) -> (r: Result<(PairKind, BoundExpr, BoundExpr), BoundExpr>)
    ensures
        match r {
            Ok(t) => parts(e) == Some((t.1, t.2)) && forall|x: BoundExpr, y: BoundExpr|
                #[trigger] rebuild2(e, x, y) == pair_of(t.0, x, y),
            Err(x) => parts(e) is None && x == e,
        },
{
    match e {
        BoundExpr::Equal(a, b) => Ok((PairKind::Equal, *a, *b)),
        BoundExpr::NotEqual(a, b) => Ok((PairKind::NotEqual, *a, *b)),
        BoundExpr::Less(a, b) => Ok((PairKind::Less, *a, *b)),
        BoundExpr::LessEqual(a, b) => Ok((PairKind::LessEqual, *a, *b)),
        BoundExpr::Greater(a, b) => Ok((PairKind::Greater, *a, *b)),
        BoundExpr::GreaterEqual(a, b) => Ok((PairKind::GreaterEqual, *a, *b)),
        BoundExpr::And(a, b) => Ok((PairKind::And, *a, *b)),
        BoundExpr::Or(a, b) => Ok((PairKind::Or, *a, *b)),
        BoundExpr::Like(a, b) => Ok((PairKind::Like, *a, *b)),
        BoundExpr::Glob(a, b) => Ok((PairKind::Glob, *a, *b)),
        BoundExpr::Least(a, b) => Ok((PairKind::Least, *a, *b)),
        BoundExpr::Concat(a, b) => Ok((PairKind::Concat, *a, *b)),
        BoundExpr::ConditionalOutput { value, visible_if } => Ok((PairKind::Conditional, *value, *visible_if)),
        other => Err(other),
    }
}

/// Which one-operand expression an operand came from.
#[derive(Clone, Copy, Debug, PartialEq, Eq, Structural)]
pub enum SingleKind {
    Not,
    IsNull,
    CastText,
}

pub open spec fn single_of(k: SingleKind, a: BoundExpr) -> BoundExpr {
    match k {
        SingleKind::Not => BoundExpr::Not(Box::new(a)),
        SingleKind::IsNull => BoundExpr::IsNull(Box::new(a)),
        SingleKind::CastText => BoundExpr::CastText(Box::new(a)),
    }
}

fn join_single(k: SingleKind, a: BoundExpr) -> (r: BoundExpr)
    ensures
        r == single_of(k, a),
{
    match k {
        SingleKind::Not => BoundExpr::Not(Box::new(a)),
        SingleKind::IsNull => BoundExpr::IsNull(Box::new(a)),
        SingleKind::CastText => BoundExpr::CastText(Box::new(a)),
    }
}

fn split_single(e: BoundExpr) -> (r: Result<(SingleKind, BoundExpr), BoundExpr>)
    ensures
        match r {
            Ok(t) => single_operand(e) == Some(t.1) && forall|x: BoundExpr|
                #[trigger] rebuild1(e, x) == single_of(t.0, x),
            Err(x) => single_operand(e) is None && x == e,
        },
{
    match e {
        BoundExpr::Not(a) => Ok((SingleKind::Not, *a)),
        BoundExpr::IsNull(a) => Ok((SingleKind::IsNull, *a)),
        BoundExpr::CastText(a) => Ok((SingleKind::CastText, *a)),
        other => Err(other),
    }
}

/// Protects every select nested in `expression`: each gets the row
/// filter and the row cap of its resource's select policy for the
/// session's role; the session values those filters read are bound in
/// `server_values`.
pub fn protect_nested_selects(
    expression: BoundExpr,
    bundle: &PolicyBundle,
    session: &TrustedSession,
    server_values: &mut TextMap<LogicalValue>,
) -> (r: Result<BoundExpr, PolicyError>)
    requires
        old(server_values).wf(),
    ensures
        final(server_values).wf(),
        match r {
            Ok(out) => protect_refusal(expression, *bundle, *session) is None && protected(
                out,
                expression,
                *bundle,
                session.role_spec()@,
            ) && extends_with(
                *old(server_values),
                *final(server_values),
                |k: Seq<char>| protect_reads(expression, *bundle, session.role_spec()@, k),
                *session,
            ),
            Err(e) => protect_refusal(expression, *bundle, *session) == Some(e),
        },
    decreases expression,
{
    let ghost e0 = expression;
    let ghost role = session.role_spec()@;
    let ghost start = *server_values;
    proof {
        lemma_parts_decrease(e0);
        lemma_operands_decrease(e0);
    }
    let expression = match split_pair(expression) {
        Ok((kind, a, b)) => {
            let x = match protect_nested_selects(a, bundle, session, server_values) {
                Ok(x) => x,
                Err(e) => return Err(e),
            };
            let ghost mid = *server_values;
            let y = match protect_nested_selects(b, bundle, session, server_values) {
                Ok(y) => y,
                Err(e) => return Err(e),
            };
            let out = join_pair(kind, x, y);
            proof {
                assert(rebuild2(e0, x, y) == pair_of(kind, x, y));
                lemma_extends_chain(
                    start,
                    mid,
                    *server_values,
                    |k: Seq<char>| protect_reads(a, *bundle, role, k),
                    |k: Seq<char>| protect_reads(b, *bundle, role, k),
                    *session,
                );
                lemma_extends_same(
                    start,
                    *server_values,
                    |k: Seq<char>| protect_reads(a, *bundle, role, k) || protect_reads(b, *bundle, role, k),
                    |k: Seq<char>| protect_reads(e0, *bundle, role, k),
                    *session,
                );
            }
            return Ok(out);
        },
        Err(e) => e,
    };
    let expression = match split_single(expression) {
        Ok((kind, a)) => {
            let x = match protect_nested_selects(a, bundle, session, server_values) {
                Ok(x) => x,
                Err(e) => return Err(e),
            };
            let out = join_single(kind, x);
            proof {
                assert(rebuild1(e0, x) == single_of(kind, x));
                lemma_extends_same(
                    start,
                    *server_values,
                    |k: Seq<char>| protect_reads(a, *bundle, role, k),
                    |k: Seq<char>| protect_reads(e0, *bundle, role, k),
                    *session,
                );
            }
            return Ok(out);
        },
        Err(e) => e,
    };
    match expression {
        BoundExpr::Exists(boxed) => {
            let select = *boxed;
            let ghost s0 = select;
            let predicate = match select.predicate {
                Some(p) => {
                    proof {
                        assert(decreases_to!(e0 => s0));
                        assert(decreases_to!(s0 => p));
                    }
                    match protect_nested_selects(p, bundle, session, server_values) {
                        Ok(x) => Some(x),
                        Err(e) => return Err(e),
                    }
                },
                None => None,
            };
            let ghost mid = *server_values;
            let policy = match bundle.policies(select.resource) {
                Some(entry) => match entry.select.get(session.role().as_str()) {
                    Some(p) => p,
                    None => return Err(PolicyError::MissingPolicy),
                },
                None => return Err(PolicyError::MissingPolicy),
            };
            let filter = match instantiate_predicate(&policy.filter, session, server_values) {
                Ok(f) => f,
                Err(e) => return Err(e),
            };
            let protected_select = BoundSelect {
                resource: select.resource,
                alias: select.alias,
                joins: select.joins,
                projections: select.projections,
                predicate: Some(crate::compile::and_optional(predicate, filter)),
                group_by: select.group_by,
                having: select.having,
                order_by: select.order_by,
                limit: capped_limit(select.limit, policy.limit),
                offset: select.offset,
            };
            proof {
                assert(select_policy_of(*bundle, s0.resource, role) == Some(*policy));
                assert(protected_select.limit == capped(s0.limit, policy.limit));
                assert(protected_select.joins == s0.joins);
                match s0.predicate {
                    Some(p) => {
                        assert(protected_select.predicate matches Some(BoundExpr::And(l, r)) && protected(*l, p, *bundle, role) && predicate_expr(*r, policy.filter));
                    },
                    None => {
                        assert(protected_select.predicate matches Some(q) && predicate_expr(q, policy.filter));
                    },
                }
                assert(select_protected(protected_select, s0, *bundle, role));
                let r1 = |k: Seq<char>| s0.predicate matches Some(p) && protect_reads(p, *bundle, role, k);
                let r2 = |k: Seq<char>| predicate_reads(policy.filter, k);
                if s0.predicate is None {
                    lemma_extends_none(start, *session);
                    lemma_extends_same(start, start, |k: Seq<char>| false, r1, *session);
                } else {
                    lemma_extends_same(
                        start,
                        mid,
                        |k: Seq<char>| protect_reads(s0.predicate->0, *bundle, role, k),
                        r1,
                        *session,
                    );
                }
                lemma_extends_chain(start, mid, *server_values, r1, r2, *session);
                lemma_extends_same(
                    start,
                    *server_values,
                    |k: Seq<char>| r1(k) || r2(k),
                    |k: Seq<char>| protect_reads(e0, *bundle, role, k),
                    *session,
                );
            }
            Ok(BoundExpr::Exists(Box::new(protected_select)))
        },
        BoundExpr::ScalarFunction { function, arguments, logical_type } => {
            let ghost a0 = arguments;
            proof {
                assert(decreases_to!(e0 => a0));
            }
            let arguments = match protect_list(arguments, bundle, session, server_values) {
                Ok(v) => v,
                Err(e) => return Err(e),
            };
            proof {
                lemma_extends_same(
                    start,
                    *server_values,
                    |k: Seq<char>| exists|i: int|
                        0 <= i < a0@.len() && protect_reads(#[trigger] a0@[i], *bundle, role, k),
                    |k: Seq<char>| protect_reads(e0, *bundle, role, k),
                    *session,
                );
            }
            Ok(BoundExpr::ScalarFunction { function, arguments, logical_type })
        },
        BoundExpr::In { expression: inner, values, negated } => {
            let ghost i0 = *inner;
            let ghost v0 = values;
            proof {
                assert(decreases_to!(e0 => v0));
            }
            let x = match protect_nested_selects(*inner, bundle, session, server_values) {
                Ok(x) => x,
                Err(e) => return Err(e),
            };
            let ghost mid = *server_values;
            let values = match protect_list(values, bundle, session, server_values) {
                Ok(v) => v,
                Err(e) => return Err(e),
            };
            proof {
                let r1 = |k: Seq<char>| protect_reads(i0, *bundle, role, k);
                let r2 = |k: Seq<char>| exists|i: int|
                    0 <= i < v0@.len() && protect_reads(#[trigger] v0@[i], *bundle, role, k);
                lemma_extends_chain(start, mid, *server_values, r1, r2, *session);
                lemma_extends_same(
                    start,
                    *server_values,
                    |k: Seq<char>| r1(k) || r2(k),
                    |k: Seq<char>| protect_reads(e0, *bundle, role, k),
                    *session,
                );
            }
            Ok(BoundExpr::In { expression: Box::new(x), values, negated })
        },
        BoundExpr::Case { branches, else_expression, logical_type } => {
            let ghost b0 = branches;
            let ghost x0 = else_expression;
            proof {
                assert(decreases_to!(e0 => b0));
            }
            let branches = match protect_branches(branches, bundle, session, server_values) {
                Ok(v) => v,
                Err(e) => return Err(e),
            };
            let ghost mid = *server_values;
            let else_expression = match else_expression {
                Some(x) => {
                    proof {
                        assert(decreases_to!(e0 => *x0->0));
                    }
                    match protect_nested_selects(*x, bundle, session, server_values) {
                        Ok(y) => Some(Box::new(y)),
                        Err(e) => return Err(e),
                    }
                },
                None => None,
            };
            proof {
                let r1 = |k: Seq<char>| exists|i: int|
                    0 <= i < b0@.len() && (protect_reads(#[trigger] b0@[i].0, *bundle, role, k)
                        || protect_reads(b0@[i].1, *bundle, role, k));
                let r2 = |k: Seq<char>| x0 matches Some(x) && protect_reads(*x, *bundle, role, k);
                if x0 is None {
                    lemma_extends_none(mid, *session);
                    lemma_extends_same(mid, mid, |k: Seq<char>| false, r2, *session);
                } else {
                    lemma_extends_same(
                        mid,
                        *server_values,
                        |k: Seq<char>| protect_reads(*x0->0, *bundle, role, k),
                        r2,
                        *session,
                    );
                }
                lemma_extends_chain(start, mid, *server_values, r1, r2, *session);
                lemma_extends_same(
                    start,
                    *server_values,
                    |k: Seq<char>| r1(k) || r2(k),
                    |k: Seq<char>| protect_reads(e0, *bundle, role, k),
                    *session,
                );
            }
            Ok(BoundExpr::Case { branches, else_expression, logical_type })
        },
        _ => {
            proof {
                lemma_extends_none(start, *session);
                lemma_extends_same(
                    start,
                    start,
                    |k: Seq<char>| false,
                    |k: Seq<char>| protect_reads(e0, *bundle, role, k),
                    *session,
                );
            }
            Ok(expression)
        },
    }
}

proof fn lemma_list_refusal_stays(es: Seq<BoundExpr>, b: PolicyBundle, session: TrustedSession, i: int)
    requires
        0 <= i <= es.len(),
        protect_list_refusal(es.take(i), b, session) is Some,
    ensures
        protect_list_refusal(es, b, session) == protect_list_refusal(es.take(i), b, session),
    decreases es.len() - i,
{
    if i < es.len() {
        assert(es.take(i + 1).drop_last() =~= es.take(i));
        lemma_list_refusal_stays(es, b, session, i + 1);
    } else {
        assert(es.take(i) =~= es);
    }
}

fn protect_list(
    es: Vec<BoundExpr>,
    bundle: &PolicyBundle,
    session: &TrustedSession,
    server_values: &mut TextMap<LogicalValue>,
) -> (r: Result<Vec<BoundExpr>, PolicyError>)
    requires
        old(server_values).wf(),
    ensures
        final(server_values).wf(),
        match r {
            Ok(v) => protect_list_refusal(es@, *bundle, *session) is None && v@.len() == es@.len()
                && (forall|i: int|
                0 <= i < es@.len() ==> protected(
                    #[trigger] v@[i],
                    es@[i],
                    *bundle,
                    session.role_spec()@,
                )) && extends_with(
                *old(server_values),
                *final(server_values),
                |k: Seq<char>| exists|i: int|
                    0 <= i < es@.len() && protect_reads(
                        #[trigger] es@[i],
                        *bundle,
                        session.role_spec()@,
                        k,
                    ),
                *session,
            ),
            Err(e) => protect_list_refusal(es@, *bundle, *session) == Some(e),
        },
    decreases es,
{
    let ghost all = es@;
    let ghost orig = es;
    let ghost role = session.role_spec()@;
    let ghost start = *server_values;
    let mut rest = es;
    let mut out: Vec<BoundExpr> = Vec::new();
    let mut k: usize = 0;
    proof {
        lemma_extends_none(start, *session);
        lemma_extends_same(
            start,
            start,
            |x: Seq<char>| false,
            |x: Seq<char>| exists|i: int| 0 <= i < 0 && protect_reads(#[trigger] all[i], *bundle, role, x),
            *session,
        );
        assert(all.take(0) =~= Seq::<BoundExpr>::empty());
        assert(rest@.skip(0) =~= all);
        assert(all.len() == rest.len());
    }
    while rest.len() > 0
        invariant
            orig == es,
            all == orig@,
            role == session.role_spec()@,
            all.len() == k + rest@.len(),
            all.len() <= usize::MAX,
            rest@ == all.skip(k as int),
            server_values.wf(),
            protect_list_refusal(all.take(k as int), *bundle, *session) is None,
            out@.len() == k,
            forall|i: int| 0 <= i < k ==> protected(#[trigger] out@[i], all[i], *bundle, role),
            extends_with(
                start,
                *server_values,
                |x: Seq<char>| exists|i: int| 0 <= i < k && protect_reads(#[trigger] all[i], *bundle, role, x),
                *session,
            ),
        decreases rest.len(),
    {
        let item = rest.remove(0);
        let ghost mid = *server_values;
        proof {
            assert(item == all[k as int]);
            assert(decreases_to!(es => es@[k as int]));
            assert(all.take(k + 1).drop_last() =~= all.take(k as int));
            assert(all.take(k + 1).last() == all[k as int]);
            assert(rest@ =~= all.skip(k + 1));
        }
        let x = match protect_nested_selects(item, bundle, session, server_values) {
            Ok(x) => x,
            Err(e) => {
                proof {
                    lemma_list_refusal_stays(all, *bundle, *session, k + 1);
                }
                return Err(e);
            },
        };
        out.push(x);
        proof {
            let r1 = |x: Seq<char>| exists|i: int| 0 <= i < k && protect_reads(#[trigger] all[i], *bundle, role, x);
            let r2 = |x: Seq<char>| protect_reads(all[k as int], *bundle, role, x);
            lemma_extends_chain(start, mid, *server_values, r1, r2, *session);
            assert forall|x: Seq<char>| #![trigger r2(x)] (r1(x) || r2(x)) == (exists|i: int|
                0 <= i < k + 1 && protect_reads(#[trigger] all[i], *bundle, role, x)) by {
                if exists|i: int| 0 <= i < k + 1 && protect_reads(#[trigger] all[i], *bundle, role, x) {
                    let i = choose|i: int| 0 <= i < k + 1 && protect_reads(#[trigger] all[i], *bundle, role, x);
                    if i < k {
                        assert(r1(x));
                    }
                }
            }
            lemma_extends_same(
                start,
                *server_values,
                |x: Seq<char>| r1(x) || r2(x),
                |x: Seq<char>| exists|i: int| 0 <= i < k + 1 && protect_reads(#[trigger] all[i], *bundle, role, x),
                *session,
            );
        }
        k = k + 1;
    }
    proof {
        assert(all.take(k as int) =~= all);
    }
    Ok(out)
}

proof fn lemma_branches_refusal_stays(
    bs: Seq<(BoundExpr, BoundExpr)>,
    b: PolicyBundle,
    session: TrustedSession,
    i: int,
)
    requires
        0 <= i <= bs.len(),
        protect_branches_refusal(bs.take(i), b, session) is Some,
    ensures
        protect_branches_refusal(bs, b, session) == protect_branches_refusal(bs.take(i), b, session),
    decreases bs.len() - i,
{
    if i < bs.len() {
        assert(bs.take(i + 1).drop_last() =~= bs.take(i));
        lemma_branches_refusal_stays(bs, b, session, i + 1);
    } else {
        assert(bs.take(i) =~= bs);
    }
}

fn protect_branches(
    bs: Vec<(BoundExpr, BoundExpr)>,
    bundle: &PolicyBundle,
    session: &TrustedSession,
    server_values: &mut TextMap<LogicalValue>,
) -> (r: Result<Vec<(BoundExpr, BoundExpr)>, PolicyError>)
    requires
        old(server_values).wf(),
    ensures
        final(server_values).wf(),
        match r {
            Ok(v) => protect_branches_refusal(bs@, *bundle, *session) is None && v@.len() == bs@.len()
                && (forall|i: int|
                0 <= i < bs@.len() ==> protected(
                    (#[trigger] v@[i]).0,
                    bs@[i].0,
                    *bundle,
                    session.role_spec()@,
                ) && protected(v@[i].1, bs@[i].1, *bundle, session.role_spec()@)) && extends_with(
                *old(server_values),
                *final(server_values),
                |k: Seq<char>| exists|i: int|
                    0 <= i < bs@.len() && (protect_reads(
                        #[trigger] bs@[i].0,
                        *bundle,
                        session.role_spec()@,
                        k,
                    ) || protect_reads(bs@[i].1, *bundle, session.role_spec()@, k)),
                *session,
            ),
            Err(e) => protect_branches_refusal(bs@, *bundle, *session) == Some(e),
        },
    decreases bs,
{
    let ghost all = bs@;
    let ghost orig = bs;
    let ghost role = session.role_spec()@;
    let ghost start = *server_values;
    let mut rest = bs;
    let mut out: Vec<(BoundExpr, BoundExpr)> = Vec::new();
    let mut k: usize = 0;
    proof {
        lemma_extends_none(start, *session);
        lemma_extends_same(
            start,
            start,
            |x: Seq<char>| false,
            |x: Seq<char>| exists|i: int|
                0 <= i < 0 && (protect_reads(#[trigger] all[i].0, *bundle, role, x) || protect_reads(
                    all[i].1,
                    *bundle,
                    role,
                    x,
                )),
            *session,
        );
        assert(all.take(0) =~= Seq::<(BoundExpr, BoundExpr)>::empty());
        assert(rest@.skip(0) =~= all);
        assert(all.len() == rest.len());
    }
    while rest.len() > 0
        invariant
            orig == bs,
            all == orig@,
            role == session.role_spec()@,
            all.len() == k + rest@.len(),
            all.len() <= usize::MAX,
            rest@ == all.skip(k as int),
            server_values.wf(),
            protect_branches_refusal(all.take(k as int), *bundle, *session) is None,
            out@.len() == k,
            forall|i: int|
                0 <= i < k ==> protected((#[trigger] out@[i]).0, all[i].0, *bundle, role) && protected(
                    out@[i].1,
                    all[i].1,
                    *bundle,
                    role,
                ),
            extends_with(
                start,
                *server_values,
                |x: Seq<char>| exists|i: int|
                    0 <= i < k && (protect_reads(#[trigger] all[i].0, *bundle, role, x) || protect_reads(
                        all[i].1,
                        *bundle,
                        role,
                        x,
                    )),
                *session,
            ),
        decreases rest.len(),
    {
        let (condition, value) = rest.remove(0);
        let ghost s0 = *server_values;
        proof {
            assert((condition, value) == all[k as int]);
            assert(decreases_to!(bs => bs@[k as int]));
            assert(decreases_to!(orig@[k as int] => orig@[k as int].0));
            assert(decreases_to!(orig@[k as int] => orig@[k as int].1));
            assert(all.take(k + 1).drop_last() =~= all.take(k as int));
            assert(all.take(k + 1).last() == all[k as int]);
            assert(rest@ =~= all.skip(k + 1));
        }
        let c = match protect_nested_selects(condition, bundle, session, server_values) {
            Ok(x) => x,
            Err(e) => {
                proof {
                    lemma_branches_refusal_stays(all, *bundle, *session, k + 1);
                }
                return Err(e);
            },
        };
        let ghost s1 = *server_values;
        let v = match protect_nested_selects(value, bundle, session, server_values) {
            Ok(x) => x,
            Err(e) => {
                proof {
                    lemma_branches_refusal_stays(all, *bundle, *session, k + 1);
                }
                return Err(e);
            },
        };
        out.push((c, v));
        proof {
            let r1 = |x: Seq<char>| exists|i: int|
                0 <= i < k && (protect_reads(#[trigger] all[i].0, *bundle, role, x) || protect_reads(
                    all[i].1,
                    *bundle,
                    role,
                    x,
                ));
            let r2 = |x: Seq<char>| protect_reads(all[k as int].0, *bundle, role, x);
            let r3 = |x: Seq<char>| protect_reads(all[k as int].1, *bundle, role, x);
            lemma_extends_chain(start, s0, s1, r1, r2, *session);
            lemma_extends_chain(start, s1, *server_values, |x: Seq<char>| r1(x) || r2(x), r3, *session);
            assert forall|x: Seq<char>| #![trigger r2(x)] ((r1(x) || r2(x)) || r3(x)) == (exists|i: int|
                0 <= i < k + 1 && (protect_reads(#[trigger] all[i].0, *bundle, role, x) || protect_reads(
                    all[i].1,
                    *bundle,
                    role,
                    x,
                ))) by {
                if exists|i: int|
                    0 <= i < k + 1 && (protect_reads(#[trigger] all[i].0, *bundle, role, x)
                        || protect_reads(all[i].1, *bundle, role, x)) {
                    let i = choose|i: int|
                        0 <= i < k + 1 && (protect_reads(#[trigger] all[i].0, *bundle, role, x)
                            || protect_reads(all[i].1, *bundle, role, x));
                    if i < k {
                        assert(r1(x));
                    }
                }
            }
            lemma_extends_same(
                start,
                *server_values,
                |x: Seq<char>| (r1(x) || r2(x)) || r3(x),
                |x: Seq<char>| exists|i: int|
                    0 <= i < k + 1 && (protect_reads(#[trigger] all[i].0, *bundle, role, x)
                        || protect_reads(all[i].1, *bundle, role, x)),
                *session,
            );
        }
        k = k + 1;
    }
    proof {
        assert(all.take(k as int) =~= all);
    }
    Ok(out)
}

} // verus!
