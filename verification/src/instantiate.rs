//! Turning an activated policy predicate into a bound expression for one
//! session: session values become compiler-owned parameters, bound in a
//! map of server values beside the statement.
use vstd::prelude::*;
use crate::identity::{
    LogicalType, LogicalValue, ServerParameterName, SessionKey, TrustedSession, is_canonical_key,
    server_prefix,
};
use crate::ir::BoundExpr;
use crate::policy::PolicyError;
use crate::predicate::{ComparisonOperator, PolicyOperand, PolicyPredicate};
use crate::text::owned;
use crate::text_map::TextMap;

verus! {

/// The suffix that names the session value under key `k`.
pub open spec fn session_suffix(k: Seq<char>) -> Seq<char> {
    "session_"@ + k
}

/// The compiler-owned parameter that carries the session value under key `k`.
pub open spec fn session_parameter(k: Seq<char>) -> Seq<char> {
    server_prefix() + session_suffix(k)
}

/// The session key whose value parameter `n` names, if it names one.
pub open spec fn parameter_key(n: Seq<char>) -> Option<Seq<char>> {
    let head = server_prefix() + "session_"@;
    if head.len() <= n.len() && n.take(head.len() as int) == head {
        Some(n.skip(head.len() as int))
    } else {
        None
    }
}

pub proof fn lemma_parameter_key(k: Seq<char>)
    ensures
        parameter_key(session_parameter(k)) == Some(k),
{
    let head = server_prefix() + "session_"@;
    assert(session_parameter(k) =~= head + k);
    assert((head + k).take(head.len() as int) =~= head);
    assert((head + k).skip(head.len() as int) =~= k);
}

/// `a` and `b` hold the same value; texts and bytes compare by content.
pub open spec fn same_value(a: LogicalValue, b: LogicalValue) -> bool {
    match a {
        LogicalValue::String(x) => b matches LogicalValue::String(y) && x@ == y@,
        LogicalValue::Json(x) => b matches LogicalValue::Json(y) && x@ == y@,
        LogicalValue::Bytes(x) => b matches LogicalValue::Bytes(y) && x@ == y@,
        _ => a == b,
    }
}

/// A copy of a value.
pub fn copy_value(v: &LogicalValue) -> (r: LogicalValue)
    ensures
        same_value(r, *v),
{
    match v {
        LogicalValue::Null => LogicalValue::Null,
        LogicalValue::String(s) => LogicalValue::String(s.clone()),
        LogicalValue::Boolean(b) => LogicalValue::Boolean(*b),
        LogicalValue::Int64(i) => LogicalValue::Int64(*i),
        LogicalValue::Number(n) => LogicalValue::Number(*n),
        LogicalValue::Bytes(b) => {
            let c = b.clone();
            assert(c@ =~= b@);
            LogicalValue::Bytes(c)
        },
        LogicalValue::Json(s) => LogicalValue::Json(s.clone()),
    }
}

/// The session key that operand `o` reads, by its text.
pub open spec fn operand_reads(o: PolicyOperand, k: Seq<char>) -> bool {
    o matches PolicyOperand::Session(s) && s@ == k
}

/// Why operand `o` cannot stand against a column of type `expected`.
pub open spec fn operand_refusal(o: PolicyOperand, expected: LogicalType, session: TrustedSession) -> Option<
    PolicyError,
> {
    match o {
        PolicyOperand::Session(k) => if expected != LogicalType::String {
            Some(PolicyError::IncompatibleOperand)
        } else if session.value_of(k@) is None {
            Some(PolicyError::MissingSessionValue)
        } else if !is_canonical_key(session_suffix(k@)) {
            Some(PolicyError::InvalidSessionKey)
        } else {
            None
        },
        _ => None,
    }
}

/// `e` is the expression that operand `o` becomes.
pub open spec fn operand_expr(e: BoundExpr, o: PolicyOperand) -> bool {
    match o {
        PolicyOperand::Session(k) => e matches BoundExpr::ServerParameter { name, logical_type }
            && name@ == session_parameter(k@) && logical_type == LogicalType::String,
        PolicyOperand::Literal(v) => e matches BoundExpr::Literal(w) && same_value(w, v),
        PolicyOperand::Column(c) => e == BoundExpr::Column(c),
    }
}

/// The two sides of `e` when it is the comparison `op`.
pub open spec fn compared(e: BoundExpr, op: ComparisonOperator) -> Option<(BoundExpr, BoundExpr)> {
    match op {
        ComparisonOperator::Equal => match e {
            BoundExpr::Equal(l, r) => Some((*l, *r)),
            _ => None,
        },
        ComparisonOperator::NotEqual => match e {
            BoundExpr::NotEqual(l, r) => Some((*l, *r)),
            _ => None,
        },
        ComparisonOperator::Less => match e {
            BoundExpr::Less(l, r) => Some((*l, *r)),
            _ => None,
        },
        ComparisonOperator::LessEqual => match e {
            BoundExpr::LessEqual(l, r) => Some((*l, *r)),
            _ => None,
        },
        ComparisonOperator::Greater => match e {
            BoundExpr::Greater(l, r) => Some((*l, *r)),
            _ => None,
        },
        ComparisonOperator::GreaterEqual => match e {
            BoundExpr::GreaterEqual(l, r) => Some((*l, *r)),
            _ => None,
        },
        ComparisonOperator::Like => match e {
            BoundExpr::Like(l, r) => Some((*l, *r)),
            _ => None,
        },
    }
}

/// The session keys that predicate `p` reads.
pub open spec fn predicate_reads(p: PolicyPredicate, k: Seq<char>) -> bool
    decreases p,
{
    match p {
        PolicyPredicate::Comparison { operand, .. } => operand_reads(operand, k),
        PolicyPredicate::In { .. } => false,
        PolicyPredicate::IsNull { .. } => false,
        PolicyPredicate::And(ps) => exists|i: int|
            0 <= i < ps@.len() && predicate_reads(#[trigger] ps@[i], k),
        PolicyPredicate::Or(ps) => exists|i: int|
            0 <= i < ps@.len() && predicate_reads(#[trigger] ps@[i], k),
        PolicyPredicate::Not(inner) => predicate_reads(*inner, k),
    }
}

/// Why predicate `p` cannot be applied for `session`: the first refusal
/// met walking it left to right.
pub open spec fn predicate_refusal(p: PolicyPredicate, session: TrustedSession) -> Option<PolicyError>
    decreases p,
{
    match p {
        PolicyPredicate::Comparison { column, operand, .. } => operand_refusal(
            operand,
            column.logical_type,
            session,
        ),
        PolicyPredicate::In { .. } => None,
        PolicyPredicate::IsNull { .. } => None,
        PolicyPredicate::And(ps) => if ps@.len() == 0 {
            Some(PolicyError::InvalidPredicate)
        } else {
            predicates_refusal(ps@, session)
        },
        PolicyPredicate::Or(ps) => if ps@.len() == 0 {
            Some(PolicyError::InvalidPredicate)
        } else {
            predicates_refusal(ps@, session)
        },
        PolicyPredicate::Not(inner) => predicate_refusal(*inner, session),
    }
}

/// The first refusal among `ps`.
pub open spec fn predicates_refusal(ps: Seq<PolicyPredicate>, session: TrustedSession) -> Option<
    PolicyError,
>
    decreases ps,
{
    if ps.len() == 0 {
        None
    } else {
        match predicates_refusal(ps.drop_last(), session) {
            Some(e) => Some(e),
            None => predicate_refusal(ps.last(), session),
        }
    }
}

/// `e` is the expression that predicate `p` becomes.
pub open spec fn predicate_expr(e: BoundExpr, p: PolicyPredicate) -> bool
    decreases p,
{
    match p {
        PolicyPredicate::Comparison { column, operator, operand } => compared(e, operator) matches Some(
            sides,
        ) && sides.0 == BoundExpr::Column(column) && operand_expr(sides.1, operand),
        PolicyPredicate::In { column, values, negated } => e matches BoundExpr::In {
            expression,
            values: items,
            negated: n,
        } && *expression == BoundExpr::Column(column) && n == negated && items@.len()
            == values@.len() && forall|i: int|
            0 <= i < items@.len() ==> (#[trigger] items@[i] matches BoundExpr::Literal(w)
                && same_value(w, values@[i])),
        PolicyPredicate::IsNull { column, is_null } => if is_null {
            e == BoundExpr::IsNull(Box::new(BoundExpr::Column(column)))
        } else {
            e == BoundExpr::Not(Box::new(BoundExpr::IsNull(Box::new(BoundExpr::Column(column)))))
        },
        PolicyPredicate::And(ps) => folded(e, ps@, true),
        PolicyPredicate::Or(ps) => folded(e, ps@, false),
        PolicyPredicate::Not(inner) => e matches BoundExpr::Not(x) && predicate_expr(*x, *inner),
    }
}

/// `e` joins the expressions of `ps` from the left, by `and` or by `or`.
pub open spec fn folded(e: BoundExpr, ps: Seq<PolicyPredicate>, and: bool) -> bool
    decreases ps,
{
    if ps.len() == 0 {
        false
    } else if ps.len() == 1 {
        predicate_expr(e, ps[0])
    } else if and {
        e matches BoundExpr::And(l, r) && folded(*l, ps.drop_last(), and) && predicate_expr(
            *r,
            ps.last(),
        )
    } else {
        e matches BoundExpr::Or(l, r) && folded(*l, ps.drop_last(), and) && predicate_expr(
            *r,
            ps.last(),
        )
    }
}

/// Parameter `n` carries the session value of the key it names.
pub open spec fn binds(map: TextMap<LogicalValue>, n: Seq<char>, session: TrustedSession) -> bool {
    parameter_key(n) matches Some(k) && map.spec_get(n) matches Some(LogicalValue::String(s))
        && session.value_of(k) == Some(s@)
}

/// Parameter `n` names the value of a session key that `reads` holds of.
pub open spec fn introduced(reads: spec_fn(Seq<char>) -> bool, n: Seq<char>) -> bool {
    parameter_key(n) matches Some(k) && reads(k)
}

/// `after` is `before` with the session values that `reads` names bound.
pub open spec fn extends_with(
    before: TextMap<LogicalValue>,
    after: TextMap<LogicalValue>,
    reads: spec_fn(Seq<char>) -> bool,
    session: TrustedSession,
) -> bool {
    &&& forall|n: Seq<char>| #[trigger]
        after.has_key(n) == (before.has_key(n) || introduced(reads, n))
    &&& forall|n: Seq<char>| !introduced(reads, n) ==> #[trigger] after.spec_get(n) == before.spec_get(n)
    &&& forall|n: Seq<char>| introduced(reads, n) ==> #[trigger] binds(after, n, session)
}

pub proof fn lemma_extends_chain(
    a: TextMap<LogicalValue>,
    b: TextMap<LogicalValue>,
    c: TextMap<LogicalValue>,
    r1: spec_fn(Seq<char>) -> bool,
    r2: spec_fn(Seq<char>) -> bool,
    session: TrustedSession,
)
    requires
        extends_with(a, b, r1, session),
        extends_with(b, c, r2, session),
    ensures
        extends_with(a, c, |k: Seq<char>| r1(k) || r2(k), session),
{
    let r = |k: Seq<char>| r1(k) || r2(k);
    assert forall|n: Seq<char>| #[trigger] c.has_key(n) == (a.has_key(n) || introduced(r, n)) by {
        assert(b.has_key(n) == (a.has_key(n) || introduced(r1, n)));
    }
    assert forall|n: Seq<char>| !introduced(r, n) implies #[trigger] c.spec_get(n) == a.spec_get(n) by {
        assert(b.spec_get(n) == a.spec_get(n));
    }
    assert forall|n: Seq<char>| introduced(r, n) implies #[trigger] binds(c, n, session) by {
        if !introduced(r2, n) {
            assert(c.spec_get(n) == b.spec_get(n));
            assert(binds(b, n, session));
        }
    }
}

pub proof fn lemma_extends_same(
    a: TextMap<LogicalValue>,
    b: TextMap<LogicalValue>,
    r1: spec_fn(Seq<char>) -> bool,
    r2: spec_fn(Seq<char>) -> bool,
    session: TrustedSession,
)
    requires
        extends_with(a, b, r1, session),
        forall|k: Seq<char>| #[trigger] r1(k) == r2(k),
    ensures
        extends_with(a, b, r2, session),
{
    assert forall|n: Seq<char>| introduced(r1, n) == introduced(r2, n) by {
        match parameter_key(n) {
            Some(k) => {
                assert(r1(k) == r2(k));
            },
            None => {},
        }
    }
}

pub proof fn lemma_extends_none(a: TextMap<LogicalValue>, session: TrustedSession)
    ensures
        extends_with(a, a, |k: Seq<char>| false, session),
{
}

/// The compiler-owned name of the session value under `key`.
fn session_parameter_name(key: &SessionKey) -> (r: Result<ServerParameterName, PolicyError>)
    ensures
        is_canonical_key(session_suffix(key@)) ==> (r matches Ok(n) && n@ == session_parameter(
            key@,
        )),
        !is_canonical_key(session_suffix(key@)) ==> r == Err::<ServerParameterName, PolicyError>(
            PolicyError::InvalidSessionKey,
        ),
{
    proof {
        reveal_strlit("session_");
    }
    let mut suffix = owned("session_");
    suffix.append(key.as_str());
    assert(suffix@ =~= session_suffix(key@));
    match ServerParameterName::from_trusted_suffix(suffix.as_str()) {
        Ok(n) => Ok(n),
        Err(_) => Err(PolicyError::InvalidSessionKey),
    }
}

/// The expression operand `o` becomes against a column of type `expected`;
/// a session operand binds its value in `server_values`.
pub fn instantiate_operand(
    operand: &PolicyOperand,
    expected: LogicalType,
    session: &TrustedSession,
    server_values: &mut TextMap<LogicalValue>,
) -> (r: Result<BoundExpr, PolicyError>)
    requires
        old(server_values).wf(),
    ensures
        final(server_values).wf(),
        match r {
            Ok(e) => operand_refusal(*operand, expected, *session) is None && operand_expr(
                e,
                *operand,
            ) && extends_with(
                *old(server_values),
                *final(server_values),
                |k: Seq<char>| operand_reads(*operand, k),
                *session,
            ),
            Err(err) => operand_refusal(*operand, expected, *session) == Some(err),
        },
{
    match operand {
        PolicyOperand::Session(key) => {
            if expected != LogicalType::String {
                return Err(PolicyError::IncompatibleOperand);
            }
            let value = match session.get(key) {
                Some(v) => v,
                None => return Err(PolicyError::MissingSessionValue),
            };
            let name = match session_parameter_name(key) {
                Ok(n) => n,
                Err(e) => return Err(e),
            };
            let ghost before = *server_values;
            server_values.insert(owned(name.as_str()), LogicalValue::String(owned(value)));
            proof {
                let reads = |k: Seq<char>| operand_reads(*operand, k);
                lemma_parameter_key(key@);
                assert forall|n: Seq<char>| introduced(reads, n) == (n == name@) by {
                    if introduced(reads, n) {
                        let k = parameter_key(n)->0;
                        let head = server_prefix() + "session_"@;
                        assert(n =~= head + k);
                        assert(name@ =~= head + key@);
                    }
                }
            }
            Ok(BoundExpr::ServerParameter { name, logical_type: LogicalType::String })
        },
        PolicyOperand::Literal(v) => Ok(BoundExpr::Literal(copy_value(v))),
        PolicyOperand::Column(c) => Ok(BoundExpr::Column(*c)),
    }
}

/// Instantiates `predicate` for `session`; every session value it reads is
/// bound in `server_values` under its compiler-owned name.
pub fn instantiate_predicate(
    predicate: &PolicyPredicate,
    session: &TrustedSession,
    server_values: &mut TextMap<LogicalValue>,
) -> (r: Result<BoundExpr, PolicyError>)
    requires
        old(server_values).wf(),
    ensures
        final(server_values).wf(),
        match r {
            Ok(e) => predicate_refusal(*predicate, *session) is None && predicate_expr(e, *predicate)
                && extends_with(
                *old(server_values),
                *final(server_values),
                |k: Seq<char>| predicate_reads(*predicate, k),
                *session,
            ),
            Err(err) => predicate_refusal(*predicate, *session) == Some(err),
        },
    decreases predicate,
{
    let ghost before = *server_values;
    match predicate {
        PolicyPredicate::Comparison { column, operator, operand } => {
            let right = match instantiate_operand(operand, column.logical_type, session, server_values) {
                Ok(e) => e,
                Err(e) => return Err(e),
            };
            let left = Box::new(BoundExpr::Column(*column));
            let right = Box::new(right);
            let e = match operator {
                ComparisonOperator::Equal => BoundExpr::Equal(left, right),
                ComparisonOperator::NotEqual => BoundExpr::NotEqual(left, right),
                ComparisonOperator::Less => BoundExpr::Less(left, right),
                ComparisonOperator::LessEqual => BoundExpr::LessEqual(left, right),
                ComparisonOperator::Greater => BoundExpr::Greater(left, right),
                ComparisonOperator::GreaterEqual => BoundExpr::GreaterEqual(left, right),
                ComparisonOperator::Like => BoundExpr::Like(left, right),
            };
            proof {
                lemma_extends_same(
                    before,
                    *server_values,
                    |k: Seq<char>| operand_reads(*operand, k),
                    |k: Seq<char>| predicate_reads(*predicate, k),
                    *session,
                );
            }
            Ok(e)
        },
        PolicyPredicate::In { column, values, negated } => {
            let mut items: Vec<BoundExpr> = Vec::new();
            let mut i: usize = 0;
            while i < values.len()
                invariant
                    i <= values@.len(),
                    items@.len() == i,
                    forall|j: int|
                        0 <= j < i ==> (#[trigger] items@[j] matches BoundExpr::Literal(w)
                            && same_value(w, values@[j])),
                decreases values.len() - i,
            {
                items.push(BoundExpr::Literal(copy_value(&values[i])));
                i = i + 1;
            }
            proof {
                lemma_extends_none(before, *session);
                lemma_extends_same(
                    before,
                    before,
                    |k: Seq<char>| false,
                    |k: Seq<char>| predicate_reads(*predicate, k),
                    *session,
                );
            }
            Ok(
                BoundExpr::In {
                    expression: Box::new(BoundExpr::Column(*column)),
                    values: items,
                    negated: *negated,
                },
            )
        },
        PolicyPredicate::IsNull { column, is_null } => {
            let e = BoundExpr::IsNull(Box::new(BoundExpr::Column(*column)));
            proof {
                lemma_extends_none(before, *session);
                lemma_extends_same(
                    before,
                    before,
                    |k: Seq<char>| false,
                    |k: Seq<char>| predicate_reads(*predicate, k),
                    *session,
                );
            }
            if *is_null {
                Ok(e)
            } else {
                Ok(BoundExpr::Not(Box::new(e)))
            }
        },
        PolicyPredicate::And(ps) => {
            let r = fold_logical(ps, session, server_values, true);
            proof {
                if r is Ok {
                    lemma_extends_same(
                        before,
                        *server_values,
                        |k: Seq<char>| exists|i: int|
                            0 <= i < ps@.len() && predicate_reads(#[trigger] ps@[i], k),
                        |k: Seq<char>| predicate_reads(*predicate, k),
                        *session,
                    );
                }
            }
            r
        },
        PolicyPredicate::Or(ps) => {
            let r = fold_logical(ps, session, server_values, false);
            proof {
                if r is Ok {
                    lemma_extends_same(
                        before,
                        *server_values,
                        |k: Seq<char>| exists|i: int|
                            0 <= i < ps@.len() && predicate_reads(#[trigger] ps@[i], k),
                        |k: Seq<char>| predicate_reads(*predicate, k),
                        *session,
                    );
                }
            }
            r
        },
        PolicyPredicate::Not(inner) => {
            let x = match instantiate_predicate(&**inner, session, server_values) {
                Ok(x) => x,
                Err(e) => return Err(e),
            };
            proof {
                lemma_extends_same(
                    before,
                    *server_values,
                    |k: Seq<char>| predicate_reads(**inner, k),
                    |k: Seq<char>| predicate_reads(*predicate, k),
                    *session,
                );
            }
            Ok(BoundExpr::Not(Box::new(x)))
        },
    }
}

proof fn lemma_refusal_stays(ps: Seq<PolicyPredicate>, session: TrustedSession, i: int)
    requires
        0 <= i <= ps.len(),
        predicates_refusal(ps.take(i), session) is Some,
    ensures
        predicates_refusal(ps, session) == predicates_refusal(ps.take(i), session),
    decreases ps.len() - i,
{
    if i < ps.len() {
        assert(ps.take(i + 1).drop_last() =~= ps.take(i));
        lemma_refusal_stays(ps, session, i + 1);
    } else {
        assert(ps.take(i) =~= ps);
    }
}

/// Joins the instantiated `values` from the left by `and` or by `or`.
fn fold_logical(
    values: &Vec<PolicyPredicate>,
    session: &TrustedSession,
    server_values: &mut TextMap<LogicalValue>,
    and: bool,
) -> (r: Result<BoundExpr, PolicyError>)
    requires
        old(server_values).wf(),
    ensures
        final(server_values).wf(),
        match r {
            Ok(e) => values@.len() > 0 && predicates_refusal(values@, *session) is None && folded(
                e,
                values@,
                and,
            ) && extends_with(
                *old(server_values),
                *final(server_values),
                |k: Seq<char>| exists|i: int|
                    0 <= i < values@.len() && predicate_reads(#[trigger] values@[i], k),
                *session,
            ),
            Err(err) => if values@.len() == 0 {
                err == PolicyError::InvalidPredicate
            } else {
                predicates_refusal(values@, *session) == Some(err)
            },
        },
    decreases values,
{
    if values.len() == 0 {
        return Err(PolicyError::InvalidPredicate);
    }
    let ghost all = values@;
    let ghost start = *server_values;
    proof {
        assert(decreases_to!(values => values@[0]));
        assert(all.take(1).drop_last() =~= all.take(0));
        assert(all.take(1).last() == all[0]);
        assert(predicates_refusal(all.take(0), *session) is None);
        assert(predicates_refusal(all.take(1), *session) == predicate_refusal(all[0], *session));
    }
    let mut output = match instantiate_predicate(&values[0], session, server_values) {
        Ok(e) => e,
        Err(e) => {
            proof {
                lemma_refusal_stays(all, *session, 1);
            }
            return Err(e);
        },
    };
    proof {
        lemma_extends_same(
            start,
            *server_values,
            |k: Seq<char>| predicate_reads(all[0], k),
            |k: Seq<char>| exists|j: int| 0 <= j < 1 && predicate_reads(#[trigger] all[j], k),
            *session,
        );
        assert(all.take(1) =~= seq![all[0]]);
    }
    let mut i: usize = 1;
    while i < values.len()
        invariant
            all == values@,
            1 <= i <= all.len(),
            server_values.wf(),
            predicates_refusal(all.take(i as int), *session) is None,
            folded(output, all.take(i as int), and),
            extends_with(
                start,
                *server_values,
                |k: Seq<char>| exists|j: int| 0 <= j < i && predicate_reads(#[trigger] all[j], k),
                *session,
            ),
        decreases values.len() - i,
    {
        let ghost mid = *server_values;
        proof {
            assert(decreases_to!(values => values@[i as int]));
            assert(all.take(i + 1).drop_last() =~= all.take(i as int));
            assert(all.take(i + 1).last() == all[i as int]);
        }
        let next = match instantiate_predicate(&values[i], session, server_values) {
            Ok(e) => e,
            Err(e) => {
                proof {
                    lemma_refusal_stays(all, *session, i + 1);
                }
                return Err(e);
            },
        };
        output = if and {
            BoundExpr::And(Box::new(output), Box::new(next))
        } else {
            BoundExpr::Or(Box::new(output), Box::new(next))
        };
        proof {
            let before_reads = |k: Seq<char>| exists|j: int|
                0 <= j < i && predicate_reads(#[trigger] all[j], k);
            let next_reads = |k: Seq<char>| predicate_reads(all[i as int], k);
            lemma_extends_chain(start, mid, *server_values, before_reads, next_reads, *session);
            assert forall|k: Seq<char>| #![trigger next_reads(k)] (before_reads(k) || next_reads(k)) == (exists|j: int|
                0 <= j < i + 1 && predicate_reads(#[trigger] all[j], k)) by {
                if exists|j: int| 0 <= j < i + 1 && predicate_reads(#[trigger] all[j], k) {
                    let j = choose|j: int| 0 <= j < i + 1 && predicate_reads(#[trigger] all[j], k);
                    if j < i {
                        assert(before_reads(k));
                    }
                }
            }
            lemma_extends_same(
                start,
                *server_values,
                |k: Seq<char>| before_reads(k) || next_reads(k),
                |k: Seq<char>| exists|j: int|
                    0 <= j < i + 1 && predicate_reads(#[trigger] all[j], k),
                *session,
            );
        }
        i = i + 1;
    }
    assert(all.take(i as int) =~= all);
    Ok(output)
}

} // verus!
