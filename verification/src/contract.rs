//! Catalog value contracts: declared formats, allowed scalars, numeric
//! bounds, string lengths and patterns.
//!
//! Comparing a number with the decimal bound of a constraint is a
//! comparison of doubles, which this library does not hold; the caller
//! supplies it as a function that answers the same way for the same values.
use vstd::prelude::*;
use vstd::string::StringSliceAdditionalSpecFns;
use vstd::utf8::encode_utf8;
use crate::formats::{basic_date, basic_datetime, basic_email, basic_uuid, is_basic_email, is_date, is_datetime, is_uuid};
use crate::identity::{ConstraintScalar, LogicalValue, ValueConstraints, ValueDescriptor};
use crate::text::{text_chars, text_eq};

verus! {

/// `regex_lite::Regex`, carried as it is.
#[verifier::external_type_specification]
#[verifier::external_body]
pub struct ExRegex(regex_lite::Regex);

/// Whether `regex_lite` compiles `pattern` with its default limits.
pub uninterp spec fn regex_compiles(pattern: Seq<char>) -> bool;

/// Whether the regex compiled from `pattern` matches somewhere in `haystack`.
pub uninterp spec fn regex_is_match(pattern: Seq<char>, haystack: Seq<char>) -> bool;

/// A compiled regular expression together with the pattern it was compiled
/// from.
pub struct Pattern {
    source: String,
    compiled: regex_lite::Regex,
}

impl Pattern {
    pub closed spec fn source_spec(&self) -> Seq<char> {
        self.source@
    }
}

/// `regex_lite::Regex::new`: compiles `source`, and fails on an invalid
/// pattern or one over the default size limits. The contract claims only
/// that it fails exactly when `regex_compiles` says so, and that the result
/// remembers its source.
#[verifier::external_body]
pub(crate) fn compile_pattern(source: &str) -> (r: Option<Pattern>)
    ensures
        r is Some == regex_compiles(source@),
        r matches Some(p) ==> p.source_spec() == source@,
{
    match regex_lite::Regex::new(source) {
        Ok(compiled) => Some(Pattern { source: source.to_owned(), compiled }),
        Err(_) => None,
    }
}

/// `regex_lite::Regex::is_match`: whether the pattern matches anywhere in
/// `haystack`; the contract claims only that this depends on the pattern's
/// source and the haystack alone.
#[verifier::external_body]
fn pattern_is_match(pattern: &Pattern, haystack: &str) -> (r: bool)
    ensures
        r == regex_is_match(pattern.source_spec(), haystack@),
{
    pattern.compiled.is_match(haystack)
}

/// A pattern constraint holds: the pattern compiles and matches the value.
pub open spec fn pattern_holds_spec(pattern: Seq<char>, value: Seq<char>) -> bool {
    regex_compiles(pattern) && regex_is_match(pattern, value)
}

/// Whether `value` satisfies the pattern constraint `pattern`.
pub fn pattern_holds(pattern: &str, value: &str) -> (r: bool)
    ensures
        r == pattern_holds_spec(pattern@, value@),
{
    match compile_pattern(pattern) {
        Some(compiled) => pattern_is_match(&compiled, value),
        None => false,
    }
}

/// The length and pattern constraints that a string value must meet; the
/// length counts scalar values.
pub open spec fn text_constraints_spec(value: Seq<char>, c: ValueConstraints) -> bool {
    &&& (c.min_length matches Some(m) ==> value.len() >= m)
    &&& (c.max_length matches Some(m) ==> value.len() <= m)
    &&& (c.pattern matches Some(p) ==> pattern_holds_spec(p@, value))
}

pub fn text_constraints_hold(value: &str, constraints: &ValueConstraints) -> (r: bool)
    ensures
        r == text_constraints_spec(value@, *constraints),
{
    let length = value.unicode_len();
    match constraints.min_length {
        Some(m) => {
            if length < m {
                return false;
            }
        },
        None => {},
    }
    match constraints.max_length {
        Some(m) => {
            if length > m {
                return false;
            }
        },
        None => {},
    }
    match &constraints.pattern {
        Some(p) => pattern_holds(p.as_str(), value),
        None => true,
    }
}

/// Whether a value meets its declared format. Formats that do not apply to
/// the value's kind refuse it, and an unknown format refuses everything.
pub open spec fn format_accepts_spec(value: LogicalValue, format: Option<Seq<char>>) -> bool {
    match format {
        None => true,
        Some(f) => if f == "int64"@ || f == "base64"@ {
            true
        } else {
            match value {
                LogicalValue::String(s) => {
                    if f == "uuid"@ {
                        is_uuid(encode_utf8(s@))
                    } else if f == "email"@ {
                        is_basic_email(encode_utf8(s@))
                    } else if f == "iso-date"@ {
                        is_date(encode_utf8(s@))
                    } else if f == "sqlite-datetime"@ {
                        is_datetime(encode_utf8(s@), false, false)
                    } else if f == "rfc3339"@ {
                        is_datetime(encode_utf8(s@), true, false)
                    } else {
                        false
                    }
                },
                _ => false,
            }
        },
    }
}

pub fn format_accepts(value: &LogicalValue, format: Option<&str>) -> (r: bool)
    ensures
        r == format_accepts_spec(
            *value,
            match format {
                Some(f) => Some(f@),
                None => None,
            },
        ),
{
    let f = match format {
        None => return true,
        Some(f) => f,
    };
    if text_eq(f, "int64") || text_eq(f, "base64") {
        return true;
    }
    match value {
        LogicalValue::String(s) => {
            let v = s.as_str();
            if text_eq(f, "uuid") {
                basic_uuid(v)
            } else if text_eq(f, "email") {
                basic_email(v)
            } else if text_eq(f, "iso-date") {
                basic_date(v)
            } else if text_eq(f, "sqlite-datetime") {
                basic_datetime(v, false)
            } else if text_eq(f, "rfc3339") {
                basic_datetime(v, true)
            } else {
                false
            }
        },
        _ => false,
    }
}

pub open spec fn is_decimal_digit(c: char) -> bool {
    '0' <= c && c <= '9'
}

/// The value of a run of decimal digits, most significant first.
pub open spec fn decimal_value(s: Seq<char>) -> int
    decreases s.len(),
{
    if s.len() == 0 {
        0
    } else {
        decimal_value(s.drop_last()) * 10 + (s.last() as int - '0' as int)
    }
}

pub open spec fn all_decimal(s: Seq<char>) -> bool {
    forall|i: int| 0 <= i < s.len() ==> is_decimal_digit(#[trigger] s[i])
}

/// What `i64::from_str` gives: an optional `+` or `-`, then one or more
/// decimal digits, whose value fits in 64 signed bits.
pub open spec fn decimal_i64(s: Seq<char>) -> Option<int> {
    let negative = s.len() > 0 && s[0] == '-';
    let body = if s.len() > 0 && (s[0] == '+' || s[0] == '-') {
        s.drop_first()
    } else {
        s
    };
    if body.len() == 0 || !all_decimal(body) {
        None
    } else {
        let v = if negative {
            -decimal_value(body)
        } else {
            decimal_value(body)
        };
        if i64::MIN <= v && v <= i64::MAX {
            Some(v)
        } else {
            None
        }
    }
}

proof fn lemma_decimal_value_grows(s: Seq<char>, k: int)
    requires
        0 <= k <= s.len(),
        forall|i: int| 0 <= i < s.len() ==> is_decimal_digit(#[trigger] s[i]),
    ensures
        decimal_value(s) >= decimal_value(s.take(k)) >= 0,
    decreases s.len(),
{
    if s.len() > 0 {
        if k == s.len() {
            assert(s.take(k) =~= s);
            lemma_decimal_value_grows(s.drop_last(), k - 1);
            assert(s.drop_last().take(k - 1) =~= s.drop_last());
        } else {
            lemma_decimal_value_grows(s.drop_last(), k);
            assert(s.drop_last().take(k) =~= s.take(k));
        }
    } else {
        assert(s.take(k) =~= s);
    }
}

/// Parses a signed decimal integer as `i64::from_str` does.
pub fn parse_i64(text: &str) -> (r: Option<i64>)
    ensures
        match decimal_i64(text@) {
            Some(v) => r == Some(v as i64),
            None => r is None,
        },
{
    let chars = text_chars(text);
    let n = chars.len();
    let ghost s = chars@;
    let negative = n > 0 && chars[0] == '-';
    let start: usize = if n > 0 && (chars[0] == '+' || chars[0] == '-') {
        1
    } else {
        0
    };
    let ghost body = s.skip(start as int);
    proof {
        if start == 1 {
            assert(body =~= s.drop_first());
        } else {
            assert(body =~= s);
        }
    }
    if start == n {
        return None;
    }
    let limit: u64 = if negative {
        9223372036854775808
    } else {
        9223372036854775807
    };
    let mut acc: u64 = 0;
    let mut i: usize = start;
    while i < n
        invariant
            s == chars@,
            s == text@,
            n == s.len(),
            start <= i <= n,
            body == s.skip(start as int),
            body == (if s.len() > 0 && (s[0] == '+' || s[0] == '-') {
                s.drop_first()
            } else {
                s
            }),
            negative == (s.len() > 0 && s[0] == '-'),
            body.len() > 0,
            limit == (if negative {
                9223372036854775808u64
            } else {
                9223372036854775807u64
            }),
            forall|j: int| 0 <= j < i - start ==> is_decimal_digit(#[trigger] body[j]),
            acc == decimal_value(body.take(i - start)),
            acc <= limit,
        decreases n - i,
    {
        let c = chars[i];
        if !('0' <= c && c <= '9') {
            proof {
                assert(body[i - start] == c);
                assert(!is_decimal_digit(body[i - start]));
                assert(!all_decimal(body));
                assert(decimal_i64(s) is None);
            }
            return None;
        }
        let d = (c as u32 - '0' as u32) as u64;
        assert(d <= 9);
        proof {
            assert(body.take(i - start + 1).drop_last() =~= body.take(i - start));
            assert(body.take(i - start + 1).last() == c);
            assert(body[i - start] == c);
        }
        if acc > (limit - d) / 10 {
            proof {
                assert(decimal_value(body.take(i - start + 1)) == acc * 10 + d) by (nonlinear_arith)
                    requires
                        decimal_value(body.take(i - start + 1)) == decimal_value(body.take(i - start)) * 10 + d,
                        acc == decimal_value(body.take(i - start)),
                ;
                assert(acc * 10 + d > limit) by (nonlinear_arith)
                    requires
                        acc > (limit - d) / 10,
                        d <= 9,
                        limit >= 9,
                ;
                if all_decimal(body) {
                    lemma_decimal_value_grows(body, i - start + 1);
                    assert(decimal_value(body) > limit);
                    if negative {
                        assert(-decimal_value(body) < i64::MIN);
                    } else {
                        assert(decimal_value(body) > i64::MAX);
                    }
                }
                assert(decimal_i64(s) is None);
            }
            return None;
        }
        proof {
            assert(acc * 10 + d <= limit) by (nonlinear_arith)
                requires
                    acc <= (limit - d) / 10,
                    d <= 9,
                    limit >= 9,
            ;
        }
        acc = acc * 10 + d;
        i = i + 1;
    }
    proof {
        assert(body.take(i - start) =~= body);
    }
    if negative {
        if acc == 9223372036854775808 {
            Some(-9223372036854775807i64 - 1)
        } else {
            let v = acc as i64;
            Some(-v)
        }
    } else {
        Some(acc as i64)
    }
}

/// Whether a value equals one allowed scalar, when that is decided without
/// floating point: `None` for a number against a numeric scalar.
pub open spec fn allowed_match_spec(value: LogicalValue, allowed: ConstraintScalar) -> Option<bool> {
    match (value, allowed) {
        (LogicalValue::String(v), ConstraintScalar::String(a)) => Some(v@ == a@),
        (LogicalValue::Boolean(v), ConstraintScalar::Boolean(a)) => Some(v == a),
        (LogicalValue::Int64(v), ConstraintScalar::Number(a)) => Some(decimal_i64(a@) == Some(v as int)),
        (LogicalValue::Number(_), ConstraintScalar::Number(_)) => None,
        _ => Some(false),
    }
}

pub fn allowed_scalar_matches(value: &LogicalValue, allowed: &ConstraintScalar) -> (r: Option<bool>)
    ensures
        r == allowed_match_spec(*value, *allowed),
{
    match (value, allowed) {
        (LogicalValue::String(v), ConstraintScalar::String(a)) => Some(text_eq(v.as_str(), a.as_str())),
        (LogicalValue::Boolean(v), ConstraintScalar::Boolean(a)) => Some(*v == *a),
        (LogicalValue::Int64(v), ConstraintScalar::Number(a)) => {
            let parsed = parse_i64(a.as_str());
            Some(
                match parsed {
                    Some(p) => p == *v,
                    None => false,
                },
            )
        },
        (LogicalValue::Number(_), ConstraintScalar::Number(_)) => None,
        _ => Some(false),
    }
}

/// How a number stands to the number that a decimal text spells.
#[derive(Clone, Copy, Debug, PartialEq, Eq, Structural)]
pub enum NumericOrder {
    Below,
    Equal,
    Above,
    Unordered,
}

/// `f` answers every question, and the same way for the same values.
pub open spec fn comparer<F: Fn(&LogicalValue, &String) -> Option<NumericOrder>>(f: F) -> bool {
    &&& forall|v: &LogicalValue, t: &String| #[trigger] f.requires((v, t))
    &&& forall|v: &LogicalValue, t: &String, a: Option<NumericOrder>, b: Option<NumericOrder>|
        #![trigger f.ensures((v, t), a), f.ensures((v, t), b)]
        f.ensures((v, t), a) && f.ensures((v, t), b) ==> a == b
}

/// What `f` answers for the number `v` and the decimal `t`: `None` where
/// `t` spells no number.
pub open spec fn compared<F: Fn(&LogicalValue, &String) -> Option<NumericOrder>>(
    f: F,
    v: LogicalValue,
    t: String,
) -> Option<NumericOrder> {
    choose|o: Option<NumericOrder>| f.ensures((&v, &t), o)
}

proof fn lemma_compared<F: Fn(&LogicalValue, &String) -> Option<NumericOrder>>(
    f: F,
    v: &LogicalValue,
    t: &String,
    o: Option<NumericOrder>,
)
    requires
        comparer(f),
        f.ensures((v, t), o),
    ensures
        compared(f, *v, *t) == o,
{
    let c = compared(f, *v, *t);
    assert(f.ensures((v, t), c));
}

/// Asks `f` how `v` stands to `t`.
pub(crate) fn compare_number<F: Fn(&LogicalValue, &String) -> Option<NumericOrder>>(
    f: &F,
    v: &LogicalValue,
    t: &String,
) -> (r: Option<NumericOrder>)
    requires
        comparer(*f),
    ensures
        r == compared(*f, *v, *t),
{
    let r = f(v, t);
    proof {
        lemma_compared(*f, v, t, r);
    }
    r
}

/// A numeric bound holds: the value is a number, the bound spells one, and
/// the value is not on the side that `fails` names.
pub open spec fn bound_holds<F: Fn(&LogicalValue, &String) -> Option<NumericOrder>>(
    f: F,
    v: LogicalValue,
    bound: Option<String>,
    fails: NumericOrder,
) -> bool {
    match bound {
        None => true,
        Some(t) => match v {
            LogicalValue::Int64(_) => match compared(f, v, t) {
                Some(o) => o != fails,
                None => false,
            },
            LogicalValue::Number(_) => match compared(f, v, t) {
                Some(o) => o != fails,
                None => false,
            },
            _ => false,
        },
    }
}

/// `v` is the allowed scalar `a`.
pub open spec fn allowed_by<F: Fn(&LogicalValue, &String) -> Option<NumericOrder>>(
    f: F,
    v: LogicalValue,
    a: ConstraintScalar,
) -> bool {
    match allowed_match_spec(v, a) {
        Some(b) => b,
        None => match a {
            ConstraintScalar::Number(t) => compared(f, v, t) == Some(NumericOrder::Equal),
            _ => false,
        },
    }
}

/// The Catalog constraints that `v` must meet.
pub open spec fn constraints_hold<F: Fn(&LogicalValue, &String) -> Option<NumericOrder>>(
    f: F,
    v: LogicalValue,
    c: ValueConstraints,
) -> bool {
    &&& (c.allowed@.len() == 0 || exists|k: int| 0 <= k < c.allowed@.len() && #[trigger] allowed_by(f, v, c.allowed@[k]))
    &&& bound_holds(f, v, c.minimum, NumericOrder::Below)
    &&& bound_holds(f, v, c.maximum, NumericOrder::Above)
    &&& match v {
        LogicalValue::String(s) => text_constraints_spec(s@, c),
        _ => true,
    }
}

/// A numeric bound is inclusive and one-sided. A minimum (`fails` is
/// `Below`) refuses only a number that the comparer places below it, a
/// maximum (`fails` is `Above`) only one placed above it; a number equal to
/// the bound, or unordered against it, meets both. A bound that spells no
/// number, or a value that is not a number, meets neither, and an absent
/// bound is always met.
pub proof fn law_numeric_bound_is_inclusive<F: Fn(&LogicalValue, &String) -> Option<NumericOrder>>(
    f: F,
    v: LogicalValue,
    t: String,
)
    ensures
        bound_holds(f, v, None, NumericOrder::Below),
        bound_holds(f, v, None, NumericOrder::Above),
        !(v is Int64 || v is Number) ==> !bound_holds(f, v, Some(t), NumericOrder::Below)
            && !bound_holds(f, v, Some(t), NumericOrder::Above),
        (v is Int64 || v is Number) ==> {
            &&& compared(f, v, t) == Some(NumericOrder::Equal) ==> bound_holds(f, v, Some(t), NumericOrder::Below)
                && bound_holds(f, v, Some(t), NumericOrder::Above)
            &&& compared(f, v, t) == Some(NumericOrder::Below) ==> !bound_holds(f, v, Some(t), NumericOrder::Below)
                && bound_holds(f, v, Some(t), NumericOrder::Above)
            &&& compared(f, v, t) == Some(NumericOrder::Above) ==> bound_holds(f, v, Some(t), NumericOrder::Below)
                && !bound_holds(f, v, Some(t), NumericOrder::Above)
            &&& compared(f, v, t) == Some(NumericOrder::Unordered) ==> bound_holds(f, v, Some(t), NumericOrder::Below)
                && bound_holds(f, v, Some(t), NumericOrder::Above)
            &&& compared(f, v, t) is None ==> !bound_holds(f, v, Some(t), NumericOrder::Below)
                && !bound_holds(f, v, Some(t), NumericOrder::Above)
        },
{
}

/// A value on a contract's minimum or maximum is judged as if that bound
/// were absent: dropping a bound that the comparer finds equal to the
/// value changes no verdict. A value below the minimum, or above the
/// maximum, breaks the contract whatever else it says.
pub proof fn law_bounds_admit_their_endpoints<F: Fn(&LogicalValue, &String) -> Option<NumericOrder>>(
    f: F,
    v: LogicalValue,
    c: ValueConstraints,
)
    requires
        v is Int64 || v is Number,
    ensures
        c.minimum matches Some(t) && compared(f, v, t) == Some(NumericOrder::Equal) ==> constraints_hold(f, v, c)
            == constraints_hold(f, v, ValueConstraints { minimum: None, ..c }),
        c.maximum matches Some(t) && compared(f, v, t) == Some(NumericOrder::Equal) ==> constraints_hold(f, v, c)
            == constraints_hold(f, v, ValueConstraints { maximum: None, ..c }),
        c.minimum matches Some(t) && compared(f, v, t) == Some(NumericOrder::Below) ==> !constraints_hold(f, v, c),
        c.maximum matches Some(t) && compared(f, v, t) == Some(NumericOrder::Above) ==> !constraints_hold(f, v, c),
{
}

/// Length bounds are inclusive: a text exactly as long as its minimum or
/// maximum length is judged as if that bound were absent, and only a text
/// shorter than the minimum or longer than the maximum is refused by it.
pub proof fn law_length_bounds_admit_their_endpoints(value: Seq<char>, c: ValueConstraints)
    ensures
        c.min_length is Some && value.len() == c.min_length->Some_0 ==> text_constraints_spec(value, c) == text_constraints_spec(
            value,
            ValueConstraints { min_length: None, ..c },
        ),
        c.max_length is Some && value.len() == c.max_length->Some_0 ==> text_constraints_spec(value, c) == text_constraints_spec(
            value,
            ValueConstraints { max_length: None, ..c },
        ),
        c.min_length is Some && value.len() < c.min_length->Some_0 ==> !text_constraints_spec(value, c),
        c.max_length is Some && value.len() > c.max_length->Some_0 ==> !text_constraints_spec(value, c),
{
}

/// An allowed scalar admits exactly the values equal to it: a text the
/// same text, a boolean the same boolean, an integer the decimal that
/// spells it, and a double whatever the comparer finds equal to it; a value
/// of another kind is never admitted.
pub proof fn law_allowed_values_are_equal_values<F: Fn(&LogicalValue, &String) -> Option<NumericOrder>>(
    f: F,
    v: LogicalValue,
    a: ConstraintScalar,
)
    ensures
        (v is String && a is String) ==> (allowed_by(f, v, a) <==> v->String_0@ == a->String_0@),
        (v is Boolean && a is Boolean) ==> (allowed_by(f, v, a) <==> v->Boolean_0 == a->Boolean_0),
        (v is Int64 && a is Number) ==> (allowed_by(f, v, a) <==> decimal_i64(a->Number_0@) == Some(
            v->Int64_0 as int,
        )),
        (v is Number && a is Number) ==> (allowed_by(f, v, a) <==> compared(f, v, a->Number_0) == Some(
            NumericOrder::Equal,
        )),
        v is Null ==> !allowed_by(f, v, a),
        v is Bytes || v is Json ==> !allowed_by(f, v, a),
        v is String && !(a is String) ==> !allowed_by(f, v, a),
        v is Boolean && !(a is Boolean) ==> !allowed_by(f, v, a),
{
}

/// Null meets a contract exactly when the column is nullable, whatever the
/// contract's format and constraints say.
pub proof fn law_null_meets_only_nullable_contracts<F: Fn(&LogicalValue, &String) -> Option<NumericOrder>>(
    f: F,
    d: ValueDescriptor,
)
    ensures
        contract_holds(f, LogicalValue::Null, d) == d.nullable,
{
}

pub(crate) fn bound_holds_exec<F: Fn(&LogicalValue, &String) -> Option<NumericOrder>>(
    f: &F,
    v: &LogicalValue,
    bound: &Option<String>,
    fails: NumericOrder,
) -> (r: bool)
    requires
        comparer(*f),
    ensures
        r == bound_holds(*f, *v, *bound, fails),
{
    match bound {
        None => true,
        Some(t) => match v {
            LogicalValue::Int64(_) | LogicalValue::Number(_) => match compare_number(f, v, t) {
                Some(o) => o != fails,
                None => false,
            },
            _ => false,
        },
    }
}

pub(crate) fn constraints_hold_exec<F: Fn(&LogicalValue, &String) -> Option<NumericOrder>>(
    f: &F,
    v: &LogicalValue,
    c: &ValueConstraints,
) -> (r: bool)
    requires
        comparer(*f),
    ensures
        r == constraints_hold(*f, *v, *c),
{
    if c.allowed.len() > 0 {
        let mut found = false;
        let mut k: usize = 0;
        while k < c.allowed.len()
            invariant
                comparer(*f),
                k <= c.allowed@.len(),
                found == exists|j: int| 0 <= j < k && #[trigger] allowed_by(*f, *v, c.allowed@[j]),
            decreases c.allowed.len() - k,
        {
            let this = match allowed_scalar_matches(v, &c.allowed[k]) {
                Some(b) => b,
                None => match &c.allowed[k] {
                    ConstraintScalar::Number(t) => match compare_number(f, v, t) {
                        Some(NumericOrder::Equal) => true,
                        _ => false,
                    },
                    _ => false,
                },
            };
            assert(this == allowed_by(*f, *v, c.allowed@[k as int]));
            found = found || this;
            k = k + 1;
        }
        if !found {
            return false;
        }
    }
    if !bound_holds_exec(f, v, &c.minimum, NumericOrder::Below) {
        return false;
    }
    if !bound_holds_exec(f, v, &c.maximum, NumericOrder::Above) {
        return false;
    }
    match v {
        LogicalValue::String(s) => text_constraints_hold(s.as_str(), c),
        _ => true,
    }
}

/// A value meets the Catalog contract of `descriptor`: null only where the
/// descriptor is nullable, otherwise in the declared format and within the
/// declared constraints. The value's logical type is checked elsewhere.
pub open spec fn contract_holds<F: Fn(&LogicalValue, &String) -> Option<NumericOrder>>(
    f: F,
    v: LogicalValue,
    d: ValueDescriptor,
) -> bool {
    match v {
        LogicalValue::Null => d.nullable,
        _ => format_accepts_spec(
            v,
            match d.format {
                Some(s) => Some(s@),
                None => None,
            },
        ) && match d.constraints {
            None => true,
            Some(c) => constraints_hold(f, v, c),
        },
    }
}

/// Checks a value against the Catalog contract of `descriptor`; `numbers`
/// compares numbers with the decimal bounds of its constraints.
pub fn value_satisfies_contract<F: Fn(&LogicalValue, &String) -> Option<NumericOrder>>(
    value: &LogicalValue,
    descriptor: &ValueDescriptor,
    numbers: &F,
) -> (r: bool)
    requires
        comparer(*numbers),
    ensures
        r == contract_holds(*numbers, *value, *descriptor),
{
    if let LogicalValue::Null = value {
        return descriptor.nullable;
    }
    let format = match &descriptor.format {
        Some(s) => Some(s.as_str()),
        None => None,
    };
    if !format_accepts(value, format) {
        return false;
    }
    match &descriptor.constraints {
        None => true,
        Some(c) => constraints_hold_exec(numbers, value, c),
    }
}

} // verus!
