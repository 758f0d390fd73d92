//! An independent evaluation of a policy bundle's `select` filter over one
//! row, read from the bundle's YAML rather than from the compiler's
//! predicates, so that the two can be held against each other.
use vstd::prelude::*;
use vstd::utf8::encode_utf8;
use crate::oracle::{bool_truth, like_matches, spec_bool_truth, sqlite_like, TruthValue};
use crate::predicate::{
    bool_of, entries_of, is_key, is_null, items_of, number_of, text_of, yaml_bool, yaml_entries,
    yaml_is_key, yaml_is_null, yaml_items, yaml_number, yaml_text,
};
use crate::text::{compare_text, lex_lt, text_eq, TextOrder};
use crate::text_map::TextMap;
use crate::yaml::YamlValue;

verus! {

/// A value of a row as the oracle reads it. `Number` holds a double by its
/// IEEE-754 binary64 bit pattern.
#[derive(Clone, Debug, PartialEq, Eq)]
pub enum OracleValue {
    Null,
    String(String),
    Boolean(bool),
    Int64(i64),
    Number(u64),
}

/// A row: its values by column name.
pub type OracleRow = TextMap<OracleValue>;

/// The trusted session: its values by key.
pub type OracleSession = TextMap<String>;

/// Why the oracle could not evaluate a filter.
#[derive(Clone, Copy, Debug, PartialEq, Eq, Structural)]
pub enum OracleError {
    InvalidPolicy,
    MissingResource,
    MissingRole,
    MissingColumn,
    MissingSession,
    IncompatibleValues,
    UnsupportedOperator,
}

/// How one value stands to another.
#[derive(Clone, Copy, Debug, PartialEq, Eq, Structural)]
pub enum ValueOrder {
    Less,
    Equal,
    Greater,
}

/// The value found under the untagged string key `key` of a mapping.
pub open spec fn entry_value(entries: Seq<(YamlValue, YamlValue)>, key: Seq<char>) -> Option<YamlValue>
    decreases entries.len(),
{
    if entries.len() == 0 {
        None
    } else if is_key(entries[0].0, key) {
        Some(entries[0].1)
    } else {
        entry_value(entries.drop_first(), key)
    }
}

/// The value under `key` in the mapping `v`, beneath any tags.
pub open spec fn key_value(v: YamlValue, key: Seq<char>) -> Option<YamlValue> {
    match entries_of(v) {
        Some(entries) => entry_value(entries, key),
        None => None,
    }
}

/// The string of a YAML string, beneath any tags.
pub open spec fn string_of(v: YamlValue) -> Option<String>
    decreases v,
{
    match v {
        YamlValue::String(s) => Some(s),
        YamlValue::Tagged(inner) => string_of(*inner),
        _ => None,
    }
}

/// The IEEE-754 bits of a NaN.
pub open spec fn double_is_nan(bits: u64) -> bool {
    (bits >> 52u64) & 0x7ffu64 == 0x7ffu64 && bits & 0xf_ffff_ffff_ffffu64 != 0
}

/// A key that orders doubles as their values do, NaN aside: the
/// magnitude, negated where the sign bit is set.
pub open spec fn double_key(bits: u64) -> int {
    if bits >> 63u64 == 1u64 {
        -((bits & 0x7fff_ffff_ffff_ffffu64) as int)
    } else {
        (bits & 0x7fff_ffff_ffff_ffffu64) as int
    }
}

pub open spec fn int_order(a: int, b: int) -> ValueOrder {
    if a < b {
        ValueOrder::Less
    } else if a == b {
        ValueOrder::Equal
    } else {
        ValueOrder::Greater
    }
}

/// How two non-null values of one kind stand to each other: text by
/// lexicographic order, `false` before `true`, numbers by value; values of
/// different kinds, and NaN, are not ordered.
pub open spec fn value_order(l: OracleValue, r: OracleValue) -> Result<ValueOrder, OracleError> {
    match (l, r) {
        (OracleValue::String(a), OracleValue::String(b)) => Ok(
            if lex_lt(a@, b@) {
                ValueOrder::Less
            } else if a@ == b@ {
                ValueOrder::Equal
            } else {
                ValueOrder::Greater
            },
        ),
        (OracleValue::Boolean(a), OracleValue::Boolean(b)) => Ok(
            int_order(if a { 1 } else { 0 }, if b { 1 } else { 0 }),
        ),
        (OracleValue::Int64(a), OracleValue::Int64(b)) => Ok(int_order(a as int, b as int)),
        (OracleValue::Number(a), OracleValue::Number(b)) => if double_is_nan(a) || double_is_nan(b) {
            Err(OracleError::IncompatibleValues)
        } else {
            Ok(int_order(double_key(a), double_key(b)))
        },
        _ => Err(OracleError::IncompatibleValues),
    }
}

/// `l op r` in three-valued logic: unknown where either side is null.
pub open spec fn compare_spec(l: OracleValue, r: OracleValue, op: Seq<char>) -> Result<TruthValue, OracleError> {
    if l is Null || r is Null {
        Ok(TruthValue::Unknown)
    } else {
        match value_order(l, r) {
            Err(e) => Err(e),
            Ok(o) => if op == "eq"@ {
                Ok(spec_bool_truth(o == ValueOrder::Equal))
            } else if op == "neq"@ {
                Ok(spec_bool_truth(o != ValueOrder::Equal))
            } else if op == "lt"@ {
                Ok(spec_bool_truth(o == ValueOrder::Less))
            } else if op == "lte"@ {
                Ok(spec_bool_truth(o != ValueOrder::Greater))
            } else if op == "gt"@ {
                Ok(spec_bool_truth(o == ValueOrder::Greater))
            } else if op == "gte"@ {
                Ok(spec_bool_truth(o != ValueOrder::Less))
            } else if op == "like"@ {
                match (l, r) {
                    (OracleValue::String(a), OracleValue::String(b)) => Ok(
                        spec_bool_truth(like_matches(encode_utf8(a@), encode_utf8(b@))),
                    ),
                    _ => Err(OracleError::IncompatibleValues),
                }
            } else {
                Err(OracleError::UnsupportedOperator)
            },
        }
    }
}

/// How `l` stands to `r` read from the other side.
pub open spec fn reversed(o: ValueOrder) -> ValueOrder {
    match o {
        ValueOrder::Less => ValueOrder::Greater,
        ValueOrder::Equal => ValueOrder::Equal,
        ValueOrder::Greater => ValueOrder::Less,
    }
}

/// Ordering two values one way round gives the reverse of ordering them the
/// other way round, and a value that is ordered at all is equal to itself.
pub proof fn law_value_order_is_antisymmetric(l: OracleValue, r: OracleValue)
    ensures
        value_order(l, r) matches Ok(o) ==> value_order(r, l) == Ok::<ValueOrder, OracleError>(reversed(o)),
        value_order(l, r) is Err ==> value_order(r, l) is Err,
        value_order(l, l) is Ok ==> value_order(l, l) == Ok::<ValueOrder, OracleError>(ValueOrder::Equal),
{
    match (l, r) {
        (OracleValue::String(a), OracleValue::String(b)) => {
            crate::text::lemma_lex_lt_asymmetric(a@, b@);
            crate::text::lemma_lex_lt_total(a@, b@);
            crate::text::lemma_lex_lt_irreflexive(a@);
            crate::text::lemma_lex_lt_irreflexive(b@);
        },
        _ => {},
    }
    match l {
        OracleValue::String(a) => {
            crate::text::lemma_lex_lt_irreflexive(a@);
        },
        _ => {},
    }
}

proof fn lemma_operator_names_differ()
    ensures
        "eq"@ != "neq"@,
        "eq"@ != "lt"@,
        "eq"@ != "lte"@,
        "eq"@ != "gt"@,
        "eq"@ != "gte"@,
        "neq"@ != "lt"@,
        "neq"@ != "lte"@,
        "neq"@ != "gt"@,
        "neq"@ != "gte"@,
        "lt"@ != "lte"@,
        "lt"@ != "gt"@,
        "lt"@ != "gte"@,
        "lte"@ != "gt"@,
        "lte"@ != "gte"@,
        "gt"@ != "gte"@,
{
    reveal_strlit("eq");
    reveal_strlit("neq");
    reveal_strlit("lt");
    reveal_strlit("lte");
    reveal_strlit("gt");
    reveal_strlit("gte");
    assert("eq"@[0] != "neq"@[0]);
    assert("eq"@[0] != "lt"@[0]);
    assert("eq"@[0] != "lte"@[0]);
    assert("eq"@[0] != "gt"@[0]);
    assert("eq"@[0] != "gte"@[0]);
    assert("neq"@[0] != "lt"@[0]);
    assert("neq"@[0] != "lte"@[0]);
    assert("neq"@[0] != "gt"@[0]);
    assert("neq"@[0] != "gte"@[0]);
    assert("lt"@.len() != "lte"@.len());
    assert("lt"@[0] != "gt"@[0]);
    assert("lt"@[0] != "gte"@[0]);
    assert("lte"@[0] != "gt"@[0]);
    assert("lte"@[0] != "gte"@[0]);
    assert("gt"@.len() != "gte"@.len());
}

/// On two non-null values that are ordered, the comparison operators agree
/// with one another: `lte` is the negation of `gt` and holds exactly where
/// `lt` or `eq` does, `gte` is the negation of `lt` and holds exactly where
/// `gt` or `eq` does, `neq` is the negation of `eq`, and swapping the sides
/// exchanges `lt` with `gt` and `lte` with `gte` and keeps `eq`.
pub proof fn law_comparisons_agree(l: OracleValue, r: OracleValue)
    requires
        !(l is Null),
        !(r is Null),
        value_order(l, r) is Ok,
    ensures
        compare_spec(l, r, "lte"@) is Ok && compare_spec(l, r, "gt"@) is Ok && compare_spec(l, r, "lt"@) is Ok
            && compare_spec(l, r, "gte"@) is Ok && compare_spec(l, r, "eq"@) is Ok && compare_spec(l, r, "neq"@)
            is Ok,
        compare_spec(l, r, "lte"@)->Ok_0 == compare_spec(l, r, "gt"@)->Ok_0.spec_not(),
        compare_spec(l, r, "gte"@)->Ok_0 == compare_spec(l, r, "lt"@)->Ok_0.spec_not(),
        compare_spec(l, r, "neq"@)->Ok_0 == compare_spec(l, r, "eq"@)->Ok_0.spec_not(),
        compare_spec(l, r, "lte"@)->Ok_0 == compare_spec(l, r, "lt"@)->Ok_0.spec_or(
            compare_spec(l, r, "eq"@)->Ok_0,
        ),
        compare_spec(l, r, "gte"@)->Ok_0 == compare_spec(l, r, "gt"@)->Ok_0.spec_or(
            compare_spec(l, r, "eq"@)->Ok_0,
        ),
        compare_spec(l, r, "lt"@) == compare_spec(r, l, "gt"@),
        compare_spec(l, r, "lte"@) == compare_spec(r, l, "gte"@),
        compare_spec(l, r, "eq"@) == compare_spec(r, l, "eq"@),
{
    lemma_operator_names_differ();
    law_value_order_is_antisymmetric(l, r);
}

/// Every non-null value that is ordered (all but NaN) equals itself: `eq`,
/// `lte` and `gte` hold of it against itself, and `neq`, `lt` and `gt` do
/// not.
pub proof fn law_comparisons_reflexive(x: OracleValue)
    requires
        !(x is Null),
        value_order(x, x) is Ok,
    ensures
        compare_spec(x, x, "eq"@) == Ok::<TruthValue, OracleError>(TruthValue::True),
        compare_spec(x, x, "lte"@) == Ok::<TruthValue, OracleError>(TruthValue::True),
        compare_spec(x, x, "gte"@) == Ok::<TruthValue, OracleError>(TruthValue::True),
        compare_spec(x, x, "neq"@) == Ok::<TruthValue, OracleError>(TruthValue::False),
        compare_spec(x, x, "lt"@) == Ok::<TruthValue, OracleError>(TruthValue::False),
        compare_spec(x, x, "gt"@) == Ok::<TruthValue, OracleError>(TruthValue::False),
{
    lemma_operator_names_differ();
    law_value_order_is_antisymmetric(x, x);
}

/// The value a YAML scalar spells: null, a string, a boolean, an integer
/// that fits 64 bits, or else a double.
pub open spec fn literal_value(v: YamlValue) -> Result<OracleValue, OracleError> {
    if is_null(v) {
        Ok(OracleValue::Null)
    } else {
        match string_of(v) {
            Some(s) => Ok(OracleValue::String(s)),
            None => match bool_of(v) {
                Some(b) => Ok(OracleValue::Boolean(b)),
                None => match number_of(v) {
                    Some(n) => match n.integer {
                        Some(i) => Ok(OracleValue::Int64(i)),
                        None => Ok(OracleValue::Number(n.double_bits)),
                    },
                    None => Err(OracleError::InvalidPolicy),
                },
            },
        }
    }
}

/// The right side of a comparison: `{session: key}`, `{column: name}`,
/// `{literal: value}`, or a plain scalar.
pub open spec fn operand_value(v: YamlValue, row: OracleRow, session: OracleSession) -> Result<
    OracleValue,
    OracleError,
> {
    match entries_of(v) {
        Some(m) => if m.len() != 1 {
            Err(OracleError::InvalidPolicy)
        } else if is_key(m[0].0, "session"@) {
            match text_of(m[0].1) {
                None => Err(OracleError::InvalidPolicy),
                Some(k) => match session.spec_get(k) {
                    Some(s) => Ok(OracleValue::String(s)),
                    None => Err(OracleError::MissingSession),
                },
            }
        } else if is_key(m[0].0, "column"@) {
            match text_of(m[0].1) {
                None => Err(OracleError::InvalidPolicy),
                Some(c) => match row.spec_get(c) {
                    Some(x) => Ok(x),
                    None => Err(OracleError::MissingColumn),
                },
            }
        } else if is_key(m[0].0, "literal"@) {
            literal_value(m[0].1)
        } else {
            Err(OracleError::InvalidPolicy)
        },
        None => literal_value(v),
    }
}

/// Whether `left` equals one of the first `n` literals of `items`, or the
/// refusal met on the way.
pub open spec fn membership(left: OracleValue, items: Seq<YamlValue>, n: int) -> Result<bool, OracleError>
    decreases n,
{
    if n <= 0 {
        Ok(false)
    } else {
        match membership(left, items, n - 1) {
            Err(e) => Err(e),
            Ok(found) => match literal_value(items[n - 1]) {
                Err(e) => Err(e),
                Ok(right) => match compare_spec(left, right, "eq"@) {
                    Err(e) => Err(e),
                    Ok(t) => Ok(found || t == TruthValue::True),
                },
            },
        }
    }
}

/// The truth of `{operator: operand}` for the row's value of `column`.
pub open spec fn comparison_truth(column: Seq<char>, v: YamlValue, row: OracleRow, session: OracleSession) -> Result<
    TruthValue,
    OracleError,
> {
    match row.spec_get(column) {
        None => Err(OracleError::MissingColumn),
        Some(left) => match entries_of(v) {
            None => Err(OracleError::InvalidPolicy),
            Some(m) => if m.len() != 1 {
                Err(OracleError::InvalidPolicy)
            } else {
                match text_of(m[0].0) {
                    None => Err(OracleError::InvalidPolicy),
                    Some(op) => if op == "is_null"@ {
                        match bool_of(m[0].1) {
                            None => Err(OracleError::InvalidPolicy),
                            Some(b) => Ok(spec_bool_truth((left is Null) == b)),
                        }
                    } else if op == "in"@ || op == "not_in"@ {
                        match items_of(m[0].1) {
                            None => Err(OracleError::InvalidPolicy),
                            Some(items) => if items.len() == 0 {
                                Err(OracleError::InvalidPolicy)
                            } else if left is Null {
                                Ok(TruthValue::Unknown)
                            } else {
                                match membership(left, items, items.len() as int) {
                                    Err(e) => Err(e),
                                    Ok(found) => Ok(spec_bool_truth(if op == "in"@ { found } else { !found })),
                                }
                            },
                        }
                    } else {
                        match operand_value(m[0].1, row, session) {
                            Err(e) => Err(e),
                            Ok(right) => compare_spec(left, right, op),
                        }
                    },
                }
            },
        },
    }
}

/// The truth of a filter predicate for a row: `{and: [..]}`, `{or: [..]}`,
/// `{not: ..}`, or `{column: {operator: operand}}`.
pub open spec fn predicate_truth(v: YamlValue, row: OracleRow, session: OracleSession) -> Result<
    TruthValue,
    OracleError,
>
    decreases v,
{
    match v {
        YamlValue::Tagged(inner) => predicate_truth(*inner, row, session),
        YamlValue::Mapping(m) => if m@.len() != 1 {
            Err(OracleError::InvalidPolicy)
        } else {
            match text_of(m@[0].0) {
                None => Err(OracleError::InvalidPolicy),
                Some(k) => if k == "and"@ || k == "or"@ {
                    group_truth(m@[0].1, k == "and"@, row, session)
                } else if k == "not"@ {
                    match predicate_truth(m@[0].1, row, session) {
                        Ok(t) => Ok(t.spec_not()),
                        Err(e) => Err(e),
                    }
                } else {
                    comparison_truth(k, m@[0].1, row, session)
                },
            }
        },
        _ => Err(OracleError::InvalidPolicy),
    }
}

/// The conjunction, or disjunction, of a non-empty list of predicates.
pub open spec fn group_truth(v: YamlValue, conjunction: bool, row: OracleRow, session: OracleSession) -> Result<
    TruthValue,
    OracleError,
>
    decreases v,
{
    match v {
        YamlValue::Tagged(inner) => group_truth(*inner, conjunction, row, session),
        YamlValue::Sequence(items) => if items@.len() == 0 {
            Err(OracleError::InvalidPolicy)
        } else {
            fold_truth(items@, conjunction, row, session)
        },
        _ => Err(OracleError::InvalidPolicy),
    }
}

/// The items of a list combined from the left, starting from the
/// connective's identity, or the first refusal.
pub open spec fn fold_truth(items: Seq<YamlValue>, conjunction: bool, row: OracleRow, session: OracleSession) -> Result<
    TruthValue,
    OracleError,
>
    decreases items,
{
    if items.len() == 0 {
        Ok(if conjunction { TruthValue::True } else { TruthValue::False })
    } else {
        match fold_truth(items.drop_last(), conjunction, row, session) {
            Err(e) => Err(e),
            Ok(c) => match predicate_truth(items.last(), row, session) {
                Err(e) => Err(e),
                Ok(x) => Ok(if conjunction { c.spec_and(x) } else { c.spec_or(x) }),
            },
        }
    }
}

/// The truth of the `select` filter that `document` gives `role` on
/// `resource`, for one row and session.
pub open spec fn filter_truth(
    document: YamlValue,
    resource: Seq<char>,
    role: Seq<char>,
    row: OracleRow,
    session: OracleSession,
) -> Result<TruthValue, OracleError> {
    match key_value(document, "resources"@) {
        None => Err(OracleError::MissingResource),
        Some(resources) => match key_value(resources, resource) {
            None => Err(OracleError::MissingResource),
            Some(r) => match key_value(r, "roles"@) {
                None => Err(OracleError::MissingRole),
                Some(roles) => match key_value(roles, role) {
                    None => Err(OracleError::MissingRole),
                    Some(granted) => match key_value(granted, "select"@) {
                        None => Err(OracleError::InvalidPolicy),
                        Some(select) => match key_value(select, "filter"@) {
                            None => Err(OracleError::InvalidPolicy),
                            Some(filter) => predicate_truth(filter, row, session),
                        },
                    },
                },
            },
        },
    }
}

fn yaml_string(v: &YamlValue) -> (r: Option<&String>)
    ensures
        match string_of(*v) {
            Some(s) => r matches Some(x) && *x == s,
            None => r is None,
        },
    decreases v,
{
    match v {
        YamlValue::String(s) => Some(s),
        YamlValue::Tagged(inner) => yaml_string(&**inner),
        _ => None,
    }
}

/// The value under `key` in the mapping `v`.
fn yaml_get<'a>(v: &'a YamlValue, key: &str) -> (r: Option<&'a YamlValue>)
    ensures
        match key_value(*v, key@) {
            Some(x) => r matches Some(y) && *y == x,
            None => r is None,
        },
{
    let entries = match yaml_entries(v) {
        Some(entries) => entries,
        None => return None,
    };
    let ghost all = entries@;
    assert(all.skip(0) =~= all);
    let mut i: usize = 0;
    while i < entries.len()
        invariant
            all == entries@,
            key_value(*v, key@) == entry_value(all, key@),
            i <= all.len(),
            entry_value(all, key@) == entry_value(all.skip(i as int), key@),
        decreases entries.len() - i,
    {
        assert(all.skip(i as int)[0] == all[i as int]);
        if yaml_is_key(&entries[i].0, key) {
            return Some(&entries[i].1);
        }
        assert(all.skip(i as int).drop_first() =~= all.skip(i as int + 1));
        i = i + 1;
    }
    assert(all.skip(i as int).len() == 0);
    None
}

fn copy_value(v: &OracleValue) -> (r: OracleValue)
    ensures
        r == *v,
{
    match v {
        OracleValue::Null => OracleValue::Null,
        OracleValue::String(s) => OracleValue::String(s.clone()),
        OracleValue::Boolean(b) => OracleValue::Boolean(*b),
        OracleValue::Int64(i) => OracleValue::Int64(*i),
        OracleValue::Number(n) => OracleValue::Number(*n),
    }
}

fn double_key_of(bits: u64) -> (r: i64)
    ensures
        r == double_key(bits),
{
    let magnitude = bits & 0x7fff_ffff_ffff_ffffu64;
    assert(magnitude <= 0x7fff_ffff_ffff_ffffu64) by (bit_vector)
        requires
            magnitude == bits & 0x7fff_ffff_ffff_ffffu64,
    ;
    let m = magnitude as i64;
    if bits >> 63u64 == 1u64 {
        -m
    } else {
        m
    }
}

fn int_order_of(a: i64, b: i64) -> (r: ValueOrder)
    ensures
        r == int_order(a as int, b as int),
{
    if a < b {
        ValueOrder::Less
    } else if a == b {
        ValueOrder::Equal
    } else {
        ValueOrder::Greater
    }
}

/// How two non-null values of one kind stand to each other.
pub fn order_values(l: &OracleValue, r: &OracleValue) -> (o: Result<ValueOrder, OracleError>)
    ensures
        o == value_order(*l, *r),
{
    match (l, r) {
        (OracleValue::String(a), OracleValue::String(b)) => Ok(
            match compare_text(a.as_str(), b.as_str()) {
                TextOrder::Less => ValueOrder::Less,
                TextOrder::Equal => ValueOrder::Equal,
                TextOrder::Greater => ValueOrder::Greater,
            },
        ),
        (OracleValue::Boolean(a), OracleValue::Boolean(b)) => Ok(
            int_order_of(if *a { 1 } else { 0 }, if *b { 1 } else { 0 }),
        ),
        (OracleValue::Int64(a), OracleValue::Int64(b)) => Ok(int_order_of(*a, *b)),
        (OracleValue::Number(a), OracleValue::Number(b)) => {
            let a_nan = (*a >> 52u64) & 0x7ffu64 == 0x7ffu64 && *a & 0xf_ffff_ffff_ffffu64 != 0;
            let b_nan = (*b >> 52u64) & 0x7ffu64 == 0x7ffu64 && *b & 0xf_ffff_ffff_ffffu64 != 0;
            if a_nan || b_nan {
                Err(OracleError::IncompatibleValues)
            } else {
                Ok(int_order_of(double_key_of(*a), double_key_of(*b)))
            }
        },
        _ => Err(OracleError::IncompatibleValues),
    }
}

/// Evaluates `l op r` in three-valued logic.
pub fn compare_values(l: &OracleValue, r: &OracleValue, op: &str) -> (t: Result<TruthValue, OracleError>)
    ensures
        t == compare_spec(*l, *r, op@),
{
    let null = match (l, r) {
        (OracleValue::Null, _) | (_, OracleValue::Null) => true,
        _ => false,
    };
    if null {
        return Ok(TruthValue::Unknown);
    }
    let o = match order_values(l, r) {
        Ok(o) => o,
        Err(e) => return Err(e),
    };
    if text_eq(op, "eq") {
        Ok(bool_truth(o == ValueOrder::Equal))
    } else if text_eq(op, "neq") {
        Ok(bool_truth(o != ValueOrder::Equal))
    } else if text_eq(op, "lt") {
        Ok(bool_truth(o == ValueOrder::Less))
    } else if text_eq(op, "lte") {
        Ok(bool_truth(o != ValueOrder::Greater))
    } else if text_eq(op, "gt") {
        Ok(bool_truth(o == ValueOrder::Greater))
    } else if text_eq(op, "gte") {
        Ok(bool_truth(o != ValueOrder::Less))
    } else if text_eq(op, "like") {
        match (l, r) {
            (OracleValue::String(a), OracleValue::String(b)) => Ok(bool_truth(sqlite_like(a.as_str(), b.as_str()))),
            _ => Err(OracleError::IncompatibleValues),
        }
    } else {
        Err(OracleError::UnsupportedOperator)
    }
}

fn literal_of(v: &YamlValue) -> (r: Result<OracleValue, OracleError>)
    ensures
        r == literal_value(*v),
{
    if yaml_is_null(v) {
        return Ok(OracleValue::Null);
    }
    match yaml_string(v) {
        Some(s) => return Ok(OracleValue::String(s.clone())),
        None => {},
    }
    match yaml_bool(v) {
        Some(b) => return Ok(OracleValue::Boolean(b)),
        None => {},
    }
    match yaml_number(v) {
        Some(n) => match n.integer {
            Some(i) => Ok(OracleValue::Int64(i)),
            None => Ok(OracleValue::Number(n.double_bits)),
        },
        None => Err(OracleError::InvalidPolicy),
    }
}

fn operand_of(v: &YamlValue, row: &OracleRow, session: &OracleSession) -> (r: Result<OracleValue, OracleError>)
    requires
        row.wf(),
        session.wf(),
    ensures
        r == operand_value(*v, *row, *session),
{
    let entries = match yaml_entries(v) {
        Some(entries) => entries,
        None => return literal_of(v),
    };
    if entries.len() != 1 {
        return Err(OracleError::InvalidPolicy);
    }
    if yaml_is_key(&entries[0].0, "session") {
        match yaml_text(&entries[0].1) {
            None => Err(OracleError::InvalidPolicy),
            Some(k) => match session.get(k.as_str()) {
                Some(s) => Ok(OracleValue::String(s.clone())),
                None => Err(OracleError::MissingSession),
            },
        }
    } else if yaml_is_key(&entries[0].0, "column") {
        match yaml_text(&entries[0].1) {
            None => Err(OracleError::InvalidPolicy),
            Some(c) => match row.get(c.as_str()) {
                Some(x) => Ok(copy_value(x)),
                None => Err(OracleError::MissingColumn),
            },
        }
    } else if yaml_is_key(&entries[0].0, "literal") {
        literal_of(&entries[0].1)
    } else {
        Err(OracleError::InvalidPolicy)
    }
}

/// Whether `left` equals one of the literals of `items`.
fn membership_of(left: &OracleValue, items: &Vec<YamlValue>) -> (r: Result<bool, OracleError>)
    ensures
        r == membership(*left, items@, items@.len() as int),
{
    let ghost all = items@;
    let mut found = false;
    let mut i: usize = 0;
    while i < items.len()
        invariant
            all == items@,
            i <= all.len(),
            membership(*left, all, i as int) == Ok::<bool, OracleError>(found),
        decreases items.len() - i,
    {
        let right = match literal_of(&items[i]) {
            Ok(right) => right,
            Err(e) => {
                proof {
                    lemma_membership_fault_stays(*left, all, i as int + 1, all.len() as int);
                }
                return Err(e);
            },
        };
        let t = match compare_values(left, &right, "eq") {
            Ok(t) => t,
            Err(e) => {
                proof {
                    lemma_membership_fault_stays(*left, all, i as int + 1, all.len() as int);
                }
                return Err(e);
            },
        };
        found = found || t == TruthValue::True;
        i = i + 1;
    }
    Ok(found)
}

fn comparison_of(column: &str, v: &YamlValue, row: &OracleRow, session: &OracleSession) -> (r: Result<
    TruthValue,
    OracleError,
>)
    requires
        row.wf(),
        session.wf(),
    ensures
        r == comparison_truth(column@, *v, *row, *session),
{
    let left = match row.get(column) {
        Some(left) => left,
        None => return Err(OracleError::MissingColumn),
    };
    let entries = match yaml_entries(v) {
        Some(entries) => entries,
        None => return Err(OracleError::InvalidPolicy),
    };
    if entries.len() != 1 {
        return Err(OracleError::InvalidPolicy);
    }
    let op = match yaml_text(&entries[0].0) {
        Some(op) => op.as_str(),
        None => return Err(OracleError::InvalidPolicy),
    };
    let left_null = match left {
        OracleValue::Null => true,
        _ => false,
    };
    if text_eq(op, "is_null") {
        match yaml_bool(&entries[0].1) {
            None => Err(OracleError::InvalidPolicy),
            Some(b) => Ok(bool_truth(left_null == b)),
        }
    } else if text_eq(op, "in") || text_eq(op, "not_in") {
        let items = match yaml_items(&entries[0].1) {
            Some(items) => items,
            None => return Err(OracleError::InvalidPolicy),
        };
        if items.len() == 0 {
            return Err(OracleError::InvalidPolicy);
        }
        if left_null {
            return Ok(TruthValue::Unknown);
        }
        let found = match membership_of(left, items) {
            Ok(found) => found,
            Err(e) => return Err(e),
        };
        Ok(bool_truth(if text_eq(op, "in") { found } else { !found }))
    } else {
        match operand_of(&entries[0].1, row, session) {
            Err(e) => Err(e),
            Ok(right) => compare_values(left, &right, op),
        }
    }
}

proof fn lemma_membership_fault_stays(left: OracleValue, items: Seq<YamlValue>, i: int, n: int)
    requires
        0 <= i <= n,
        membership(left, items, i) is Err,
    ensures
        membership(left, items, n) == membership(left, items, i),
    decreases n - i,
{
    if i < n {
        lemma_membership_fault_stays(left, items, i, n - 1);
    }
}

proof fn lemma_fold_fault_stays(
    items: Seq<YamlValue>,
    conjunction: bool,
    row: OracleRow,
    session: OracleSession,
    i: int,
)
    requires
        0 <= i <= items.len(),
        fold_truth(items.take(i), conjunction, row, session) is Err,
    ensures
        fold_truth(items, conjunction, row, session) == fold_truth(items.take(i), conjunction, row, session),
    decreases items.len() - i,
{
    if i < items.len() {
        assert(items.take(i + 1).drop_last() =~= items.take(i));
        lemma_fold_fault_stays(items, conjunction, row, session, i + 1);
    } else {
        assert(items.take(i) =~= items);
    }
}

/// Evaluates a filter predicate for one row and session.
pub fn evaluate_predicate(predicate: &YamlValue, row: &OracleRow, session: &OracleSession) -> (r: Result<
    TruthValue,
    OracleError,
>)
    requires
        row.wf(),
        session.wf(),
    ensures
        r == predicate_truth(*predicate, *row, *session),
    decreases predicate,
{
    match predicate {
        YamlValue::Tagged(inner) => evaluate_predicate(&**inner, row, session),
        YamlValue::Mapping(entries) => {
            if entries.len() != 1 {
                return Err(OracleError::InvalidPolicy);
            }
            let key = match yaml_text(&entries[0].0) {
                Some(key) => key.as_str(),
                None => return Err(OracleError::InvalidPolicy),
            };
            let body = &entries[0].1;
            proof {
                assert(decreases_to!(predicate => entries@[0].1));
            }
            if text_eq(key, "and") || text_eq(key, "or") {
                evaluate_group(body, text_eq(key, "and"), row, session)
            } else if text_eq(key, "not") {
                match evaluate_predicate(body, row, session) {
                    Ok(t) => Ok(t.not()),
                    Err(e) => Err(e),
                }
            } else {
                comparison_of(key, body, row, session)
            }
        },
        _ => Err(OracleError::InvalidPolicy),
    }
}

fn evaluate_group(v: &YamlValue, conjunction: bool, row: &OracleRow, session: &OracleSession) -> (r: Result<
    TruthValue,
    OracleError,
>)
    requires
        row.wf(),
        session.wf(),
    ensures
        r == group_truth(*v, conjunction, *row, *session),
    decreases v,
{
    match v {
        YamlValue::Tagged(inner) => evaluate_group(&**inner, conjunction, row, session),
        YamlValue::Sequence(items) => {
            if items.len() == 0 {
                return Err(OracleError::InvalidPolicy);
            }
            let ghost all = items@;
            let mut current = if conjunction {
                TruthValue::True
            } else {
                TruthValue::False
            };
            let mut i: usize = 0;
            while i < items.len()
                invariant
                    all == items@,
                    *v == YamlValue::Sequence(*items),
                    row.wf(),
                    session.wf(),
                    i <= all.len(),
                    fold_truth(all.take(i as int), conjunction, *row, *session) == Ok::<TruthValue, OracleError>(current),
                decreases items.len() - i,
            {
                assert(all.take(i + 1).drop_last() =~= all.take(i as int));
                proof {
                    assert(decreases_to!(v => items@[i as int]));
                }
                let next = match evaluate_predicate(&items[i], row, session) {
                    Ok(t) => t,
                    Err(e) => {
                        proof {
                            lemma_fold_fault_stays(all, conjunction, *row, *session, i + 1);
                        }
                        return Err(e);
                    },
                };
                current = if conjunction {
                    current.and(next)
                } else {
                    current.or(next)
                };
                i = i + 1;
            }
            assert(all.take(i as int) =~= all);
            Ok(current)
        },
        _ => Err(OracleError::InvalidPolicy),
    }
}

/// Evaluates the `select` filter that the policy document gives `role` on
/// `resource`, for one row and session.
pub fn evaluate_select_filter(
    document: &YamlValue,
    resource: &str,
    role: &str,
    row: &OracleRow,
    session: &OracleSession,
) -> (r: Result<TruthValue, OracleError>)
    requires
        row.wf(),
        session.wf(),
    ensures
        r == filter_truth(*document, resource@, role@, *row, *session),
{
    let resources = match yaml_get(document, "resources") {
        Some(x) => x,
        None => return Err(OracleError::MissingResource),
    };
    let granted_on = match yaml_get(resources, resource) {
        Some(x) => x,
        None => return Err(OracleError::MissingResource),
    };
    let roles = match yaml_get(granted_on, "roles") {
        Some(x) => x,
        None => return Err(OracleError::MissingRole),
    };
    let granted = match yaml_get(roles, role) {
        Some(x) => x,
        None => return Err(OracleError::MissingRole),
    };
    let select = match yaml_get(granted, "select") {
        Some(x) => x,
        None => return Err(OracleError::InvalidPolicy),
    };
    let filter = match yaml_get(select, "filter") {
        Some(x) => x,
        None => return Err(OracleError::InvalidPolicy),
    };
    evaluate_predicate(filter, row, session)
}

} // verus!
