//! The policy predicate grammar: the YAML shapes a bundle writes row
//! filters, checks and presets in, and the typed predicates they activate
//! into against one Catalog resource.
use vstd::prelude::*;
use crate::catalog::{ResourceDescriptor, catalog_key};
use crate::identity::{LogicalType, LogicalValue, SessionKey, is_canonical_key};
use crate::ir::{BoundColumn, ColumnUsage};
use crate::policy::{PolicyError, policy_column};
use crate::text::text_eq;
use crate::yaml::{YamlNumber, YamlValue};

verus! {

#[derive(Clone, Copy, Debug, PartialEq, Eq, Structural)]
pub enum ComparisonOperator {
    Equal,
    NotEqual,
    Less,
    LessEqual,
    Greater,
    GreaterEqual,
    Like,
}

/// The right-hand side of a comparison.
#[derive(Debug)]
pub enum PolicyOperand {
    Session(SessionKey),
    Literal(LogicalValue),
    Column(BoundColumn),
}

/// An activated row predicate over one resource's columns.
#[derive(Debug)]
pub enum PolicyPredicate {
    Comparison { column: BoundColumn, operator: ComparisonOperator, operand: PolicyOperand },
    In { column: BoundColumn, values: Vec<LogicalValue>, negated: bool },
    IsNull { column: BoundColumn, is_null: bool },
    And(Vec<PolicyPredicate>),
    Or(Vec<PolicyPredicate>),
    Not(Box<PolicyPredicate>),
}

/// The text of a YAML string, beneath any tags.
pub open spec fn text_of(v: YamlValue) -> Option<Seq<char>>
    decreases v,
{
    match v {
        YamlValue::String(s) => Some(s@),
        YamlValue::Tagged(inner) => text_of(*inner),
        _ => None,
    }
}

/// The YAML value is null, beneath any tags.
pub open spec fn is_null(v: YamlValue) -> bool
    decreases v,
{
    match v {
        YamlValue::Null => true,
        YamlValue::Tagged(inner) => is_null(*inner),
        _ => false,
    }
}

pub open spec fn bool_of(v: YamlValue) -> Option<bool>
    decreases v,
{
    match v {
        YamlValue::Bool(b) => Some(b),
        YamlValue::Tagged(inner) => bool_of(*inner),
        _ => None,
    }
}

pub open spec fn number_of(v: YamlValue) -> Option<YamlNumber>
    decreases v,
{
    match v {
        YamlValue::Number(n) => Some(n),
        YamlValue::Tagged(inner) => number_of(*inner),
        _ => None,
    }
}

/// The items of a YAML sequence, beneath any tags.
pub open spec fn items_of(v: YamlValue) -> Option<Seq<YamlValue>>
    decreases v,
{
    match v {
        YamlValue::Sequence(items) => Some(items@),
        YamlValue::Tagged(inner) => items_of(*inner),
        _ => None,
    }
}

/// The entries of a YAML mapping, beneath any tags.
pub open spec fn entries_of(v: YamlValue) -> Option<Seq<(YamlValue, YamlValue)>>
    decreases v,
{
    match v {
        YamlValue::Mapping(entries) => Some(entries@),
        YamlValue::Tagged(inner) => entries_of(*inner),
        _ => None,
    }
}

/// The key is the untagged string `key`, the only key a lookup by name
/// finds.
pub open spec fn is_key(k: YamlValue, key: Seq<char>) -> bool {
    k matches YamlValue::String(s) && s@ == key
}

pub open spec fn string_like(t: LogicalType) -> bool {
    t == LogicalType::String || t == LogicalType::Date || t == LogicalType::DateTime || t
        == LogicalType::Instant
}

/// Why a YAML value is not a literal of type `expected`.
pub open spec fn literal_error(v: YamlValue, expected: LogicalType) -> Option<PolicyError> {
    if is_null(v) {
        Some(PolicyError::NullComparison)
    } else if string_like(expected) {
        if text_of(v) is Some {
            None
        } else {
            Some(PolicyError::IncompatibleOperand)
        }
    } else {
        match expected {
            LogicalType::Boolean => if bool_of(v) is Some {
                None
            } else {
                Some(PolicyError::IncompatibleOperand)
            },
            LogicalType::Integer | LogicalType::Int64 => if number_of(v) matches Some(n)
                && n.integer is Some {
                None
            } else {
                Some(PolicyError::IncompatibleOperand)
            },
            LogicalType::Number => if number_of(v) is Some {
                None
            } else {
                Some(PolicyError::IncompatibleOperand)
            },
            _ => Some(PolicyError::UnsupportedCapability),
        }
    }
}

/// `lit` is the literal of type `expected` that `v` spells.
pub open spec fn literal_is(lit: LogicalValue, v: YamlValue, expected: LogicalType) -> bool {
    if string_like(expected) {
        lit matches LogicalValue::String(s) && text_of(v) == Some(s@)
    } else {
        match expected {
            LogicalType::Boolean => bool_of(v) matches Some(b) && lit == LogicalValue::Boolean(b),
            LogicalType::Integer | LogicalType::Int64 => number_of(v) matches Some(n)
                && n.integer matches Some(i) && lit == LogicalValue::Int64(i),
            LogicalType::Number => number_of(v) matches Some(n) && lit == LogicalValue::Number(
                n.double_bits,
            ),
            _ => false,
        }
    }
}

pub(crate) fn yaml_text(v: &YamlValue) -> (r: Option<&String>)
    ensures
        match text_of(*v) {
            Some(t) => r matches Some(s) && s@ == t,
            None => r is None,
        },
    decreases v,
{
    match v {
        YamlValue::String(s) => Some(s),
        YamlValue::Tagged(inner) => yaml_text(&**inner),
        _ => None,
    }
}

pub(crate) fn yaml_is_null(v: &YamlValue) -> (r: bool)
    ensures
        r == is_null(*v),
    decreases v,
{
    match v {
        YamlValue::Null => true,
        YamlValue::Tagged(inner) => yaml_is_null(&**inner),
        _ => false,
    }
}

pub(crate) fn yaml_bool(v: &YamlValue) -> (r: Option<bool>)
    ensures
        r == bool_of(*v),
    decreases v,
{
    match v {
        YamlValue::Bool(b) => Some(*b),
        YamlValue::Tagged(inner) => yaml_bool(&**inner),
        _ => None,
    }
}

pub(crate) fn yaml_number(v: &YamlValue) -> (r: Option<YamlNumber>)
    ensures
        r == number_of(*v),
    decreases v,
{
    match v {
        YamlValue::Number(n) => Some(*n),
        YamlValue::Tagged(inner) => yaml_number(&**inner),
        _ => None,
    }
}

pub(crate) fn yaml_items(v: &YamlValue) -> (r: Option<&Vec<YamlValue>>)
    ensures
        match items_of(*v) {
            Some(items) => r matches Some(x) && x@ == items,
            None => r is None,
        },
    decreases v,
{
    match v {
        YamlValue::Sequence(items) => Some(items),
        YamlValue::Tagged(inner) => yaml_items(&**inner),
        _ => None,
    }
}

pub(crate) fn yaml_entries(v: &YamlValue) -> (r: Option<&Vec<(YamlValue, YamlValue)>>)
    ensures
        match entries_of(*v) {
            Some(entries) => r matches Some(x) && x@ == entries,
            None => r is None,
        },
    decreases v,
{
    match v {
        YamlValue::Mapping(entries) => Some(entries),
        YamlValue::Tagged(inner) => yaml_entries(&**inner),
        _ => None,
    }
}

pub(crate) fn yaml_is_key(k: &YamlValue, key: &str) -> (r: bool)
    ensures
        r == is_key(*k, key@),
{
    match k {
        YamlValue::String(s) => text_eq(s.as_str(), key),
        _ => false,
    }
}

/// The literal of type `expected` that a YAML value spells.
pub fn literal_for_type(value: &YamlValue, expected: LogicalType) -> (r: Result<
    LogicalValue,
    PolicyError,
>)
    ensures
        match r {
            Ok(lit) => literal_error(*value, expected) is None && literal_is(lit, *value, expected),
            Err(e) => literal_error(*value, expected) == Some(e),
        },
{
    if yaml_is_null(value) {
        return Err(PolicyError::NullComparison);
    }
    match expected {
        LogicalType::String | LogicalType::Date | LogicalType::DateTime | LogicalType::Instant => {
            match yaml_text(value) {
                Some(s) => Ok(LogicalValue::String(s.clone())),
                None => Err(PolicyError::IncompatibleOperand),
            }
        },
        LogicalType::Boolean => match yaml_bool(value) {
            Some(b) => Ok(LogicalValue::Boolean(b)),
            None => Err(PolicyError::IncompatibleOperand),
        },
        LogicalType::Integer | LogicalType::Int64 => match yaml_number(value) {
            Some(n) => match n.integer {
                Some(i) => Ok(LogicalValue::Int64(i)),
                None => Err(PolicyError::IncompatibleOperand),
            },
            None => Err(PolicyError::IncompatibleOperand),
        },
        LogicalType::Number => match yaml_number(value) {
            Some(n) => Ok(LogicalValue::Number(n.double_bits)),
            None => Err(PolicyError::IncompatibleOperand),
        },
        LogicalType::Bytes | LogicalType::Json => Err(PolicyError::UnsupportedCapability),
    }
}


/// The bound column that column name `name` of `resource` gives in a policy
/// filter.
pub open spec fn filter_column(resource: ResourceDescriptor, name: Seq<char>) -> Option<BoundColumn> {
    match resource.column_spec(catalog_key(name)) {
        Some(c) => Some(
            BoundColumn {
                id: c.id,
                logical_type: c.value.logical_type,
                usage: ColumnUsage::PolicyFilter,
            },
        ),
        None => None,
    }
}

/// Why a YAML value is not an operand of type `expected`.
pub open spec fn operand_error(v: YamlValue, resource: ResourceDescriptor, expected: LogicalType) -> Option<
    PolicyError,
> {
    match entries_of(v) {
        Some(m) => if m.len() != 1 {
            Some(PolicyError::InvalidPredicate)
        } else if is_key(m[0].0, "session"@) {
            if expected != LogicalType::String {
                Some(PolicyError::IncompatibleOperand)
            } else {
                match text_of(m[0].1) {
                    Some(t) => if is_canonical_key(t) {
                        None
                    } else {
                        Some(PolicyError::InvalidPredicate)
                    },
                    None => Some(PolicyError::InvalidPredicate),
                }
            }
        } else if is_key(m[0].0, "column"@) {
            match text_of(m[0].1) {
                Some(t) => match filter_column(resource, t) {
                    Some(c) => if c.logical_type != expected {
                        Some(PolicyError::IncompatibleOperand)
                    } else {
                        None
                    },
                    None => Some(PolicyError::UnknownColumn),
                },
                None => Some(PolicyError::InvalidPredicate),
            }
        } else if is_key(m[0].0, "literal"@) {
            literal_error(m[0].1, expected)
        } else {
            Some(PolicyError::InvalidPredicate)
        },
        None => literal_error(v, expected),
    }
}

/// `op` is the operand of type `expected` that `v` writes.
pub open spec fn operand_is(
    op: PolicyOperand,
    v: YamlValue,
    resource: ResourceDescriptor,
    expected: LogicalType,
) -> bool {
    match entries_of(v) {
        Some(m) => m.len() == 1 && if is_key(m[0].0, "session"@) {
            op matches PolicyOperand::Session(k) && text_of(m[0].1) == Some(k@)
        } else if is_key(m[0].0, "column"@) {
            op matches PolicyOperand::Column(c) && (text_of(m[0].1) matches Some(t) && filter_column(
                resource,
                t,
            ) == Some(c))
        } else {
            op matches PolicyOperand::Literal(l) && literal_is(l, m[0].1, expected)
        },
        None => op matches PolicyOperand::Literal(l) && literal_is(l, v, expected),
    }
}

/// The right-hand side of a comparison against a column of type `expected`:
/// `{session: key}`, `{column: name}`, `{literal: value}` or a bare literal.
pub fn parse_operand(value: &YamlValue, resource: &ResourceDescriptor, expected: LogicalType) -> (r:
    Result<PolicyOperand, PolicyError>)
    requires
        resource.wf(),
    ensures
        match r {
            Ok(op) => operand_error(*value, *resource, expected) is None && operand_is(
                op,
                *value,
                *resource,
                expected,
            ),
            Err(e) => operand_error(*value, *resource, expected) == Some(e),
        },
{
    match yaml_entries(value) {
        Some(entries) => {
            if entries.len() != 1 {
                return Err(PolicyError::InvalidPredicate);
            }
            let key = &entries[0].0;
            let body = &entries[0].1;
            if yaml_is_key(key, "session") {
                if expected != LogicalType::String {
                    return Err(PolicyError::IncompatibleOperand);
                }
                match yaml_text(body) {
                    Some(text) => match SessionKey::new(text.as_str()) {
                        Ok(k) => Ok(PolicyOperand::Session(k)),
                        Err(_) => Err(PolicyError::InvalidPredicate),
                    },
                    None => Err(PolicyError::InvalidPredicate),
                }
            } else if yaml_is_key(key, "column") {
                match yaml_text(body) {
                    Some(name) => {
                        let column = match policy_column(
                            resource,
                            name.as_str(),
                            ColumnUsage::PolicyFilter,
                        ) {
                            Ok(c) => c,
                            Err(e) => return Err(e),
                        };
                        if column.logical_type != expected {
                            return Err(PolicyError::IncompatibleOperand);
                        }
                        Ok(PolicyOperand::Column(column))
                    },
                    None => Err(PolicyError::InvalidPredicate),
                }
            } else if yaml_is_key(key, "literal") {
                match literal_for_type(body, expected) {
                    Ok(lit) => Ok(PolicyOperand::Literal(lit)),
                    Err(e) => Err(e),
                }
            } else {
                Err(PolicyError::InvalidPredicate)
            }
        },
        None => match literal_for_type(value, expected) {
            Ok(lit) => Ok(PolicyOperand::Literal(lit)),
            Err(e) => Err(e),
        },
    }
}

/// The comparison operator a name stands for.
pub open spec fn operator_named(name: Seq<char>) -> Option<ComparisonOperator> {
    if name == "eq"@ {
        Some(ComparisonOperator::Equal)
    } else if name == "neq"@ {
        Some(ComparisonOperator::NotEqual)
    } else if name == "lt"@ {
        Some(ComparisonOperator::Less)
    } else if name == "lte"@ {
        Some(ComparisonOperator::LessEqual)
    } else if name == "gt"@ {
        Some(ComparisonOperator::Greater)
    } else if name == "gte"@ {
        Some(ComparisonOperator::GreaterEqual)
    } else if name == "like"@ {
        Some(ComparisonOperator::Like)
    } else {
        None
    }
}

fn operator_for(name: &str) -> (r: Option<ComparisonOperator>)
    ensures
        r == operator_named(name@),
{
    if text_eq(name, "eq") {
        Some(ComparisonOperator::Equal)
    } else if text_eq(name, "neq") {
        Some(ComparisonOperator::NotEqual)
    } else if text_eq(name, "lt") {
        Some(ComparisonOperator::Less)
    } else if text_eq(name, "lte") {
        Some(ComparisonOperator::LessEqual)
    } else if text_eq(name, "gt") {
        Some(ComparisonOperator::Greater)
    } else if text_eq(name, "gte") {
        Some(ComparisonOperator::GreaterEqual)
    } else if text_eq(name, "like") {
        Some(ComparisonOperator::Like)
    } else {
        None
    }
}

/// Why the items of an `in` list are not all literals of type `t`: the
/// first offending item's refusal.
pub open spec fn literals_error(items: Seq<YamlValue>, t: LogicalType) -> Option<PolicyError>
    decreases items.len(),
{
    if items.len() == 0 {
        None
    } else {
        match literals_error(items.drop_last(), t) {
            Some(e) => Some(e),
            None => literal_error(items.last(), t),
        }
    }
}

proof fn lemma_literals_error_stays(items: Seq<YamlValue>, t: LogicalType, i: int)
    requires
        0 <= i <= items.len(),
        literals_error(items.take(i), t) is Some,
    ensures
        literals_error(items, t) == literals_error(items.take(i), t),
    decreases items.len() - i,
{
    if i < items.len() {
        assert(items.take(i + 1).drop_last() =~= items.take(i));
        lemma_literals_error_stays(items, t, i + 1);
    } else {
        assert(items.take(i) =~= items);
    }
}

/// Why `{name: v}` is not a comparison on column `name` of `resource`.
pub open spec fn comparison_error(name: Seq<char>, v: YamlValue, resource: ResourceDescriptor) -> Option<
    PolicyError,
> {
    match filter_column(resource, name) {
        None => Some(PolicyError::UnknownColumn),
        Some(c) => match entries_of(v) {
            None => Some(PolicyError::InvalidPredicate),
            Some(m) => if m.len() != 1 {
                Some(PolicyError::InvalidPredicate)
            } else {
                match text_of(m[0].0) {
                    None => Some(PolicyError::InvalidPredicate),
                    Some(op) => if op == "is_null"@ {
                        if bool_of(m[0].1) is Some {
                            None
                        } else {
                            Some(PolicyError::InvalidPredicate)
                        }
                    } else if op == "in"@ || op == "not_in"@ {
                        match items_of(m[0].1) {
                            None => Some(PolicyError::InvalidPredicate),
                            Some(items) => if items.len() == 0 {
                                Some(PolicyError::InvalidPredicate)
                            } else {
                                literals_error(items, c.logical_type)
                            },
                        }
                    } else {
                        match operator_named(op) {
                            None => Some(PolicyError::UnknownOperator),
                            Some(o) => if o == ComparisonOperator::Like && c.logical_type
                                != LogicalType::String {
                                Some(PolicyError::IncompatibleOperand)
                            } else {
                                operand_error(m[0].1, resource, c.logical_type)
                            },
                        }
                    },
                }
            },
        },
    }
}

/// `p` is the comparison `{name: v}` on a column of `resource`.
pub open spec fn comparison_is(
    p: PolicyPredicate,
    name: Seq<char>,
    v: YamlValue,
    resource: ResourceDescriptor,
) -> bool {
    match filter_column(resource, name) {
        None => false,
        Some(c) => match entries_of(v) {
            None => false,
            Some(m) => m.len() == 1 && match text_of(m[0].0) {
                None => false,
                Some(op) => if op == "is_null"@ {
                    p matches PolicyPredicate::IsNull { column, is_null } && (column == c && bool_of(
                        m[0].1,
                    ) == Some(is_null))
                } else if op == "in"@ || op == "not_in"@ {
                    p matches PolicyPredicate::In { column, values, negated } && (column == c
                        && negated == (op == "not_in"@) && match items_of(m[0].1) {
                        None => false,
                        Some(items) => values@.len() == items.len() && forall|i: int|
                            0 <= i < items.len() ==> literal_is(
                                #[trigger] values@[i],
                                items[i],
                                c.logical_type,
                            ),
                    })
                } else {
                    p matches PolicyPredicate::Comparison { column, operator, operand } && (column
                        == c && operator_named(op) == Some(operator) && operand_is(
                        operand,
                        m[0].1,
                        resource,
                        c.logical_type,
                    ))
                },
            },
        },
    }
}

/// The literals of type `t` that the items of an `in` list spell.
fn literals_for_type(items: &Vec<YamlValue>, t: LogicalType) -> (r: Result<Vec<LogicalValue>, PolicyError>)
    ensures
        match r {
            Ok(values) => literals_error(items@, t) is None && values@.len() == items@.len()
                && forall|j: int|
                0 <= j < items@.len() ==> literal_is(#[trigger] values@[j], items@[j], t),
            Err(e) => literals_error(items@, t) == Some(e),
        },
{
    let ghost all = items@;
    let mut values: Vec<LogicalValue> = Vec::new();
    let mut i: usize = 0;
    while i < items.len()
        invariant
            all == items@,
            i <= all.len(),
            values@.len() == i,
            literals_error(all.take(i as int), t) is None,
            forall|j: int| 0 <= j < i ==> literal_is(#[trigger] values@[j], all[j], t),
        decreases items.len() - i,
    {
        assert(all.take(i + 1).drop_last() =~= all.take(i as int));
        match literal_for_type(&items[i], t) {
            Ok(lit) => values.push(lit),
            Err(e) => {
                proof {
                    lemma_literals_error_stays(all, t, i + 1);
                }
                return Err(e);
            },
        }
        i = i + 1;
    }
    assert(all.take(i as int) =~= all);
    Ok(values)
}

/// A comparison `{operator: operand}` on the column `column_name`.
pub fn parse_comparison(column_name: &str, value: &YamlValue, resource: &ResourceDescriptor) -> (r:
    Result<PolicyPredicate, PolicyError>)
    requires
        resource.wf(),
    ensures
        match r {
            Ok(p) => comparison_error(column_name@, *value, *resource) is None && comparison_is(
                p,
                column_name@,
                *value,
                *resource,
            ),
            Err(e) => comparison_error(column_name@, *value, *resource) == Some(e),
        },
{
    let column = match policy_column(resource, column_name, ColumnUsage::PolicyFilter) {
        Ok(c) => c,
        Err(e) => return Err(e),
    };
    let entries = match yaml_entries(value) {
        Some(entries) => entries,
        None => return Err(PolicyError::InvalidPredicate),
    };
    if entries.len() != 1 {
        return Err(PolicyError::InvalidPredicate);
    }
    let operator = match yaml_text(&entries[0].0) {
        Some(op) => op,
        None => return Err(PolicyError::InvalidPredicate),
    };
    let operand = &entries[0].1;
    if text_eq(operator.as_str(), "is_null") {
        match yaml_bool(operand) {
            Some(is_null) => Ok(PolicyPredicate::IsNull { column, is_null }),
            None => Err(PolicyError::InvalidPredicate),
        }
    } else if text_eq(operator.as_str(), "in") || text_eq(operator.as_str(), "not_in") {
        let items = match yaml_items(operand) {
            Some(items) => items,
            None => return Err(PolicyError::InvalidPredicate),
        };
        if items.len() == 0 {
            return Err(PolicyError::InvalidPredicate);
        }
        let values = match literals_for_type(items, column.logical_type) {
            Ok(values) => values,
            Err(e) => return Err(e),
        };
        let negated = text_eq(operator.as_str(), "not_in");
        Ok(PolicyPredicate::In { column, values, negated })
    } else {
        let op = match operator_for(operator.as_str()) {
            Some(op) => op,
            None => return Err(PolicyError::UnknownOperator),
        };
        if op == ComparisonOperator::Like && column.logical_type != LogicalType::String {
            return Err(PolicyError::IncompatibleOperand);
        }
        match parse_operand(operand, resource, column.logical_type) {
            Ok(operand) => Ok(PolicyPredicate::Comparison { column, operator: op, operand }),
            Err(e) => Err(e),
        }
    }
}

/// Why a YAML value is not a predicate over `resource`: the first refusal
/// met, reading `and`/`or` lists in order.
pub open spec fn predicate_error(v: YamlValue, resource: ResourceDescriptor) -> Option<PolicyError>
    decreases v,
{
    match v {
        YamlValue::Tagged(inner) => predicate_error(*inner, resource),
        YamlValue::Mapping(m) => if m@.len() != 1 {
            Some(PolicyError::InvalidPredicate)
        } else {
            match text_of(m@[0].0) {
                None => Some(PolicyError::InvalidPredicate),
                Some(k) => if k == "and"@ || k == "or"@ {
                    group_error(m@[0].1, resource)
                } else if k == "not"@ {
                    predicate_error(m@[0].1, resource)
                } else {
                    comparison_error(k, m@[0].1, resource)
                },
            }
        },
        _ => Some(PolicyError::InvalidPredicate),
    }
}

/// Why a YAML value is not a non-empty list of predicates.
pub open spec fn group_error(v: YamlValue, resource: ResourceDescriptor) -> Option<PolicyError>
    decreases v,
{
    match v {
        YamlValue::Tagged(inner) => group_error(*inner, resource),
        YamlValue::Sequence(items) => if items@.len() == 0 {
            Some(PolicyError::InvalidPredicate)
        } else {
            list_error(items@, resource)
        },
        _ => Some(PolicyError::InvalidPredicate),
    }
}

/// The refusal of the first item of `items` that is not a predicate.
pub open spec fn list_error(items: Seq<YamlValue>, resource: ResourceDescriptor) -> Option<PolicyError>
    decreases items,
{
    if items.len() == 0 {
        None
    } else {
        match list_error(items.drop_last(), resource) {
            Some(e) => Some(e),
            None => predicate_error(items.last(), resource),
        }
    }
}

/// `p` is the predicate that `v` writes over `resource`.
pub open spec fn predicate_is(p: PolicyPredicate, v: YamlValue, resource: ResourceDescriptor) -> bool
    decreases v,
{
    match v {
        YamlValue::Tagged(inner) => predicate_is(p, *inner, resource),
        YamlValue::Mapping(m) => m@.len() == 1 && match text_of(m@[0].0) {
            None => false,
            Some(k) => if k == "and"@ {
                match p {
                    PolicyPredicate::And(ps) => group_is(ps@, m@[0].1, resource),
                    _ => false,
                }
            } else if k == "or"@ {
                match p {
                    PolicyPredicate::Or(ps) => group_is(ps@, m@[0].1, resource),
                    _ => false,
                }
            } else if k == "not"@ {
                match p {
                    PolicyPredicate::Not(inner) => predicate_is(*inner, m@[0].1, resource),
                    _ => false,
                }
            } else {
                comparison_is(p, k, m@[0].1, resource)
            },
        },
        _ => false,
    }
}

/// `ps` are the predicates that the list `v` writes, item by item.
pub open spec fn group_is(ps: Seq<PolicyPredicate>, v: YamlValue, resource: ResourceDescriptor) -> bool
    decreases v,
{
    match v {
        YamlValue::Tagged(inner) => group_is(ps, *inner, resource),
        YamlValue::Sequence(items) => ps.len() == items@.len() && forall|i: int|
            0 <= i < items@.len() ==> predicate_is(#[trigger] ps[i], items@[i], resource),
        _ => false,
    }
}

proof fn lemma_list_error_stays(items: Seq<YamlValue>, resource: ResourceDescriptor, i: int)
    requires
        0 <= i <= items.len(),
        list_error(items.take(i), resource) is Some,
    ensures
        list_error(items, resource) == list_error(items.take(i), resource),
    decreases items.len() - i,
{
    if i < items.len() {
        assert(items.take(i + 1).drop_last() =~= items.take(i));
        lemma_list_error_stays(items, resource, i + 1);
    } else {
        assert(items.take(i) =~= items);
    }
}

/// The predicate that a YAML value writes: `{and: [..]}`, `{or: [..]}`,
/// `{not: ..}`, or `{column: {operator: operand}}`.
pub fn parse_predicate(value: &YamlValue, resource: &ResourceDescriptor) -> (r: Result<
    PolicyPredicate,
    PolicyError,
>)
    requires
        resource.wf(),
    ensures
        match r {
            Ok(p) => predicate_error(*value, *resource) is None && predicate_is(
                p,
                *value,
                *resource,
            ),
            Err(e) => predicate_error(*value, *resource) == Some(e),
        },
    decreases value,
{
    match value {
        YamlValue::Tagged(inner) => parse_predicate(&**inner, resource),
        YamlValue::Mapping(entries) => {
            if entries.len() != 1 {
                return Err(PolicyError::InvalidPredicate);
            }
            let key = match yaml_text(&entries[0].0) {
                Some(key) => key,
                None => return Err(PolicyError::InvalidPredicate),
            };
            let body = &entries[0].1;
            proof {
                assert(decreases_to!(value => entries@[0].1));
            }
            if text_eq(key.as_str(), "and") || text_eq(key.as_str(), "or") {
                let predicates = match parse_group(body, resource) {
                    Ok(ps) => ps,
                    Err(e) => return Err(e),
                };
                if text_eq(key.as_str(), "and") {
                    Ok(PolicyPredicate::And(predicates))
                } else {
                    Ok(PolicyPredicate::Or(predicates))
                }
            } else if text_eq(key.as_str(), "not") {
                match parse_predicate(body, resource) {
                    Ok(p) => Ok(PolicyPredicate::Not(Box::new(p))),
                    Err(e) => Err(e),
                }
            } else {
                parse_comparison(key.as_str(), body, resource)
            }
        },
        _ => Err(PolicyError::InvalidPredicate),
    }
}

/// The predicates of a non-empty `and`/`or` list.
fn parse_group(value: &YamlValue, resource: &ResourceDescriptor) -> (r: Result<
    Vec<PolicyPredicate>,
    PolicyError,
>)
    requires
        resource.wf(),
    ensures
        match r {
            Ok(ps) => group_error(*value, *resource) is None && group_is(ps@, *value, *resource),
            Err(e) => group_error(*value, *resource) == Some(e),
        },
    decreases value,
{
    match value {
        YamlValue::Tagged(inner) => parse_group(&**inner, resource),
        YamlValue::Sequence(items) => {
            if items.len() == 0 {
                return Err(PolicyError::InvalidPredicate);
            }
            let ghost all = items@;
            let mut out: Vec<PolicyPredicate> = Vec::new();
            let mut i: usize = 0;
            while i < items.len()
                invariant
                    all == items@,
                    *value == YamlValue::Sequence(*items),
                    all.len() > 0,
                    resource.wf(),
                    i <= all.len(),
                    out@.len() == i,
                    list_error(all.take(i as int), *resource) is None,
                    forall|j: int|
                        0 <= j < i ==> predicate_is(#[trigger] out@[j], all[j], *resource),
                decreases items.len() - i,
            {
                assert(all.take(i + 1).drop_last() =~= all.take(i as int));
                proof {
                    assert(decreases_to!(value => items@[i as int]));
                }
                match parse_predicate(&items[i], resource) {
                    Ok(p) => out.push(p),
                    Err(e) => {
                        proof {
                            lemma_list_error_stays(all, *resource, i + 1);
                        }
                        return Err(e);
                    },
                }
                i = i + 1;
            }
            assert(all.take(i as int) =~= all);
            Ok(out)
        },
        _ => Err(PolicyError::InvalidPredicate),
    }
}
} // verus!
