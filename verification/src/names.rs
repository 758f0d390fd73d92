//! The names under which the public interface writes operations, logical
//! types, value kinds and representations, and the usages it lists for a
//! column.
use vstd::prelude::*;
use crate::catalog_manifest::type_named;
use crate::identity::{LogicalType, LogicalValue, OperationKind, ValueRepresentation};

verus! {

pub open spec fn operation_text(value: OperationKind) -> Seq<char> {
    match value {
        OperationKind::Select => "select"@,
        OperationKind::Insert => "insert"@,
        OperationKind::Update => "update"@,
        OperationKind::Delete => "delete"@,
    }
}

/// The public name of an operation.
pub fn operation(value: OperationKind) -> (r: &'static str)
    ensures
        r@ == operation_text(value),
{
    match value {
        OperationKind::Select => "select",
        OperationKind::Insert => "insert",
        OperationKind::Update => "update",
        OperationKind::Delete => "delete",
    }
}

pub open spec fn logical_type_text(value: LogicalType) -> Seq<char> {
    match value {
        LogicalType::String => "string"@,
        LogicalType::Integer => "integer"@,
        LogicalType::Boolean => "boolean"@,
        LogicalType::Int64 => "int64"@,
        LogicalType::Number => "number"@,
        LogicalType::Bytes => "bytes"@,
        LogicalType::Date => "date"@,
        LogicalType::DateTime => "datetime"@,
        LogicalType::Instant => "instant"@,
        LogicalType::Json => "json"@,
    }
}

/// The public name of a logical type.
pub fn logical_type_name(value: LogicalType) -> (r: &'static str)
    ensures
        r@ == logical_type_text(value),
{
    match value {
        LogicalType::String => "string",
        LogicalType::Integer => "integer",
        LogicalType::Boolean => "boolean",
        LogicalType::Int64 => "int64",
        LogicalType::Number => "number",
        LogicalType::Bytes => "bytes",
        LogicalType::Date => "date",
        LogicalType::DateTime => "datetime",
        LogicalType::Instant => "instant",
        LogicalType::Json => "json",
    }
}

/// The name a logical type is written under is the name a Catalog
/// manifest reads back as that type.
pub proof fn law_type_names_read_back(value: LogicalType)
    ensures
        type_named(logical_type_text(value)) is Some,
        type_named(logical_type_text(value))->Some_0.0 == value,
{
    match value {
        LogicalType::String => {
            reveal_strlit("string");
        },
        LogicalType::Integer => {
            reveal_strlit("integer");
            reveal_strlit("string");
            assert("integer"@[0] != "string"@[0]);
        },
        LogicalType::Boolean => {
            reveal_strlit("boolean");
            reveal_strlit("integer");
            reveal_strlit("string");
            assert("boolean"@[0] != "string"@[0]);
            assert("boolean"@[0] != "integer"@[0]);
        },
        LogicalType::Int64 => {
            reveal_strlit("boolean");
            reveal_strlit("int64");
            reveal_strlit("integer");
            reveal_strlit("string");
            assert("int64"@[0] != "string"@[0]);
            assert("int64"@[3] != "integer"@[3]);
            assert("int64"@[0] != "boolean"@[0]);
        },
        LogicalType::Number => {
            reveal_strlit("boolean");
            reveal_strlit("int64");
            reveal_strlit("integer");
            reveal_strlit("number");
            reveal_strlit("string");
            assert("number"@[0] != "string"@[0]);
            assert("number"@[0] != "integer"@[0]);
            assert("number"@[0] != "boolean"@[0]);
            assert("number"@[0] != "int64"@[0]);
        },
        LogicalType::Bytes => {
            reveal_strlit("boolean");
            reveal_strlit("bytes");
            reveal_strlit("int64");
            reveal_strlit("integer");
            reveal_strlit("number");
            reveal_strlit("string");
            assert("bytes"@[0] != "string"@[0]);
            assert("bytes"@[0] != "integer"@[0]);
            assert("bytes"@[1] != "boolean"@[1]);
            assert("bytes"@[0] != "int64"@[0]);
            assert("bytes"@[0] != "number"@[0]);
        },
        LogicalType::Date => {
            reveal_strlit("boolean");
            reveal_strlit("bytes");
            reveal_strlit("date");
            reveal_strlit("int64");
            reveal_strlit("integer");
            reveal_strlit("number");
            reveal_strlit("string");
            assert("date"@[0] != "string"@[0]);
            assert("date"@[0] != "integer"@[0]);
            assert("date"@[0] != "boolean"@[0]);
            assert("date"@[0] != "int64"@[0]);
            assert("date"@[0] != "number"@[0]);
            assert("date"@[0] != "bytes"@[0]);
        },
        LogicalType::DateTime => {
            reveal_strlit("boolean");
            reveal_strlit("bytes");
            reveal_strlit("date");
            reveal_strlit("datetime");
            reveal_strlit("int64");
            reveal_strlit("integer");
            reveal_strlit("number");
            reveal_strlit("string");
            assert("datetime"@[0] != "string"@[0]);
            assert("datetime"@[0] != "integer"@[0]);
            assert("datetime"@[0] != "boolean"@[0]);
            assert("datetime"@[0] != "int64"@[0]);
            assert("datetime"@[0] != "number"@[0]);
            assert("datetime"@[0] != "bytes"@[0]);
            assert("datetime"@.len() != "date"@.len());
        },
        LogicalType::Instant => {
            reveal_strlit("boolean");
            reveal_strlit("bytes");
            reveal_strlit("date");
            reveal_strlit("datetime");
            reveal_strlit("instant");
            reveal_strlit("int64");
            reveal_strlit("integer");
            reveal_strlit("number");
            reveal_strlit("string");
            assert("instant"@[0] != "string"@[0]);
            assert("instant"@[2] != "integer"@[2]);
            assert("instant"@[0] != "boolean"@[0]);
            assert("instant"@[2] != "int64"@[2]);
            assert("instant"@[0] != "number"@[0]);
            assert("instant"@[0] != "bytes"@[0]);
            assert("instant"@[0] != "date"@[0]);
            assert("instant"@[0] != "datetime"@[0]);
        },
        LogicalType::Json => {
            reveal_strlit("boolean");
            reveal_strlit("bytes");
            reveal_strlit("date");
            reveal_strlit("datetime");
            reveal_strlit("instant");
            reveal_strlit("int64");
            reveal_strlit("integer");
            reveal_strlit("json");
            reveal_strlit("number");
            reveal_strlit("string");
            assert("json"@[0] != "string"@[0]);
            assert("json"@[0] != "integer"@[0]);
            assert("json"@[0] != "boolean"@[0]);
            assert("json"@[0] != "int64"@[0]);
            assert("json"@[0] != "number"@[0]);
            assert("json"@[0] != "bytes"@[0]);
            assert("json"@[0] != "date"@[0]);
            assert("json"@[0] != "datetime"@[0]);
            assert("json"@[0] != "instant"@[0]);
        },
    }
}

pub open spec fn value_kind_text(value: LogicalValue) -> Seq<char> {
    match value {
        LogicalValue::Null => "null"@,
        LogicalValue::String(_) => "string"@,
        LogicalValue::Boolean(_) => "boolean"@,
        LogicalValue::Int64(_) => "int64"@,
        LogicalValue::Number(_) => "number"@,
        LogicalValue::Bytes(_) => "bytes"@,
        LogicalValue::Json(_) => "json"@,
    }
}

/// The public name of the kind of a value.
pub fn logical_value_type_name(value: &LogicalValue) -> (r: &'static str)
    ensures
        r@ == value_kind_text(*value),
{
    match value {
        LogicalValue::Null => "null",
        LogicalValue::String(_) => "string",
        LogicalValue::Boolean(_) => "boolean",
        LogicalValue::Int64(_) => "int64",
        LogicalValue::Number(_) => "number",
        LogicalValue::Bytes(_) => "bytes",
        LogicalValue::Json(_) => "json",
    }
}

pub open spec fn representation_text(value: ValueRepresentation) -> Seq<char> {
    match value {
        ValueRepresentation::String => "string"@,
        ValueRepresentation::Boolean => "boolean"@,
        ValueRepresentation::Number => "number"@,
        ValueRepresentation::Base64 => "base64"@,
        ValueRepresentation::Json => "json"@,
    }
}

/// The public name of a representation in a compiled result.
pub fn representation_name(value: ValueRepresentation) -> (r: &'static str)
    ensures
        r@ == representation_text(value),
{
    match value {
        ValueRepresentation::String => "string",
        ValueRepresentation::Boolean => "boolean",
        ValueRepresentation::Number => "number",
        ValueRepresentation::Base64 => "base64",
        ValueRepresentation::Json => "json",
    }
}

pub open spec fn catalog_representation_text(value: ValueRepresentation) -> Seq<char> {
    match value {
        ValueRepresentation::String | ValueRepresentation::Base64 => "string"@,
        ValueRepresentation::Boolean => "boolean"@,
        ValueRepresentation::Number => "number"@,
        ValueRepresentation::Json => "object"@,
    }
}

/// The public name of a representation in the Catalog description: bytes
/// travel as strings and JSON as objects.
pub fn catalog_representation_name(value: ValueRepresentation) -> (r: &'static str)
    ensures
        r@ == catalog_representation_text(value),
{
    match value {
        ValueRepresentation::String | ValueRepresentation::Base64 => "string",
        ValueRepresentation::Boolean => "boolean",
        ValueRepresentation::Number => "number",
        ValueRepresentation::Json => "object",
    }
}

/// The usages listed for a selectable column: only projection where the
/// column is shown conditionally; else projection, predicate, join and
/// order, then group and aggregate where aggregations are allowed, then
/// window where windows are.
pub open spec fn column_usage(conditional: bool, allow_aggregations: bool, allow_windows: bool) -> Seq<Seq<char>> {
    if conditional {
        seq!["projection"@]
    } else {
        seq!["projection"@, "predicate"@, "join"@, "order"@] + (if allow_aggregations {
            seq!["group"@, "aggregate"@]
        } else {
            seq![]
        }) + (if allow_windows {
            seq!["window"@]
        } else {
            seq![]
        })
    }
}

/// The usages listed for a selectable column.
pub fn select_column_usage(conditional: bool, allow_aggregations: bool, allow_windows: bool) -> (r: Vec<&'static str>)
    ensures
        r@.map_values(|u: &'static str| u@) == column_usage(conditional, allow_aggregations, allow_windows),
{
    if conditional {
        let r = vec!["projection"];
        assert(r@.map_values(|u: &'static str| u@) =~= column_usage(conditional, allow_aggregations, allow_windows));
        return r;
    }
    let mut usage = vec!["projection", "predicate", "join", "order"];
    if allow_aggregations {
        usage.push("group");
        usage.push("aggregate");
    }
    if allow_windows {
        usage.push("window");
    }
    assert(usage@.map_values(|u: &'static str| u@) =~= column_usage(conditional, allow_aggregations, allow_windows));
    usage
}

/// A value of each logical type that stands in where a parameter's value
/// is not known: empty text, false, zero, no bytes, or JSON `null`.
pub fn placeholder_value(logical_type: LogicalType) -> (r: LogicalValue)
    ensures
        match logical_type {
            LogicalType::String | LogicalType::Date | LogicalType::DateTime | LogicalType::Instant => r matches LogicalValue::String(s) && s@.len() == 0,
            LogicalType::Boolean => r == LogicalValue::Boolean(false),
            LogicalType::Integer | LogicalType::Int64 => r == LogicalValue::Int64(0),
            LogicalType::Number => r == LogicalValue::Number(0),
            LogicalType::Bytes => r matches LogicalValue::Bytes(b) && b@.len() == 0,
            LogicalType::Json => r matches LogicalValue::Json(s) && s@ == "null"@,
        },
{
    match logical_type {
        LogicalType::String | LogicalType::Date | LogicalType::DateTime | LogicalType::Instant => {
            LogicalValue::String(String::new())
        },
        LogicalType::Boolean => LogicalValue::Boolean(false),
        LogicalType::Integer | LogicalType::Int64 => LogicalValue::Int64(0),
        LogicalType::Number => LogicalValue::Number(0),
        LogicalType::Bytes => LogicalValue::Bytes(Vec::new()),
        LogicalType::Json => LogicalValue::Json(crate::text::owned("null")),
    }
}

} // verus!
