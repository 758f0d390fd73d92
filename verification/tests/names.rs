use policysql::catalog_manifest::logical_type;
use policysql::identity::{LogicalType, LogicalValue, OperationKind, ValueRepresentation};
use policysql::names::{
    catalog_representation_name, logical_type_name, logical_value_type_name, operation, placeholder_value,
    representation_name, select_column_usage,
};

#[test]
fn public_names_of_operations_types_and_representations() {
    assert_eq!(operation(OperationKind::Delete), "delete");
    assert_eq!(logical_type_name(LogicalType::DateTime), "datetime");
    assert_eq!(logical_value_type_name(&LogicalValue::Null), "null");
    assert_eq!(logical_value_type_name(&LogicalValue::Bytes(vec![1])), "bytes");
    assert_eq!(representation_name(ValueRepresentation::Base64), "base64");
    assert_eq!(catalog_representation_name(ValueRepresentation::Base64), "string");
    assert_eq!(catalog_representation_name(ValueRepresentation::Json), "object");
}

#[test]
fn every_type_name_reads_back_as_its_type() {
    for t in [
        LogicalType::String,
        LogicalType::Integer,
        LogicalType::Boolean,
        LogicalType::Int64,
        LogicalType::Number,
        LogicalType::Bytes,
        LogicalType::Date,
        LogicalType::DateTime,
        LogicalType::Instant,
        LogicalType::Json,
    ] {
        assert_eq!(logical_type(logical_type_name(t)).map(|p| p.0), Some(t));
    }
}

#[test]
fn column_usage_lists_grow_with_permissions() {
    assert_eq!(select_column_usage(true, true, true), vec!["projection"]);
    assert_eq!(select_column_usage(false, false, false), vec!["projection", "predicate", "join", "order"]);
    assert_eq!(
        select_column_usage(false, true, true),
        vec!["projection", "predicate", "join", "order", "group", "aggregate", "window"]
    );
}

#[test]
fn placeholders_are_empty_values_of_each_type() {
    assert_eq!(placeholder_value(LogicalType::Instant), LogicalValue::String(String::new()));
    assert_eq!(placeholder_value(LogicalType::Integer), LogicalValue::Int64(0));
    assert_eq!(placeholder_value(LogicalType::Number), LogicalValue::Number(0));
    assert_eq!(placeholder_value(LogicalType::Json), LogicalValue::Json("null".to_owned()));
}
