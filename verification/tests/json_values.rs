use policysql::gateway::RejectionKind;
use policysql::identity::{LogicalType, LogicalValue};
use policysql::json_values::{logical_result_value, logical_value, JsonValue};
use policysql::public_error::RuntimeError;

fn integer(value: i64) -> JsonValue {
    JsonValue::Number { integer: Some(value), double_bits: (value as f64).to_bits() }
}

fn double(value: f64) -> JsonValue {
    JsonValue::Number { integer: None, double_bits: value.to_bits() }
}

#[test]
fn request_values_read_integers_finite_doubles_and_json_only_where_expected() {
    assert_eq!(logical_value(integer(7), None), Ok(LogicalValue::Int64(7)));
    assert_eq!(logical_value(double(2.5), None), Ok(LogicalValue::Number(2.5f64.to_bits())));
    assert_eq!(
        logical_value(double(f64::NAN), None),
        Err(RuntimeError::Rejected(RejectionKind::InvalidParameter))
    );
    let object = JsonValue::Composite("{\"a\":1}".to_owned());
    assert_eq!(
        logical_value(object.clone(), Some(LogicalType::Json)),
        Ok(LogicalValue::Json("{\"a\":1}".to_owned()))
    );
    assert_eq!(
        logical_value(object, Some(LogicalType::String)),
        Err(RuntimeError::Rejected(RejectionKind::InvalidParameter))
    );
    assert_eq!(logical_value(JsonValue::String("x".to_owned()), None), Ok(LogicalValue::String("x".to_owned())));
}

#[test]
fn result_values_read_booleans_json_text_and_scalars() {
    assert_eq!(logical_result_value(integer(1), &[LogicalType::Boolean]), Ok(LogicalValue::Boolean(true)));
    assert_eq!(logical_result_value(integer(0), &[LogicalType::Boolean]), Ok(LogicalValue::Boolean(false)));
    assert_eq!(logical_result_value(integer(2), &[LogicalType::Boolean]), Err(RuntimeError::RemoteResult));
    assert_eq!(
        logical_result_value(integer(2), &[LogicalType::Boolean, LogicalType::Int64]),
        Ok(LogicalValue::Int64(2))
    );
    assert_eq!(
        logical_result_value(JsonValue::String("{\"a\":[1]}".to_owned()), &[LogicalType::Json]),
        Ok(LogicalValue::Json("{\"a\":[1]}".to_owned()))
    );
    assert_eq!(
        logical_result_value(JsonValue::String("{not json".to_owned()), &[LogicalType::Json]),
        Err(RuntimeError::RemoteResult)
    );
    assert_eq!(
        logical_result_value(JsonValue::String("{not json".to_owned()), &[LogicalType::Json, LogicalType::String]),
        Ok(LogicalValue::String("{not json".to_owned()))
    );
    assert_eq!(logical_result_value(JsonValue::Null, &[LogicalType::Int64]), Ok(LogicalValue::Null));
    assert_eq!(logical_result_value(JsonValue::Bool(true), &[]), Err(RuntimeError::RemoteResult));
}
