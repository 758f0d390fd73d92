//! The values that a request's parameters and a driver's result rows carry
//! as JSON, and the logical values they are read as.
use vstd::prelude::*;
use crate::gateway::RejectionKind;
use crate::identity::{LogicalType, LogicalValue};
use crate::public_error::RuntimeError;
use crate::results::finite_bits;

verus! {

/// A JSON value as the runtime reads it: a number by its value as a 64-bit
/// signed integer when it is one and by the bit pattern of its value as a
/// double; an array or object by its compact JSON text.
#[derive(Debug, PartialEq, Eq)]
pub enum JsonValue {
    Null,
    Bool(bool),
    Number { integer: Option<i64>, double_bits: u64 },
    String(String),
    Composite(String),
}

impl Clone for JsonValue {
    fn clone(&self) -> (r: Self)
        ensures
            r == *self,
    {
        match self {
            JsonValue::Null => JsonValue::Null,
            JsonValue::Bool(b) => JsonValue::Bool(*b),
            JsonValue::Number { integer, double_bits } => JsonValue::Number {
                integer: *integer,
                double_bits: *double_bits,
            },
            JsonValue::String(s) => JsonValue::String(s.clone()),
            JsonValue::Composite(t) => JsonValue::Composite(t.clone()),
        }
    }
}

/// Whether `serde_json` parses `text` as a JSON value.
pub uninterp spec fn json_text_parses(text: Seq<char>) -> bool;

/// `serde_json::from_str::<serde_json::Value>`: whether the text parses as
/// JSON. The contract names the answer and claims only that it depends on
/// the text alone.
#[verifier::external_body]
fn json_parses(text: &str) -> (r: bool)
    ensures
        r == json_text_parses(text@),
{
    serde_json::from_str::<serde_json::Value>(text).is_ok()
}

/// The logical value that a request's JSON value stands for, where the
/// parameter is expected at `expected`: numbers are integers where they are
/// one and finite doubles otherwise; arrays and objects only for JSON.
pub open spec fn request_value(v: JsonValue, expected: Option<LogicalType>) -> Result<LogicalValue, RuntimeError> {
    match v {
        JsonValue::Null => Ok(LogicalValue::Null),
        JsonValue::Bool(b) => Ok(LogicalValue::Boolean(b)),
        JsonValue::Number { integer, double_bits } => match integer {
            Some(i) => Ok(LogicalValue::Int64(i)),
            None => if finite_bits(double_bits) {
                Ok(LogicalValue::Number(double_bits))
            } else {
                Err(RuntimeError::Rejected(RejectionKind::InvalidParameter))
            },
        },
        JsonValue::String(s) => Ok(LogicalValue::String(s)),
        JsonValue::Composite(t) => if expected == Some(LogicalType::Json) {
            Ok(LogicalValue::Json(t))
        } else {
            Err(RuntimeError::Rejected(RejectionKind::InvalidParameter))
        },
    }
}

/// Reads a request's JSON value as a logical value.
pub fn logical_value(value: JsonValue, expected: Option<LogicalType>) -> (r: Result<LogicalValue, RuntimeError>)
    ensures
        r == request_value(value, expected),
{
    match value {
        JsonValue::Null => Ok(LogicalValue::Null),
        JsonValue::Bool(b) => Ok(LogicalValue::Boolean(b)),
        JsonValue::Number { integer, double_bits } => match integer {
            Some(i) => Ok(LogicalValue::Int64(i)),
            None => if (double_bits >> 52u64) & 0x7ffu64 != 0x7ffu64 {
                Ok(LogicalValue::Number(double_bits))
            } else {
                Err(RuntimeError::Rejected(RejectionKind::InvalidParameter))
            },
        },
        JsonValue::String(s) => Ok(LogicalValue::String(s)),
        JsonValue::Composite(t) => if expected == Some(LogicalType::Json) {
            Ok(LogicalValue::Json(t))
        } else {
            Err(RuntimeError::Rejected(RejectionKind::InvalidParameter))
        },
    }
}

/// A result value read against the candidate types `es` in turn: the
/// first reading that succeeds; a database null stays null.
pub open spec fn scalar_result(v: JsonValue, es: Seq<LogicalType>) -> Result<LogicalValue, RuntimeError>
    decreases es.len(),
{
    if v is Null {
        Ok(LogicalValue::Null)
    } else if es.len() == 0 {
        Err(RuntimeError::RemoteResult)
    } else {
        match request_value(v, Some(es[0])) {
            Ok(x) => Ok(x),
            Err(_) => scalar_result(v, es.drop_first()),
        }
    }
}

/// A result value where JSON is among the candidate types: a string that
/// parses as JSON is JSON; null stays null; with other candidates the
/// value is read as a scalar.
pub open spec fn json_result(v: JsonValue, es: Seq<LogicalType>) -> Result<LogicalValue, RuntimeError> {
    if es.contains(LogicalType::Json) {
        match v {
            JsonValue::String(s) => if json_text_parses(s@) {
                Ok(LogicalValue::Json(s))
            } else if es.len() > 1 {
                scalar_result(v, es)
            } else {
                Err(RuntimeError::RemoteResult)
            },
            JsonValue::Null => Ok(LogicalValue::Null),
            _ => if es.len() > 1 {
                scalar_result(v, es)
            } else {
                Err(RuntimeError::RemoteResult)
            },
        }
    } else {
        scalar_result(v, es)
    }
}

/// A driver's result value read against the candidate types `es`: where a
/// boolean is among them, `true`, `false`, `0` and `1` are booleans and
/// null stays null; with other candidates the value is read on.
pub open spec fn result_value(v: JsonValue, es: Seq<LogicalType>) -> Result<LogicalValue, RuntimeError> {
    if es.contains(LogicalType::Boolean) {
        match v {
            JsonValue::Bool(b) => Ok(LogicalValue::Boolean(b)),
            JsonValue::Number { integer: Some(0), .. } => Ok(LogicalValue::Boolean(false)),
            JsonValue::Number { integer: Some(1), .. } => Ok(LogicalValue::Boolean(true)),
            JsonValue::Null => Ok(LogicalValue::Null),
            _ => if es.len() > 1 {
                json_result(v, es)
            } else {
                Err(RuntimeError::RemoteResult)
            },
        }
    } else {
        json_result(v, es)
    }
}

fn has_type(es: &[LogicalType], t: LogicalType) -> (r: bool)
    ensures
        r == es@.contains(t),
{
    let mut i: usize = 0;
    while i < es.len()
        invariant
            i <= es@.len(),
            forall|j: int| 0 <= j < i ==> es@[j] != t,
        decreases es.len() - i,
    {
        if es[i] == t {
            return true;
        }
        i = i + 1;
    }
    false
}

fn logical_result_value_scalar(value: JsonValue, expected: &[LogicalType]) -> (r: Result<LogicalValue, RuntimeError>)
    ensures
        r == scalar_result(value, expected@),
{
    if let JsonValue::Null = value {
        return Ok(LogicalValue::Null);
    }
    let ghost es = expected@;
    let mut i: usize = 0;
    assert(es.subrange(0, es.len() as int) =~= es);
    while i < expected.len()
        invariant
            es == expected@,
            i <= es.len(),
            !(value is Null),
            scalar_result(value, es) == scalar_result(value, es.subrange(i as int, es.len() as int)),
        decreases expected.len() - i,
    {
        proof {
            let rest = es.subrange(i as int, es.len() as int);
            assert(rest.drop_first() =~= es.subrange(i + 1, es.len() as int));
            assert(rest[0] == es[i as int]);
        }
        match logical_value(value.clone(), Some(expected[i])) {
            Ok(v) => {
                return Ok(v);
            },
            Err(_) => {},
        }
        i = i + 1;
    }
    assert(es.subrange(i as int, es.len() as int).len() == 0);
    Err(RuntimeError::RemoteResult)
}

fn logical_result_value_without_boolean(value: JsonValue, expected: &[LogicalType]) -> (r: Result<
    LogicalValue,
    RuntimeError,
>)
    ensures
        r == json_result(value, expected@),
{
    if has_type(expected, LogicalType::Json) {
        return match value {
            JsonValue::String(s) => {
                if json_parses(s.as_str()) {
                    Ok(LogicalValue::Json(s))
                } else if expected.len() > 1 {
                    logical_result_value_scalar(JsonValue::String(s), expected)
                } else {
                    Err(RuntimeError::RemoteResult)
                }
            },
            JsonValue::Null => Ok(LogicalValue::Null),
            other => if expected.len() > 1 {
                logical_result_value_scalar(other, expected)
            } else {
                Err(RuntimeError::RemoteResult)
            },
        };
    }
    logical_result_value_scalar(value, expected)
}

/// Reads a driver's result value against the types its column may hold.
pub fn logical_result_value(value: JsonValue, expected: &[LogicalType]) -> (r: Result<LogicalValue, RuntimeError>)
    ensures
        r == result_value(value, expected@),
{
    if has_type(expected, LogicalType::Boolean) {
        return match value {
            JsonValue::Bool(b) => Ok(LogicalValue::Boolean(b)),
            JsonValue::Number { integer: Some(0), .. } => Ok(LogicalValue::Boolean(false)),
            JsonValue::Number { integer: Some(1), .. } => Ok(LogicalValue::Boolean(true)),
            JsonValue::Null => Ok(LogicalValue::Null),
            other => if expected.len() > 1 {
                logical_result_value_without_boolean(other, expected)
            } else {
                Err(RuntimeError::RemoteResult)
            },
        };
    }
    logical_result_value_without_boolean(value, expected)
}

} // verus!
