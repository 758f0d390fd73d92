//! The public answer to a refused request: a stable code, a fixed message
//! and, for a refusal tied to one statement, the path of that statement.
//! Nothing of the catalog, the policy or the SQL reaches the answer.
use vstd::prelude::*;
use crate::gateway::{GatewayError, RejectionKind};
use crate::text::{decimal, decimal_text, owned};

verus! {

/// Why the runtime refused a request.
#[derive(Clone, Copy, Debug, PartialEq, Eq, Structural)]
pub enum RuntimeError {
    Authentication,
    Access,
    Snapshot,
    Envelope,
    EnvelopeAt(usize),
    Rejected(RejectionKind),
    RejectedAt(RejectionKind, usize),
    Internal,
    Busy,
    RemoteResult,
    RemoteResultAt(usize),
}

/// The body of a refusal as the client sees it.
#[derive(Clone, Debug, PartialEq, Eq)]
pub struct ErrorBody {
    pub code: String,
    pub message: String,
    pub path: Option<String>,
}

/// The error that a refusal tied to statement `index` becomes; refusals of
/// other kinds stay as they are.
pub open spec fn statement_error(e: RuntimeError, index: usize) -> RuntimeError {
    match e {
        RuntimeError::Envelope => RuntimeError::EnvelopeAt(index),
        RuntimeError::Rejected(kind) => RuntimeError::RejectedAt(kind, index),
        RuntimeError::RemoteResult => RuntimeError::RemoteResultAt(index),
        other => other,
    }
}

impl RuntimeError {
    /// Ties an envelope, rejection or result refusal to statement `index`.
    pub fn at_statement(self, index: usize) -> (r: Self)
        ensures
            r == statement_error(self, index),
    {
        match self {
            RuntimeError::Envelope => RuntimeError::EnvelopeAt(index),
            RuntimeError::Rejected(kind) => RuntimeError::RejectedAt(kind, index),
            RuntimeError::RemoteResult => RuntimeError::RemoteResultAt(index),
            other => other,
        }
    }
}

/// A refusal already tied to a statement keeps that statement when it is
/// tied again, and tying never changes its public code.
pub proof fn law_statement_tie_is_stable(e: RuntimeError, first: usize, second: usize)
    ensures
        statement_error(statement_error(e, first), second) == statement_error(e, first),
        error_code(statement_error(e, first)) == error_code(e),
        error_message(statement_error(e, first)) == error_message(e),
{
}

/// The runtime refusal that a gateway refusal becomes.
pub open spec fn gateway_refusal(error: GatewayError) -> RuntimeError {
    match error {
        GatewayError::AccessDenied => RuntimeError::Access,
        GatewayError::SnapshotMismatch => RuntimeError::Snapshot,
        GatewayError::EnvelopeLimit => RuntimeError::Envelope,
        GatewayError::Rejected { kind, index } => RuntimeError::RejectedAt(kind, index),
        GatewayError::TransactionRequired => RuntimeError::Rejected(RejectionKind::ForbiddenOperation),
        GatewayError::ExecutionFailed => RuntimeError::Internal,
    }
}

/// Maps a gateway refusal to the runtime refusal it is answered with.
pub fn runtime_gateway_error(error: GatewayError) -> (r: RuntimeError)
    ensures
        r == gateway_refusal(error),
{
    match error {
        GatewayError::AccessDenied => RuntimeError::Access,
        GatewayError::SnapshotMismatch => RuntimeError::Snapshot,
        GatewayError::EnvelopeLimit => RuntimeError::Envelope,
        GatewayError::Rejected { kind, index } => RuntimeError::RejectedAt(kind, index),
        GatewayError::TransactionRequired => RuntimeError::Rejected(RejectionKind::ForbiddenOperation),
        GatewayError::ExecutionFailed => RuntimeError::Internal,
    }
}
/// The public code of a rejection.
pub open spec fn rejection_code(kind: RejectionKind) -> Seq<char> {
    match kind {
        RejectionKind::InvalidRequest => "POLICYSQL_INVALID_REQUEST"@,
        RejectionKind::InvalidSql => "POLICYSQL_INVALID_SQL"@,
        RejectionKind::MultipleStatements => "POLICYSQL_MULTIPLE_STATEMENTS"@,
        RejectionKind::UnsupportedSql => "POLICYSQL_UNSUPPORTED_SQL"@,
        RejectionKind::MissingPolicy => "POLICYSQL_MISSING_POLICY"@,
        RejectionKind::ForbiddenOperation => "POLICYSQL_FORBIDDEN_OPERATION"@,
        RejectionKind::ForbiddenColumn => "POLICYSQL_FORBIDDEN_COLUMN"@,
        RejectionKind::ForbiddenColumnContext => "POLICYSQL_FORBIDDEN_COLUMN_CONTEXT"@,
        RejectionKind::DuplicateResultColumn => "POLICYSQL_DUPLICATE_RESULT_COLUMN"@,
        RejectionKind::InvalidParameter => "POLICYSQL_INVALID_PARAMETER"@,
        RejectionKind::AmbiguousParameterType => "POLICYSQL_AMBIGUOUS_PARAMETER_TYPE"@,
        RejectionKind::ReservedParameter => "POLICYSQL_RESERVED_PARAMETER"@,
        RejectionKind::PresetColumn => "POLICYSQL_PRESET_COLUMN"@,
        RejectionKind::LimitExceeded => "POLICYSQL_LIMIT_EXCEEDED"@,
        RejectionKind::ExpectationFailed => "POLICYSQL_EXPECTATION_FAILED"@,
    }
}

/// The public message of a rejection.
pub open spec fn rejection_message(kind: RejectionKind) -> Seq<char> {
    match kind {
        RejectionKind::InvalidRequest => "The request is invalid."@,
        RejectionKind::InvalidSql => "The SQL statement cannot be parsed."@,
        RejectionKind::MultipleStatements => "Exactly one SQL statement is required."@,
        RejectionKind::UnsupportedSql => "The SQL statement uses an unsupported form."@,
        RejectionKind::MissingPolicy => "No policy permits this operation."@,
        RejectionKind::ForbiddenOperation => "The operation is not available."@,
        RejectionKind::ForbiddenColumn => "The statement references a column that is not available for this operation."@,
        RejectionKind::ForbiddenColumnContext => "The statement uses a column in a context that is not available."@,
        RejectionKind::DuplicateResultColumn => "Result column names must be unique."@,
        RejectionKind::InvalidParameter => "A statement parameter is missing or invalid."@,
        RejectionKind::AmbiguousParameterType => "A parameter type cannot be proven."@,
        RejectionKind::ReservedParameter => "A parameter uses the server-owned namespace."@,
        RejectionKind::PresetColumn => "A server-owned preset column cannot be supplied by the client."@,
        RejectionKind::LimitExceeded => "The request or result exceeded a configured limit."@,
        RejectionKind::ExpectationFailed => "The operation did not satisfy its declared expectation."@,
    }
}

/// The public code of a refusal.
pub open spec fn error_code(e: RuntimeError) -> Seq<char> {
    match e {
        RuntimeError::Authentication => "POLICYSQL_UNAUTHENTICATED"@,
        RuntimeError::Access => "POLICYSQL_FORBIDDEN_ACCESS"@,
        RuntimeError::Snapshot => "POLICYSQL_STALE_OPERATION"@,
        RuntimeError::Envelope => "POLICYSQL_INVALID_REQUEST"@,
        RuntimeError::EnvelopeAt(_) => "POLICYSQL_INVALID_REQUEST"@,
        RuntimeError::Internal => "POLICYSQL_INTERNAL"@,
        RuntimeError::Busy => "POLICYSQL_DATABASE_UNAVAILABLE"@,
        RuntimeError::RemoteResult => "POLICYSQL_SCHEMA_MISMATCH"@,
        RuntimeError::RemoteResultAt(_) => "POLICYSQL_SCHEMA_MISMATCH"@,
        RuntimeError::Rejected(kind) => rejection_code(kind),
        RuntimeError::RejectedAt(kind, _) => rejection_code(kind),
    }
}

/// The public message of a refusal.
pub open spec fn error_message(e: RuntimeError) -> Seq<char> {
    match e {
        RuntimeError::Authentication => "Authentication is required."@,
        RuntimeError::Access => "The authenticated session cannot use this endpoint."@,
        RuntimeError::Snapshot => "The operation was compiled for a different active snapshot."@,
        RuntimeError::Envelope => "Request envelope is invalid."@,
        RuntimeError::EnvelopeAt(_) => "Request envelope is invalid."@,
        RuntimeError::Internal => "The request could not be completed."@,
        RuntimeError::Busy => "The database adapter is temporarily unavailable."@,
        RuntimeError::RemoteResult => "The database result does not match the compiled logical contract."@,
        RuntimeError::RemoteResultAt(_) => "The database result does not match the compiled logical contract."@,
        RuntimeError::Rejected(kind) => rejection_message(kind),
        RuntimeError::RejectedAt(kind, _) => rejection_message(kind),
    }
}

/// The statement that a refusal is tied to, if any.
pub open spec fn error_statement(e: RuntimeError) -> Option<usize> {
    match e {
        RuntimeError::EnvelopeAt(i) => Some(i),
        RuntimeError::RejectedAt(_, i) => Some(i),
        RuntimeError::RemoteResultAt(i) => Some(i),
        _ => None,
    }
}

/// The path of statement `i` in a request.
pub open spec fn statement_path(i: usize) -> Seq<char> {
    "/statements/"@ + decimal(i as nat)
}

/// `b` is the body with `code`, `message`, and the path of statement
/// `index` where there is one.
pub open spec fn body_is(b: ErrorBody, code: Seq<char>, message: Seq<char>, index: Option<usize>) -> bool {
    &&& b.code@ == code
    &&& b.message@ == message
    &&& match index {
        Some(i) => b.path matches Some(p) && p@ == statement_path(i),
        None => b.path is None,
    }
}

fn error(code: &str, message: &str, index: Option<usize>) -> (r: ErrorBody)
    ensures
        body_is(r, code@, message@, index),
{
    let path = match index {
        Some(i) => {
            let mut p = owned("/statements/");
            let digits = decimal_text(i as u64);
            p.append(digits.as_str());
            Some(p)
        },
        None => None,
    };
    ErrorBody { code: owned(code), message: owned(message), path }
}

/// The body that answers a rejection, at statement `index` where given.
pub fn rejection_body(kind: RejectionKind, index: Option<usize>) -> (r: ErrorBody)
    ensures
        body_is(r, rejection_code(kind), rejection_message(kind), index),
{
    let (code, message) = match kind {
        RejectionKind::InvalidRequest => ("POLICYSQL_INVALID_REQUEST", "The request is invalid."),
        RejectionKind::InvalidSql => ("POLICYSQL_INVALID_SQL", "The SQL statement cannot be parsed."),
        RejectionKind::MultipleStatements => ("POLICYSQL_MULTIPLE_STATEMENTS", "Exactly one SQL statement is required."),
        RejectionKind::UnsupportedSql => ("POLICYSQL_UNSUPPORTED_SQL", "The SQL statement uses an unsupported form."),
        RejectionKind::MissingPolicy => ("POLICYSQL_MISSING_POLICY", "No policy permits this operation."),
        RejectionKind::ForbiddenOperation => ("POLICYSQL_FORBIDDEN_OPERATION", "The operation is not available."),
        RejectionKind::ForbiddenColumn => ("POLICYSQL_FORBIDDEN_COLUMN", "The statement references a column that is not available for this operation."),
        RejectionKind::ForbiddenColumnContext => ("POLICYSQL_FORBIDDEN_COLUMN_CONTEXT", "The statement uses a column in a context that is not available."),
        RejectionKind::DuplicateResultColumn => ("POLICYSQL_DUPLICATE_RESULT_COLUMN", "Result column names must be unique."),
        RejectionKind::InvalidParameter => ("POLICYSQL_INVALID_PARAMETER", "A statement parameter is missing or invalid."),
        RejectionKind::AmbiguousParameterType => ("POLICYSQL_AMBIGUOUS_PARAMETER_TYPE", "A parameter type cannot be proven."),
        RejectionKind::ReservedParameter => ("POLICYSQL_RESERVED_PARAMETER", "A parameter uses the server-owned namespace."),
        RejectionKind::PresetColumn => ("POLICYSQL_PRESET_COLUMN", "A server-owned preset column cannot be supplied by the client."),
        RejectionKind::LimitExceeded => ("POLICYSQL_LIMIT_EXCEEDED", "The request or result exceeded a configured limit."),
        RejectionKind::ExpectationFailed => ("POLICYSQL_EXPECTATION_FAILED", "The operation did not satisfy its declared expectation."),
    };
    error(code, message, index)
}

/// The body that answers a refusal: its public code and message, and the
/// path of the statement it is tied to.
pub fn error_body(runtime_error: RuntimeError) -> (r: ErrorBody)
    ensures
        body_is(r, error_code(runtime_error), error_message(runtime_error), error_statement(runtime_error)),
{
    match runtime_error {
        RuntimeError::Authentication => error("POLICYSQL_UNAUTHENTICATED", "Authentication is required.", None),
        RuntimeError::Access => error("POLICYSQL_FORBIDDEN_ACCESS", "The authenticated session cannot use this endpoint.", None),
        RuntimeError::Snapshot => error("POLICYSQL_STALE_OPERATION", "The operation was compiled for a different active snapshot.", None),
        RuntimeError::Envelope => error("POLICYSQL_INVALID_REQUEST", "Request envelope is invalid.", None),
        RuntimeError::EnvelopeAt(index) => error("POLICYSQL_INVALID_REQUEST", "Request envelope is invalid.", Some(index)),
        RuntimeError::Internal => error("POLICYSQL_INTERNAL", "The request could not be completed.", None),
        RuntimeError::Busy => error("POLICYSQL_DATABASE_UNAVAILABLE", "The database adapter is temporarily unavailable.", None),
        RuntimeError::RemoteResult => error("POLICYSQL_SCHEMA_MISMATCH", "The database result does not match the compiled logical contract.", None),
        RuntimeError::RemoteResultAt(index) => error("POLICYSQL_SCHEMA_MISMATCH", "The database result does not match the compiled logical contract.", Some(index)),
        RuntimeError::Rejected(kind) => rejection_body(kind, None),
        RuntimeError::RejectedAt(kind, index) => rejection_body(kind, Some(index)),
    }
}

} // verus!
