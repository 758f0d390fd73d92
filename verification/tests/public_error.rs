use policysql::gateway::{GatewayError, RejectionKind};
use policysql::public_error::{error_body, rejection_body, runtime_gateway_error, RuntimeError};

#[test]
fn refusals_answer_with_fixed_codes_and_statement_paths() {
    let body = error_body(RuntimeError::RejectedAt(RejectionKind::ForbiddenColumn, 12));
    assert_eq!(body.code, "POLICYSQL_FORBIDDEN_COLUMN");
    assert_eq!(
        body.message,
        "The statement references a column that is not available for this operation."
    );
    assert_eq!(body.path.as_deref(), Some("/statements/12"));
    let body = error_body(RuntimeError::Snapshot);
    assert_eq!(body.code, "POLICYSQL_STALE_OPERATION");
    assert_eq!(body.path, None);
    let body = error_body(RuntimeError::EnvelopeAt(0));
    assert_eq!(body.code, "POLICYSQL_INVALID_REQUEST");
    assert_eq!(body.message, "Request envelope is invalid.");
    assert_eq!(body.path.as_deref(), Some("/statements/0"));
    let body = rejection_body(RejectionKind::InvalidRequest, None);
    assert_eq!(body.message, "The request is invalid.");
    assert_eq!(error_body(RuntimeError::Busy).code, "POLICYSQL_DATABASE_UNAVAILABLE");
    assert_eq!(error_body(RuntimeError::RemoteResultAt(3)).code, "POLICYSQL_SCHEMA_MISMATCH");
}

#[test]
fn gateway_refusals_map_to_runtime_refusals() {
    assert_eq!(runtime_gateway_error(GatewayError::AccessDenied), RuntimeError::Access);
    assert_eq!(
        runtime_gateway_error(GatewayError::TransactionRequired),
        RuntimeError::Rejected(RejectionKind::ForbiddenOperation)
    );
    assert_eq!(
        runtime_gateway_error(GatewayError::Rejected { kind: RejectionKind::InvalidSql, index: 4 }),
        RuntimeError::RejectedAt(RejectionKind::InvalidSql, 4)
    );
    assert_eq!(runtime_gateway_error(GatewayError::ExecutionFailed), RuntimeError::Internal);
}

#[test]
fn tying_to_a_statement_keeps_the_first_statement() {
    let tied = RuntimeError::Rejected(RejectionKind::LimitExceeded).at_statement(2);
    assert_eq!(tied, RuntimeError::RejectedAt(RejectionKind::LimitExceeded, 2));
    assert_eq!(tied.at_statement(5), tied);
    assert_eq!(RuntimeError::Internal.at_statement(1), RuntimeError::Internal);
    assert_eq!(RuntimeError::RemoteResult.at_statement(1), RuntimeError::RemoteResultAt(1));
}
