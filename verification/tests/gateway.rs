use policysql::emit::{CompileError, EmitError};
use policysql::gateway::{
    AuthContext, EndpointPermission, GatewayError, RejectionKind, admit_envelope,
    classify_bind_error, compile_rejection, policy_rejection, reconcile_expectations,
    require_reads_only,
};
use policysql::identity::{OperationKind, RoleName, SnapshotId, TrustedSession};
use policysql::parser::BindError;
use policysql::policy::PolicyError;
use policysql::text_map::TextMap;

fn auth(permissions: &[EndpointPermission]) -> AuthContext {
    let session = TrustedSession::new(
        RoleName::new("member").unwrap_or_else(|e| unreachable!("{e:?}")),
        "user_1",
        TextMap::new(),
    )
    .unwrap_or_else(|e| unreachable!("{e:?}"));
    AuthContext::new(session, permissions)
}

fn snapshot(name: &str) -> SnapshotId {
    SnapshotId::new(name).unwrap_or_else(|e| unreachable!("{e:?}"))
}

#[test]
fn endpoint_permission_and_snapshot_are_enforced_before_compile() {
    let caller = auth(&[EndpointPermission::Execute]);
    let served = snapshot("gateway_1");
    assert_eq!(
        admit_envelope(&caller, EndpointPermission::Explain, None, &served, 1, 4),
        Err(GatewayError::AccessDenied)
    );
    let stale = snapshot("stale");
    assert_eq!(
        admit_envelope(&caller, EndpointPermission::Execute, Some(&stale), &served, 1, 4),
        Err(GatewayError::SnapshotMismatch)
    );
    assert_eq!(
        admit_envelope(&caller, EndpointPermission::Execute, Some(&served), &served, 1, 4),
        Ok(())
    );
}

#[test]
fn envelope_size_is_bounded() {
    let caller = auth(&[EndpointPermission::Execute, EndpointPermission::Catalog]);
    let served = snapshot("gateway_1");
    assert_eq!(
        admit_envelope(&caller, EndpointPermission::Execute, None, &served, 0, 4),
        Err(GatewayError::EnvelopeLimit)
    );
    assert_eq!(
        admit_envelope(&caller, EndpointPermission::Execute, None, &served, 5, 4),
        Err(GatewayError::EnvelopeLimit)
    );
    assert!(caller.permitted(EndpointPermission::Catalog));
    assert!(!caller.permitted(EndpointPermission::Explain));
}

#[test]
fn refusals_map_to_public_kinds() {
    assert_eq!(classify_bind_error(&BindError::InvalidSql), RejectionKind::InvalidSql);
    assert_eq!(classify_bind_error(&BindError::Unsupported("EXPLAIN")), RejectionKind::UnsupportedSql);
    assert_eq!(classify_bind_error(&BindError::ImplicitRowId), RejectionKind::ForbiddenColumn);
    assert_eq!(classify_bind_error(&BindError::JoinLimit), RejectionKind::LimitExceeded);
    assert_eq!(classify_bind_error(&BindError::UnknownResource), RejectionKind::ForbiddenOperation);
    assert_eq!(policy_rejection(&PolicyError::MissingPolicy), RejectionKind::MissingPolicy);
    assert_eq!(policy_rejection(&PolicyError::UnknownColumn), RejectionKind::ForbiddenColumn);
    assert_eq!(
        policy_rejection(&PolicyError::InvariantViolation("x".to_owned())),
        RejectionKind::ForbiddenOperation
    );
    assert_eq!(
        compile_rejection(&CompileError::ClientParameterMismatch),
        RejectionKind::InvalidParameter
    );
    assert_eq!(
        compile_rejection(&CompileError::Emit(EmitError::Formatting)),
        RejectionKind::UnsupportedSql
    );
}

#[test]
fn caller_expectations_meet_compiled_ones() {
    assert_eq!(
        reconcile_expectations(OperationKind::Select, Some(1), None, None, Some(3), 2),
        Err(GatewayError::Rejected { kind: RejectionKind::InvalidRequest, index: 2 })
    );
    assert_eq!(
        reconcile_expectations(OperationKind::Insert, Some(2), Some(1), None, None, 0),
        Err(GatewayError::Rejected { kind: RejectionKind::ExpectationFailed, index: 0 })
    );
    assert_eq!(
        reconcile_expectations(OperationKind::Insert, Some(1), None, Some(1), None, 0),
        Ok((Some(1), Some(1)))
    );
    assert_eq!(
        reconcile_expectations(OperationKind::Update, None, Some(4), None, Some(2), 0),
        Ok((Some(4), Some(2)))
    );
}

#[test]
fn mutation_compiles_but_cannot_cross_the_read_executor_boundary() {
    assert_eq!(require_reads_only(&[OperationKind::Select, OperationKind::Select]), Ok(()));
    assert_eq!(
        require_reads_only(&[OperationKind::Select, OperationKind::Insert]),
        Err(GatewayError::TransactionRequired)
    );
}
