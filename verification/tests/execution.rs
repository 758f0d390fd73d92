use policysql::adapter::{AdapterError, admit_read};
use policysql::execution::{
    CallbackError, TransactionCoordinator, TransactionEvent, TransactionFailure,
    TransactionOutcome, TransactionStep, VerificationError, callback_admits, check_candidate,
};
use policysql::identity::{BackendProfileId, OperationKind};

fn run(plans: usize, checks: usize, events: &[TransactionEvent]) -> Vec<TransactionStep> {
    let (mut coordinator, first) = TransactionCoordinator::new(plans, checks);
    let mut steps = vec![first];
    for event in events {
        steps.push(coordinator.advance(*event));
    }
    steps
}

#[test]
fn commit_check_accepts_then_commits_same_transaction() {
    assert_eq!(
        run(1, 1, &[TransactionEvent::Began, TransactionEvent::Executed, TransactionEvent::Accepted, TransactionEvent::Committed]),
        vec![
            TransactionStep::Begin,
            TransactionStep::Execute(0),
            TransactionStep::Check(0),
            TransactionStep::Commit,
            TransactionStep::Finish(TransactionOutcome::Committed),
        ]
    );
}

#[test]
fn rejected_commit_check_rolls_back_and_suppresses_results() {
    assert_eq!(
        run(1, 1, &[TransactionEvent::Began, TransactionEvent::Executed, TransactionEvent::Rejected, TransactionEvent::RolledBack]),
        vec![
            TransactionStep::Begin,
            TransactionStep::Execute(0),
            TransactionStep::Check(0),
            TransactionStep::Rollback,
            TransactionStep::Finish(TransactionOutcome::Failed(TransactionFailure::CheckRejected)),
        ]
    );
}

#[test]
fn failures_roll_back_and_rollback_failure_wins() {
    assert_eq!(
        run(2, 0, &[TransactionEvent::Began, TransactionEvent::Executed, TransactionEvent::ExecuteFailed, TransactionEvent::RollbackFailed]),
        vec![
            TransactionStep::Begin,
            TransactionStep::Execute(0),
            TransactionStep::Execute(1),
            TransactionStep::Rollback,
            TransactionStep::Finish(TransactionOutcome::RollbackFailed),
        ]
    );
    assert_eq!(
        run(0, 0, &[TransactionEvent::Began, TransactionEvent::CommitFailed, TransactionEvent::RolledBack]),
        vec![
            TransactionStep::Begin,
            TransactionStep::Commit,
            TransactionStep::Rollback,
            TransactionStep::Finish(TransactionOutcome::Failed(TransactionFailure::Commit)),
        ]
    );
    assert_eq!(
        run(3, 2, &[TransactionEvent::BeginFailed, TransactionEvent::Began]),
        vec![
            TransactionStep::Begin,
            TransactionStep::Finish(TransactionOutcome::BeginFailed),
            TransactionStep::Finish(TransactionOutcome::BeginFailed),
        ]
    );
}

#[test]
fn callback_mutation_is_rejected_before_session_execution() {
    assert!(callback_admits::<()>(OperationKind::Select).is_ok());
    assert!(matches!(
        callback_admits::<()>(OperationKind::Delete),
        Err(CallbackError::MutationForbidden)
    ));
    assert_eq!(admit_read(OperationKind::Update), Err(AdapterError::TransactionRequired));
    assert_eq!(admit_read(OperationKind::Select), Ok(()));
}

#[test]
fn candidate_checks_refuse_blank_sql_and_foreign_profile() {
    let turso = BackendProfileId::new("sqlite-turso-v1").unwrap_or_else(|e| unreachable!("{e:?}"));
    let other = BackendProfileId::new("other").unwrap_or_else(|e| unreachable!("{e:?}"));
    assert_eq!(check_candidate("SELECT 1", &other, &turso), Err(VerificationError::ProfileMismatch));
    assert_eq!(check_candidate("  ", &turso, &turso), Err(VerificationError::EmptyProtectedSql));
    assert_eq!(check_candidate("SELECT 1", &turso, &turso), Ok(()));
}
