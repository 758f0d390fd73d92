use policysql::adapter::{
    AdapterError, TursoExecutor, TursoTransaction, TursoTransactionFactory, TursoTransactionSession,
    TursoTransactionTransport, TursoTransport,
};
use policysql::catalog::{Catalog, ResourceDescriptor};
use policysql::describe::result_descriptors;
use policysql::emit::SqliteProfile;
use policysql::execution::{
    CallbackError, CandidateExecutionPlan, CheckDecision, ExecutionLimits, PlanVerifier, TransactionError,
    VerificationError, VerifiedExecutionPlan,
};
use policysql::identity::{
    BackendProfileId, ColumnId, ColumnName, ConstraintScalar, LogicalType, LogicalValue, OperationKind,
    ResourceId, ResourceName, ResultName, SnapshotId, ValueConstraints, ValueDescriptor,
    ValueRepresentation,
};
use policysql::ir::{
    BoundAssignment, BoundColumn, BoundExpr, BoundInsert, BoundProjection, BoundSelect, BoundStatement,
    ColumnUsage,
};
use policysql::results::{
    ExecuteResult, physical_result_columns, validate_mutation_result, validate_value,
    value_size,
};
use policysql::contract::NumericOrder;
use policysql::text_map::TextMap;
use policysql::transaction::{
    execute_checked_transaction, CommitCheck, ReadOnlyCallback, TransactionFactory, TransactionSession,
};
use std::cell::RefCell;
use std::rc::Rc;

/// How `value` stands to the double that `text` spells.
fn numeric_order(value: &LogicalValue, text: &String) -> Option<NumericOrder> {
    let bound = text.parse::<f64>().ok()?;
    let number = match value {
        LogicalValue::Int64(v) => *v as f64,
        LogicalValue::Number(bits) => f64::from_bits(*bits),
        _ => return None,
    };
    Some(match number.partial_cmp(&bound) {
        Some(std::cmp::Ordering::Less) => NumericOrder::Below,
        Some(std::cmp::Ordering::Equal) => NumericOrder::Equal,
        Some(std::cmp::Ordering::Greater) => NumericOrder::Above,
        None => NumericOrder::Unordered,
    })
}

struct Verifier {
    profile_id: BackendProfileId,
}

impl PlanVerifier<SqliteProfile> for Verifier {
    fn verify(&self, candidate: &CandidateExecutionPlan<SqliteProfile>) -> Result<(), VerificationError> {
        if candidate.protected_sql().contains(';') {
            return Err(VerificationError::InvariantViolation("test verifier rejects semicolons".to_owned()));
        }
        Ok(())
    }

    fn profile_id(&self) -> &BackendProfileId {
        &self.profile_id
    }
}

fn profile_id(value: &str) -> BackendProfileId {
    BackendProfileId::new(value).unwrap_or_else(|e| unreachable!("test profile is valid: {e:?}"))
}

fn plan_verifier() -> Verifier {
    Verifier { profile_id: profile_id("sqlite-turso-v1") }
}

fn limits() -> ExecutionLimits {
    ExecutionLimits { max_rows: 2, max_result_bytes: 32, timeout_ms: 1_000 }
}

fn text_descriptor(nullable: bool) -> ValueDescriptor {
    ValueDescriptor {
        logical_type: LogicalType::String,
        representation: ValueRepresentation::String,
        nullable,
        format: None,
        storage: None,
        constraints: None,
        json_schema: None,
    }
}

fn catalog(column: &str, nullable: bool, snapshot: &str) -> Catalog {
    let resource = ResourceDescriptor::new(
        ResourceId::new(1).unwrap_or_else(|e| unreachable!("{e:?}")),
        ResourceName::new("projects").unwrap_or_else(|e| unreachable!("{e:?}")),
        vec![(ColumnName::new(column).unwrap_or_else(|e| unreachable!("{e:?}")), text_descriptor(nullable))],
    )
    .unwrap_or_else(|e| unreachable!("{e:?}"));
    Catalog::new(SnapshotId::new(snapshot).unwrap_or_else(|e| unreachable!("{e:?}")), vec![resource])
        .unwrap_or_else(|e| unreachable!("{e:?}"))
}

fn column(usage: ColumnUsage) -> BoundColumn {
    BoundColumn {
        id: ColumnId::new(ResourceId::new(1).unwrap_or_else(|e| unreachable!("{e:?}")), 0),
        logical_type: LogicalType::String,
        usage,
    }
}

fn select(expression: BoundExpr, name: &str) -> BoundStatement {
    BoundStatement::Select(Box::new(BoundSelect {
        resource: ResourceId::new(1).unwrap_or_else(|e| unreachable!("{e:?}")),
        alias: None,
        joins: Vec::new(),
        projections: vec![BoundProjection {
            expression,
            output_name: ResultName::new(name).unwrap_or_else(|e| unreachable!("{e:?}")),
        }],
        predicate: None,
        group_by: Vec::new(),
        having: None,
        order_by: Vec::new(),
        limit: Some(BoundExpr::Literal(LogicalValue::Int64(2))),
        offset: None,
    }))
}

fn sealed(candidate: CandidateExecutionPlan<SqliteProfile>) -> VerifiedExecutionPlan<SqliteProfile> {
    VerifiedExecutionPlan::verify(candidate, &plan_verifier()).unwrap_or_else(|e| unreachable!("valid plan: {e:?}"))
}

fn candidate(sql: &str, operation: OperationKind, snapshot: &str) -> CandidateExecutionPlan<SqliteProfile> {
    CandidateExecutionPlan::new(
        sql.to_owned(),
        operation,
        limits(),
        SnapshotId::new(snapshot).unwrap_or_else(|e| unreachable!("{e:?}")),
        profile_id("sqlite-turso-v1"),
    )
}

fn plan() -> VerifiedExecutionPlan<SqliteProfile> {
    let statement = select(BoundExpr::Column(column(ColumnUsage::Projection)), "id");
    let result = result_descriptors(&statement, &catalog("id", false, "turso_1"), &TextMap::new())
        .unwrap_or_else(|e| unreachable!("{e:?}"));
    sealed(
        candidate("SELECT \"id\" FROM \"projects\" LIMIT 2", OperationKind::Select, "turso_1")
            .with_bindings(TextMap::new(), TextMap::new(), result)
            .with_expected_result_rows(1),
    )
}

fn conditional_plan() -> VerifiedExecutionPlan<SqliteProfile> {
    let statement = select(
        BoundExpr::ConditionalOutput {
            value: Box::new(BoundExpr::Column(column(ColumnUsage::Projection))),
            visible_if: Box::new(BoundExpr::Literal(LogicalValue::Boolean(true))),
        },
        "private_note",
    );
    let result = result_descriptors(&statement, &catalog("private_note", true, "turso_conditional_1"), &TextMap::new())
        .unwrap_or_else(|e| unreachable!("{e:?}"));
    sealed(
        candidate(
            "SELECT CASE WHEN TRUE THEN \"private_note\" END AS \"private_note\", TRUE AS \"__policysql_visibility_0\" FROM \"projects\"",
            OperationKind::Select,
            "turso_conditional_1",
        )
        .with_bindings(TextMap::new(), TextMap::new(), result),
    )
}

fn mutation_plan() -> VerifiedExecutionPlan<SqliteProfile> {
    let statement = BoundStatement::Insert(BoundInsert {
        resource: ResourceId::new(1).unwrap_or_else(|e| unreachable!("{e:?}")),
        rows: vec![vec![BoundAssignment {
            column: column(ColumnUsage::Write),
            value: BoundExpr::Literal(LogicalValue::String("project_1".to_owned())),
        }]],
        returning: vec![BoundProjection {
            expression: BoundExpr::Column(column(ColumnUsage::Returning)),
            output_name: ResultName::new("id").unwrap_or_else(|e| unreachable!("{e:?}")),
        }],
    });
    let result = result_descriptors(&statement, &catalog("id", false, "turso_mutation_1"), &TextMap::new())
        .unwrap_or_else(|e| unreachable!("{e:?}"));
    sealed(
        candidate(
            "INSERT INTO \"projects\" (\"id\") VALUES ('project_1') RETURNING \"id\", TRUE AS \"__policysql_check\"",
            OperationKind::Insert,
            "turso_mutation_1",
        )
        .with_bindings(TextMap::new(), TextMap::new(), result)
        .with_mutation_invariants(1, ResultName::new("__policysql_check").unwrap_or_else(|e| unreachable!("{e:?}")))
        .with_expected_result_rows(1),
    )
}

struct FakeTransport(ExecuteResult);

impl TursoTransport for FakeTransport {
    fn execute(&self, _plan: &VerifiedExecutionPlan<SqliteProfile>) -> Result<ExecuteResult, AdapterError> {
        Ok(self.0.clone())
    }
}

fn reply(columns: &[&str], rows: Vec<Vec<LogicalValue>>, affected_rows: u64) -> ExecuteResult {
    ExecuteResult {
        columns: columns.iter().map(|c| (*c).to_owned()).collect(),
        rows,
        redactions: Vec::new(),
        affected_rows,
    }
}

fn text(value: &str) -> LogicalValue {
    LogicalValue::String(value.to_owned())
}

#[test]
fn profile_mismatch_fails_closed() {
    let result = VerifiedExecutionPlan::verify(
        CandidateExecutionPlan::<SqliteProfile>::new(
            "SELECT id FROM projects".to_owned(),
            OperationKind::Select,
            ExecutionLimits { max_rows: 100, max_result_bytes: 10_000, timeout_ms: 1_000 },
            SnapshotId::new("snapshot_1").unwrap_or_else(|e| unreachable!("{e:?}")),
            profile_id("other"),
        ),
        &plan_verifier(),
    );
    assert_eq!(result, Err(VerificationError::ProfileMismatch));
}

#[test]
fn verifier_failure_does_not_create_plan() {
    let candidate = CandidateExecutionPlan::<SqliteProfile>::new(
        "SELECT id FROM projects;".to_owned(),
        OperationKind::Select,
        ExecutionLimits { max_rows: 100, max_result_bytes: 10_000, timeout_ms: 1_000 },
        SnapshotId::new("snapshot_1").unwrap_or_else(|e| unreachable!("{e:?}")),
        profile_id("sqlite-turso-v1"),
    );
    let result = VerifiedExecutionPlan::verify(candidate, &plan_verifier());
    assert!(matches!(result, Err(VerificationError::InvariantViolation(_))));
}

#[test]
fn blank_protected_sql_is_never_sealed() {
    let result = VerifiedExecutionPlan::verify(candidate("   ", OperationKind::Select, "snapshot_1"), &plan_verifier());
    assert_eq!(result, Err(VerificationError::EmptyProtectedSql));
}

#[test]
fn sealed_plan_keeps_what_the_candidate_declared() {
    let sealed = plan();
    assert_eq!(sealed.operation(), OperationKind::Select);
    assert_eq!(sealed.limits(), limits());
    assert_eq!(sealed.expected_result_rows(), Some(1));
    assert_eq!(sealed.expected_affected_rows(), None);
    assert!(sealed.operation_check_column().is_none());
    assert_eq!(sealed.snapshot().as_str(), "turso_1");
    assert_eq!(sealed.result().len(), 1);
    let mutation = mutation_plan();
    assert_eq!(mutation.expected_affected_rows(), Some(1));
    assert_eq!(mutation.operation_check_column().map(ResultName::as_str), Some("__policysql_check"));
}

#[test]
fn validates_driver_result_against_verified_descriptor() {
    let verified = plan();
    let valid = TursoExecutor::new(FakeTransport(reply(&["id"], vec![vec![text("project_1")]], 0)));
    assert!(valid.execute(&verified, &numeric_order).is_ok());

    let invalid = TursoExecutor::new(FakeTransport(reply(&["id"], vec![vec![LogicalValue::Int64(1)]], 0)));
    assert_eq!(invalid.execute(&verified, &numeric_order), Err(AdapterError::InvalidResult));
}

#[test]
fn visibility_companion_distinguishes_visible_database_null_from_redaction() {
    let verified = conditional_plan();
    assert!(verified.protected_sql().contains("__policysql_visibility_0"));
    let physical = physical_result_columns(&verified);
    assert_eq!(physical, vec!["private_note".to_owned(), "__policysql_visibility_0".to_owned()]);

    let visible_null = TursoExecutor::new(FakeTransport(reply(
        &["private_note", "__policysql_visibility_0"],
        vec![vec![LogicalValue::Null, LogicalValue::Boolean(true)]],
        0,
    )))
    .execute(&verified, &numeric_order)
    .unwrap_or_else(|e| unreachable!("visible database NULL is valid: {e:?}"));
    assert_eq!(visible_null.columns, vec!["private_note"]);
    assert_eq!(visible_null.rows, vec![vec![LogicalValue::Null]]);
    assert_eq!(visible_null.redactions, vec![vec![false]]);

    let hidden_null = TursoExecutor::new(FakeTransport(reply(
        &["private_note", "__policysql_visibility_0"],
        vec![vec![LogicalValue::Null, LogicalValue::Boolean(false)]],
        0,
    )))
    .execute(&verified, &numeric_order)
    .unwrap_or_else(|e| unreachable!("hidden NULL is valid: {e:?}"));
    assert_eq!(hidden_null.redactions, vec![vec![true]]);

    let spoofed = TursoExecutor::new(FakeTransport(reply(&["private_note"], vec![vec![LogicalValue::Null]], 0)));
    assert_eq!(spoofed.execute(&verified, &numeric_order), Err(AdapterError::InvalidResult));
}

#[test]
fn hidden_value_must_be_null() {
    let verified = conditional_plan();
    let leaked = TursoExecutor::new(FakeTransport(reply(
        &["private_note", "__policysql_visibility_0"],
        vec![vec![text("secret"), LogicalValue::Boolean(false)]],
        0,
    )));
    assert_eq!(leaked.execute(&verified, &numeric_order), Err(AdapterError::InvalidResult));
}

#[test]
fn enforces_result_limits_after_transport() {
    let verified = plan();
    let executor = TursoExecutor::new(FakeTransport(reply(
        &["id"],
        vec![vec![text("one")], vec![text("two")], vec![text("three")]],
        0,
    )));
    assert_eq!(executor.execute(&verified, &numeric_order), Err(AdapterError::LimitExceeded));
}

#[test]
fn result_bytes_and_expected_rows_are_enforced() {
    let verified = plan();
    let long = "x".repeat(33);
    let too_large = TursoExecutor::new(FakeTransport(reply(&["id"], vec![vec![text(&long)]], 0)));
    assert_eq!(too_large.execute(&verified, &numeric_order), Err(AdapterError::LimitExceeded));
    let empty = TursoExecutor::new(FakeTransport(reply(&["id"], Vec::new(), 0)));
    assert_eq!(empty.execute(&verified, &numeric_order), Err(AdapterError::ExpectationFailed));
    let affected = TursoExecutor::new(FakeTransport(reply(&["id"], vec![vec![text("p")]], 1)));
    assert_eq!(affected.execute(&verified, &numeric_order), Err(AdapterError::InvalidResult));
}

#[test]
fn read_executor_refuses_mutations() {
    let executor = TursoExecutor::new(FakeTransport(reply(&["id"], Vec::new(), 0)));
    assert_eq!(executor.execute(&mutation_plan(), &numeric_order), Err(AdapterError::TransactionRequired));
}

#[test]
fn value_sizes_count_utf8_bytes() {
    assert_eq!(value_size(&LogicalValue::Null), 0);
    assert_eq!(value_size(&text("é")), 2);
    assert_eq!(value_size(&LogicalValue::Boolean(true)), 1);
    assert_eq!(value_size(&LogicalValue::Int64(7)), 8);
    assert_eq!(value_size(&LogicalValue::Number(1.5f64.to_bits())), 8);
    assert_eq!(value_size(&LogicalValue::Bytes(vec![1, 2, 3])), 3);
}

#[test]
fn runtime_enforces_format_and_constraints() {
    let descriptor = ValueDescriptor {
        logical_type: LogicalType::String,
        representation: ValueRepresentation::String,
        nullable: false,
        format: Some("uuid".to_owned()),
        storage: None,
        constraints: Some(ValueConstraints {
            allowed: vec![ConstraintScalar::String("123e4567-e89b-12d3-a456-426614174000".to_owned())],
            minimum: None,
            maximum: None,
            min_length: Some(36),
            max_length: Some(36),
            pattern: Some("^[0-9a-f-]+$".to_owned()),
        }),
        json_schema: None,
    };
    assert_eq!(
        validate_value(
            &LogicalValue::String("123e4567-e89b-12d3-a456-426614174000".to_owned()),
            &descriptor,
            &[LogicalType::String],
            &numeric_order,
        ),
        Ok(())
    );
    assert_eq!(
        validate_value(
            &LogicalValue::String("123e4567-e89b-12d3-a456-426614174001".to_owned()),
            &descriptor,
            &[LogicalType::String],
            &numeric_order,
        ),
        Err(AdapterError::InvalidResult)
    );
}

#[test]
fn numeric_bounds_and_types_are_enforced() {
    let descriptor = ValueDescriptor {
        logical_type: LogicalType::Integer,
        representation: ValueRepresentation::Number,
        nullable: false,
        format: None,
        storage: None,
        constraints: Some(ValueConstraints {
            allowed: Vec::new(),
            minimum: Some("1".to_owned()),
            maximum: Some("10".to_owned()),
            min_length: None,
            max_length: None,
            pattern: None,
        }),
        json_schema: None,
    };
    let types = [LogicalType::Integer];
    assert_eq!(validate_value(&LogicalValue::Int64(5), &descriptor, &types, &numeric_order), Ok(()));
    assert_eq!(validate_value(&LogicalValue::Int64(0), &descriptor, &types, &numeric_order), Err(AdapterError::InvalidResult));
    assert_eq!(validate_value(&LogicalValue::Int64(11), &descriptor, &types, &numeric_order), Err(AdapterError::InvalidResult));
    assert_eq!(validate_value(&LogicalValue::Null, &descriptor, &types, &numeric_order), Err(AdapterError::InvalidResult));
    assert_eq!(validate_value(&text("5"), &descriptor, &types, &numeric_order), Err(AdapterError::InvalidResult));
    assert_eq!(
        validate_value(&LogicalValue::Int64(9_007_199_254_740_992), &descriptor, &types, &numeric_order),
        Err(AdapterError::InvalidResult)
    );
    let number = [LogicalType::Number];
    let plain = ValueDescriptor { constraints: None, logical_type: LogicalType::Number, ..descriptor };
    assert_eq!(validate_value(&LogicalValue::Number(2.5f64.to_bits()), &plain, &number, &numeric_order), Ok(()));
    assert_eq!(
        validate_value(&LogicalValue::Number(f64::INFINITY.to_bits()), &plain, &number, &numeric_order),
        Err(AdapterError::InvalidResult)
    );
}

#[derive(Default)]
struct TransactionState {
    committed: bool,
    rolled_back: bool,
}

#[derive(Clone)]
struct FakeTransactionTransport {
    state: Rc<RefCell<TransactionState>>,
    result: ExecuteResult,
    fail_commit: bool,
}

struct FakeTransaction {
    state: Rc<RefCell<TransactionState>>,
    result: ExecuteResult,
    fail_commit: bool,
}

impl TursoTransactionTransport for FakeTransactionTransport {
    type Transaction = FakeTransaction;

    fn begin(&self) -> Result<Self::Transaction, AdapterError> {
        Ok(FakeTransaction { state: self.state.clone(), result: self.result.clone(), fail_commit: self.fail_commit })
    }
}

impl TursoTransaction for FakeTransaction {
    fn execute(&mut self, _plan: &VerifiedExecutionPlan<SqliteProfile>) -> Result<ExecuteResult, AdapterError> {
        Ok(self.result.clone())
    }

    fn commit(&mut self) -> Result<(), AdapterError> {
        if self.fail_commit {
            return Err(AdapterError::Remote);
        }
        self.state.borrow_mut().committed = true;
        Ok(())
    }

    fn rollback(&mut self) -> Result<(), AdapterError> {
        self.state.borrow_mut().rolled_back = true;
        Ok(())
    }
}

/// Why a coordinated run failed, as the transaction runner reports it.
#[derive(Debug, PartialEq)]
enum RunError {
    Execute(AdapterError),
    Commit(AdapterError),
    Rollback(AdapterError),
    Begin(AdapterError),
    Check(AdapterError),
    CheckRejected,
}

struct OwnedFactory<'a>(&'a TursoTransactionFactory<FakeTransactionTransport>);

struct OwnedSession(TursoTransactionSession<FakeTransaction>);

impl TransactionSession<SqliteProfile> for OwnedSession {
    type Output = ExecuteResult;
    type Error = AdapterError;

    fn execute(&mut self, plan: &VerifiedExecutionPlan<SqliteProfile>) -> Result<ExecuteResult, AdapterError> {
        self.0.execute(plan, &numeric_order)
    }

    fn commit(&mut self) -> Result<(), AdapterError> {
        self.0.commit()
    }

    fn rollback(&mut self) -> Result<(), AdapterError> {
        self.0.rollback()
    }
}

impl TransactionFactory<SqliteProfile> for OwnedFactory<'_> {
    type Session = OwnedSession;
    type Error = AdapterError;

    fn begin(&self) -> Result<OwnedSession, AdapterError> {
        self.0.begin().map(OwnedSession)
    }
}

/// A commit check that reads back through the callback and accepts, or
/// tries a mutation through it.
struct QueryCheck(Option<VerifiedExecutionPlan<SqliteProfile>>);

impl CommitCheck<SqliteProfile, OwnedSession> for QueryCheck {
    type Error = AdapterError;

    fn validate(&self, callback: &mut ReadOnlyCallback<SqliteProfile, OwnedSession>) -> Result<CheckDecision, AdapterError> {
        match &self.0 {
            Some(plan) => match callback.query(plan) {
                Ok(_) => Ok(CheckDecision::Accept),
                Err(CallbackError::MutationForbidden) => Err(AdapterError::TransactionRequired),
                Err(CallbackError::Execution(e)) => Err(e),
            },
            None => Ok(CheckDecision::Accept),
        }
    }
}

fn run_error(e: TransactionError<AdapterError, AdapterError, AdapterError>) -> RunError {
    match e {
        TransactionError::Begin(e) => RunError::Begin(e),
        TransactionError::Execute(e) => RunError::Execute(e),
        TransactionError::Check(e) => RunError::Check(e),
        TransactionError::CheckRejected => RunError::CheckRejected,
        TransactionError::Commit(e) => RunError::Commit(e),
        TransactionError::Rollback(e) => RunError::Rollback(e),
    }
}

/// Runs one plan and one accepting commit check in an owned transaction.
fn run_checked(
    factory: &TursoTransactionFactory<FakeTransactionTransport>,
    plan: &VerifiedExecutionPlan<SqliteProfile>,
) -> Result<Vec<ExecuteResult>, RunError> {
    execute_checked_transaction(&OwnedFactory(factory), std::slice::from_ref(plan), &[QueryCheck(None)])
        .map_err(run_error)
}

#[test]
fn commit_checks_cannot_mutate_through_the_callback() {
    let state = Rc::new(RefCell::new(TransactionState::default()));
    let plans = [mutation_plan()];
    let result = execute_checked_transaction(
        &OwnedFactory(&factory(&state, mutation_result(LogicalValue::Boolean(true)), false)),
        &plans,
        &[QueryCheck(Some(mutation_plan()))],
    )
    .map_err(run_error);
    assert_eq!(result.err(), Some(RunError::Check(AdapterError::TransactionRequired)));
    assert!(state.borrow().rolled_back);
    assert!(!state.borrow().committed);
}

fn mutation_result(check: LogicalValue) -> ExecuteResult {
    ExecuteResult {
        columns: vec!["id".to_owned(), "__policysql_check".to_owned()],
        rows: vec![vec![text("project_1"), check]],
        redactions: Vec::new(),
        affected_rows: 1,
    }
}

fn factory(state: &Rc<RefCell<TransactionState>>, result: ExecuteResult, fail_commit: bool) -> TursoTransactionFactory<FakeTransactionTransport> {
    TursoTransactionFactory::new(FakeTransactionTransport { state: state.clone(), result, fail_commit })
}

#[test]
fn mutation_check_is_stripped_before_commit_and_false_rolls_back() {
    let state = Rc::new(RefCell::new(TransactionState::default()));
    let outputs = run_checked(&factory(&state, mutation_result(LogicalValue::Boolean(true)), false), &mutation_plan())
        .unwrap_or_else(|e| unreachable!("valid transaction: {e:?}"));
    assert_eq!(outputs[0].columns, vec!["id"]);
    assert_eq!(outputs[0].rows[0].len(), 1);
    assert!(state.borrow().committed);

    let state = Rc::new(RefCell::new(TransactionState::default()));
    let result = run_checked(&factory(&state, mutation_result(LogicalValue::Boolean(false)), false), &mutation_plan());
    assert!(matches!(result, Err(RunError::Execute(AdapterError::Rejected(_)))));
    assert!(state.borrow().rolled_back);
}

#[test]
fn affected_row_and_commit_failures_roll_back() {
    let state = Rc::new(RefCell::new(TransactionState::default()));
    let mut invalid = mutation_result(LogicalValue::Boolean(true));
    invalid.affected_rows = 2;
    let result = run_checked(&factory(&state, invalid, false), &mutation_plan());
    assert!(matches!(result, Err(RunError::Execute(AdapterError::ExpectationFailed))));
    assert!(state.borrow().rolled_back);

    let state = Rc::new(RefCell::new(TransactionState::default()));
    let result = run_checked(&factory(&state, mutation_result(LogicalValue::Boolean(true)), true), &mutation_plan());
    assert!(matches!(result, Err(RunError::Commit(AdapterError::Remote))));
    assert!(state.borrow().rolled_back);
}

#[test]
fn mutation_result_keeps_its_affected_count_and_drops_the_check() {
    let verified = mutation_plan();
    let mut result = mutation_result(LogicalValue::Boolean(true));
    assert_eq!(validate_mutation_result(&verified, &mut result, &numeric_order), Ok(()));
    assert_eq!(result.columns, vec!["id"]);
    assert_eq!(result.rows, vec![vec![text("project_1")]]);
    assert_eq!(result.redactions, vec![vec![false]]);
    assert_eq!(result.affected_rows, 1);

    let mut missing_check = reply(&["id"], vec![vec![text("project_1")]], 1);
    assert_eq!(validate_mutation_result(&verified, &mut missing_check, &numeric_order), Err(AdapterError::InvalidResult));
}
