//! What a sealed execution plan carries besides its SQL, and the refusals
//! met between verification and commit.
use vstd::prelude::*;
use crate::identity::{
    BackendProfileId, LogicalType, LogicalValue, OperationKind, ResultName, SnapshotId, ValueDescriptor,
};
use crate::text_map::TextMap;
use std::marker::PhantomData;
use crate::identity::non_blank;

verus! {

/// Bounds that every execution of a plan must respect.
#[derive(Clone, Copy, Debug, PartialEq, Eq, Structural)]
pub struct ExecutionLimits {
    pub max_rows: u64,
    pub max_result_bytes: u64,
    pub timeout_ms: u64,
}

/// One public result column.
#[derive(Debug, PartialEq, Eq)]
pub struct ResultColumnDescriptor {
    pub name: ResultName,
    pub value: ValueDescriptor,
    /// Finite compiler-proven output types. Scalar descriptors contain one
    /// entry; JSON traversal may contain a stable union.
    pub possible_types: Vec<LogicalType>,
    pub redacted_on_null: bool,
    /// Compiler-owned boolean companion column in the physical database
    /// result, removed before the public result is encoded.
    pub visibility_column: Option<ResultName>,
}

/// What a commit check decides about the uncommitted state.
#[derive(Clone, Copy, Debug, PartialEq, Eq, Structural)]
pub enum CheckDecision {
    Accept,
    Reject,
}

/// A refused read-only callback query.
#[derive(Debug)]
pub enum CallbackError<Error> {
    MutationForbidden,
    Execution(Error),
}

/// Why a coordinated transaction produced no results.
#[derive(Debug)]
pub enum TransactionError<BeginError, SessionError, CheckError> {
    Begin(BeginError),
    Execute(SessionError),
    Check(CheckError),
    CheckRejected,
    Commit(SessionError),
    Rollback(SessionError),
}

/// Why a candidate plan could not be sealed.
#[derive(Clone, Debug, PartialEq, Eq)]
pub enum VerificationError {
    EmptyProtectedSql,
    ProfileMismatch,
    InvariantViolation(String),
}


/// A plan is sealed only when its protected SQL is not blank and it was
/// built for the verifier's profile; then the profile verifier runs.
pub open spec fn seal_error(
    protected_sql: Seq<char>,
    candidate_profile: Seq<char>,
    verifier_profile: Seq<char>,
) -> Option<VerificationError> {
    if !non_blank(protected_sql) {
        Some(VerificationError::EmptyProtectedSql)
    } else if candidate_profile != verifier_profile {
        Some(VerificationError::ProfileMismatch)
    } else {
        None
    }
}

/// The checks made on a candidate before its profile verifier runs.
pub fn check_candidate(
    protected_sql: &str,
    candidate_profile: &BackendProfileId,
    verifier_profile: &BackendProfileId,
) -> (r: Result<(), VerificationError>)
    ensures
        match seal_error(protected_sql@, candidate_profile@, verifier_profile@) {
            None => r is Ok,
            Some(e) => r == Err::<(), VerificationError>(e),
        },
{
    if !crate::identity::non_empty(protected_sql) {
        return Err(VerificationError::EmptyProtectedSql);
    }
    if !crate::text::text_eq(candidate_profile.as_str(), verifier_profile.as_str()) {
        return Err(VerificationError::ProfileMismatch);
    }
    Ok(())
}

/// A read-only callback lets a SELECT through and refuses every mutation
/// before it reaches the transaction.
pub fn callback_admits<Error>(operation: OperationKind) -> (r: Result<(), CallbackError<Error>>)
    ensures
        r is Ok <==> operation == OperationKind::Select,
        r is Err ==> r matches Err(CallbackError::MutationForbidden),
{
    match operation {
        OperationKind::Select => Ok(()),
        _ => Err(CallbackError::MutationForbidden),
    }
}

/// Why a transaction is being rolled back.
#[derive(Clone, Copy, Debug, PartialEq, Eq, Structural)]
pub enum TransactionFailure {
    Execute,
    Check,
    CheckRejected,
    Commit,
}

/// How a coordinated transaction ended.
#[derive(Clone, Copy, Debug, PartialEq, Eq, Structural)]
pub enum TransactionOutcome {
    Committed,
    BeginFailed,
    /// Rolled back after the failure.
    Failed(TransactionFailure),
    /// The rollback itself failed; this replaces the failure before it.
    RollbackFailed,
}

/// The next thing the runner of a transaction must do.
#[derive(Clone, Copy, Debug, PartialEq, Eq, Structural)]
pub enum TransactionStep {
    Begin,
    /// Execute plan `i` in the transaction.
    Execute(usize),
    /// Run commit check `j` against the uncommitted state.
    Check(usize),
    Commit,
    Rollback,
    /// Stop; results are delivered only for `Committed`.
    Finish(TransactionOutcome),
}

/// What the runner reports back after a step.
#[derive(Clone, Copy, Debug, PartialEq, Eq, Structural)]
pub enum TransactionEvent {
    Began,
    BeginFailed,
    Executed,
    ExecuteFailed,
    Accepted,
    Rejected,
    CheckFailed,
    Committed,
    CommitFailed,
    RolledBack,
    RollbackFailed,
}

/// Where a coordinated transaction stands.
#[derive(Clone, Copy, Debug, PartialEq, Eq, Structural)]
pub enum TransactionPhase {
    Opening,
    /// Plan `i` was asked for; plans before it succeeded.
    Executing(usize),
    /// Check `j` was asked for; every plan and the checks before it succeeded.
    Checking(usize),
    Committing,
    RollingBack(TransactionFailure),
    Finished(TransactionOutcome),
}

/// The step that a phase asks for.
pub open spec fn phase_step(phase: TransactionPhase) -> TransactionStep {
    match phase {
        TransactionPhase::Opening => TransactionStep::Begin,
        TransactionPhase::Executing(i) => TransactionStep::Execute(i),
        TransactionPhase::Checking(j) => TransactionStep::Check(j),
        TransactionPhase::Committing => TransactionStep::Commit,
        TransactionPhase::RollingBack(_) => TransactionStep::Rollback,
        TransactionPhase::Finished(o) => TransactionStep::Finish(o),
    }
}

/// The phase that follows once plans from `i` on and then every check are
/// still to run.
pub open spec fn after_plans(plans: usize, checks: usize, i: int) -> TransactionPhase {
    if i < plans {
        TransactionPhase::Executing(i as usize)
    } else if checks > 0 {
        TransactionPhase::Checking(0)
    } else {
        TransactionPhase::Committing
    }
}

/// The phase that follows `phase` on `event`, for a transaction of `plans`
/// plans and `checks` commit checks. An event that does not answer the
/// phase's step leaves the phase as it is.
pub open spec fn next_phase(
    plans: usize,
    checks: usize,
    phase: TransactionPhase,
    event: TransactionEvent,
) -> TransactionPhase {
    match (phase, event) {
        (TransactionPhase::Opening, TransactionEvent::Began) => after_plans(plans, checks, 0),
        (TransactionPhase::Opening, TransactionEvent::BeginFailed) => TransactionPhase::Finished(
            TransactionOutcome::BeginFailed,
        ),
        (TransactionPhase::Executing(i), TransactionEvent::Executed) => after_plans(
            plans,
            checks,
            i + 1,
        ),
        (TransactionPhase::Executing(_), TransactionEvent::ExecuteFailed) => {
            TransactionPhase::RollingBack(TransactionFailure::Execute)
        },
        (TransactionPhase::Checking(j), TransactionEvent::Accepted) => if j + 1 < checks {
            TransactionPhase::Checking((j + 1) as usize)
        } else {
            TransactionPhase::Committing
        },
        (TransactionPhase::Checking(_), TransactionEvent::Rejected) => TransactionPhase::RollingBack(
            TransactionFailure::CheckRejected,
        ),
        (TransactionPhase::Checking(_), TransactionEvent::CheckFailed) => TransactionPhase::RollingBack(
            TransactionFailure::Check,
        ),
        (TransactionPhase::Committing, TransactionEvent::Committed) => TransactionPhase::Finished(
            TransactionOutcome::Committed,
        ),
        (TransactionPhase::Committing, TransactionEvent::CommitFailed) => TransactionPhase::RollingBack(
            TransactionFailure::Commit,
        ),
        (TransactionPhase::RollingBack(f), TransactionEvent::RolledBack) => TransactionPhase::Finished(
            TransactionOutcome::Failed(f),
        ),
        (TransactionPhase::RollingBack(_), TransactionEvent::RollbackFailed) => {
            TransactionPhase::Finished(TransactionOutcome::RollbackFailed)
        },
        _ => phase,
    }
}

/// The phase fits the transaction: a plan or check it names exists.
pub open spec fn phase_fits(plans: usize, checks: usize, phase: TransactionPhase) -> bool {
    match phase {
        TransactionPhase::Executing(i) => i < plans,
        TransactionPhase::Checking(j) => j < checks,
        _ => true,
    }
}

/// Drives one transaction over its plans and commit checks: plans run in
/// order, then checks in order, then the commit; any failure rolls back,
/// and a failed rollback replaces the failure before it.
#[derive(Clone, Copy, Debug, PartialEq, Eq)]
pub struct TransactionCoordinator {
    plans: usize,
    checks: usize,
    phase: TransactionPhase,
}

impl TransactionCoordinator {
    pub closed spec fn plans_spec(&self) -> usize {
        self.plans
    }

    pub closed spec fn checks_spec(&self) -> usize {
        self.checks
    }

    pub closed spec fn phase_spec(&self) -> TransactionPhase {
        self.phase
    }

    #[verifier::type_invariant]
    closed spec fn fits(self) -> bool {
        phase_fits(self.plans, self.checks, self.phase)
    }

    /// A coordinator for `plans` plans and `checks` checks, asking first to
    /// begin the transaction.
    pub fn new(plans: usize, checks: usize) -> (r: (Self, TransactionStep))
        ensures
            r.0.plans_spec() == plans,
            r.0.checks_spec() == checks,
            r.0.phase_spec() == TransactionPhase::Opening,
            r.1 == TransactionStep::Begin,
    {
        (TransactionCoordinator { plans, checks, phase: TransactionPhase::Opening }, TransactionStep::Begin)
    }

    pub fn phase(&self) -> (r: TransactionPhase)
        ensures
            r == self.phase_spec(),
            phase_fits(self.plans_spec(), self.checks_spec(), r),
    {
        proof {
            use_type_invariant(self);
        }
        self.phase
    }

    /// Takes the runner's report on the last step and gives the next step.
    pub fn advance(&mut self, event: TransactionEvent) -> (r: TransactionStep)
        ensures
            final(self).plans_spec() == old(self).plans_spec(),
            final(self).checks_spec() == old(self).checks_spec(),
            final(self).phase_spec() == next_phase(
                old(self).plans_spec(),
                old(self).checks_spec(),
                old(self).phase_spec(),
                event,
            ),
            r == phase_step(final(self).phase_spec()),
    {
        proof {
            use_type_invariant(&*self);
        }
        let plans = self.plans;
        let checks = self.checks;
        let next = match (self.phase, event) {
            (TransactionPhase::Opening, TransactionEvent::Began) => {
                if 0 < plans {
                    TransactionPhase::Executing(0)
                } else if checks > 0 {
                    TransactionPhase::Checking(0)
                } else {
                    TransactionPhase::Committing
                }
            },
            (TransactionPhase::Opening, TransactionEvent::BeginFailed) => TransactionPhase::Finished(
                TransactionOutcome::BeginFailed,
            ),
            (TransactionPhase::Executing(i), TransactionEvent::Executed) => {
                if i + 1 < plans {
                    TransactionPhase::Executing(i + 1)
                } else if checks > 0 {
                    TransactionPhase::Checking(0)
                } else {
                    TransactionPhase::Committing
                }
            },
            (TransactionPhase::Executing(_), TransactionEvent::ExecuteFailed) => {
                TransactionPhase::RollingBack(TransactionFailure::Execute)
            },
            (TransactionPhase::Checking(j), TransactionEvent::Accepted) => {
                if j + 1 < checks {
                    TransactionPhase::Checking(j + 1)
                } else {
                    TransactionPhase::Committing
                }
            },
            (TransactionPhase::Checking(_), TransactionEvent::Rejected) => {
                TransactionPhase::RollingBack(TransactionFailure::CheckRejected)
            },
            (TransactionPhase::Checking(_), TransactionEvent::CheckFailed) => {
                TransactionPhase::RollingBack(TransactionFailure::Check)
            },
            (TransactionPhase::Committing, TransactionEvent::Committed) => TransactionPhase::Finished(
                TransactionOutcome::Committed,
            ),
            (TransactionPhase::Committing, TransactionEvent::CommitFailed) => {
                TransactionPhase::RollingBack(TransactionFailure::Commit)
            },
            (TransactionPhase::RollingBack(f), TransactionEvent::RolledBack) => {
                TransactionPhase::Finished(TransactionOutcome::Failed(f))
            },
            (TransactionPhase::RollingBack(_), TransactionEvent::RollbackFailed) => {
                TransactionPhase::Finished(TransactionOutcome::RollbackFailed)
            },
            (phase, _) => phase,
        };
        self.phase = next;
        match next {
            TransactionPhase::Opening => TransactionStep::Begin,
            TransactionPhase::Executing(i) => TransactionStep::Execute(i),
            TransactionPhase::Checking(j) => TransactionStep::Check(j),
            TransactionPhase::Committing => TransactionStep::Commit,
            TransactionPhase::RollingBack(_) => TransactionStep::Rollback,
            TransactionPhase::Finished(o) => TransactionStep::Finish(o),
        }
    }
}

/// Every transition keeps the phase fitted to the transaction.
pub proof fn law_phase_stays_fitted(
    plans: usize,
    checks: usize,
    phase: TransactionPhase,
    event: TransactionEvent,
)
    requires
        phase_fits(plans, checks, phase),
    ensures
        phase_fits(plans, checks, next_phase(plans, checks, phase, event)),
{
}

/// A failure reported while the transaction is open always leads to a
/// rollback.
pub proof fn law_failure_rolls_back(
    plans: usize,
    checks: usize,
    phase: TransactionPhase,
    event: TransactionEvent,
)
    requires
        (phase is Executing && event == TransactionEvent::ExecuteFailed) || (phase is Checking && (
        event == TransactionEvent::Rejected || event == TransactionEvent::CheckFailed)) || (phase
            == TransactionPhase::Committing && event == TransactionEvent::CommitFailed),
    ensures
        phase_step(next_phase(plans, checks, phase, event)) == TransactionStep::Rollback,
{
}

/// The commit is asked for only when the last plan or the last check has
/// just succeeded, or when there was nothing to run.
pub proof fn law_commit_follows_every_success(
    plans: usize,
    checks: usize,
    phase: TransactionPhase,
    event: TransactionEvent,
)
    requires
        phase_fits(plans, checks, phase),
        phase != TransactionPhase::Committing,
        next_phase(plans, checks, phase, event) == TransactionPhase::Committing,
    ensures
        (phase == TransactionPhase::Opening && event == TransactionEvent::Began && plans == 0
            && checks == 0) || (phase == TransactionPhase::Executing((plans - 1) as usize) && event
            == TransactionEvent::Executed && checks == 0) || (phase == TransactionPhase::Checking(
            (checks - 1) as usize,
        ) && event == TransactionEvent::Accepted),
{
}

/// A transaction counts as committed only when its commit succeeded.
pub proof fn law_committed_only_on_commit(
    plans: usize,
    checks: usize,
    phase: TransactionPhase,
    event: TransactionEvent,
)
    requires
        phase != TransactionPhase::Finished(TransactionOutcome::Committed),
        next_phase(plans, checks, phase, event) == TransactionPhase::Finished(
            TransactionOutcome::Committed,
        ),
    ensures
        phase == TransactionPhase::Committing,
        event == TransactionEvent::Committed,
{
}

/// Plans run in order and checks start only after the last plan.
pub proof fn law_plans_then_checks_in_order(
    plans: usize,
    checks: usize,
    phase: TransactionPhase,
    event: TransactionEvent,
    k: usize,
)
    requires
        phase_fits(plans, checks, phase),
    ensures
        next_phase(plans, checks, phase, event) == TransactionPhase::Executing(k) && phase
            != TransactionPhase::Executing(k) ==> (k == 0 && phase == TransactionPhase::Opening) || (
        phase == TransactionPhase::Executing((k - 1) as usize) && event == TransactionEvent::Executed),
        next_phase(plans, checks, phase, event) == TransactionPhase::Checking(k) && phase
            != TransactionPhase::Checking(k) ==> (k == 0 && (phase == TransactionPhase::Opening
            && plans == 0 || phase == TransactionPhase::Executing((plans - 1) as usize))) || (phase
            == TransactionPhase::Checking((k - 1) as usize) && event == TransactionEvent::Accepted),
{
}

/// A finished transaction stays finished whatever is reported.
pub proof fn law_finished_is_final(
    plans: usize,
    checks: usize,
    outcome: TransactionOutcome,
    event: TransactionEvent,
)
    ensures
        next_phase(plans, checks, TransactionPhase::Finished(outcome), event)
            == TransactionPhase::Finished(outcome),
{
}

/// A failed rollback is what the transaction reports, whatever failed
/// before it.
pub proof fn law_rollback_failure_replaces(plans: usize, checks: usize, failure: TransactionFailure)
    ensures
        next_phase(
            plans,
            checks,
            TransactionPhase::RollingBack(failure),
            TransactionEvent::RollbackFailed,
        ) == TransactionPhase::Finished(TransactionOutcome::RollbackFailed),
        next_phase(plans, checks, TransactionPhase::RollingBack(failure), TransactionEvent::RolledBack)
            == TransactionPhase::Finished(TransactionOutcome::Failed(failure)),
{
}
/// A protected statement with everything its execution needs, before its
/// profile verifier has sealed it.
#[derive(Debug, PartialEq)]
pub struct CandidateExecutionPlan<Profile> {
    protected_sql: String,
    client_parameters: TextMap<LogicalValue>,
    server_parameters: TextMap<LogicalValue>,
    result: Vec<ResultColumnDescriptor>,
    operation: OperationKind,
    limits: ExecutionLimits,
    snapshot: SnapshotId,
    profile_id: BackendProfileId,
    expected_affected_rows: Option<u64>,
    expected_result_rows: Option<u64>,
    operation_check_column: Option<ResultName>,
    marker: PhantomData<Profile>,
}

impl<Profile> CandidateExecutionPlan<Profile> {
    pub closed spec fn sql_spec(&self) -> Seq<char> {
        self.protected_sql@
    }

    pub closed spec fn client_parameters_spec(&self) -> TextMap<LogicalValue> {
        self.client_parameters
    }

    pub closed spec fn server_parameters_spec(&self) -> TextMap<LogicalValue> {
        self.server_parameters
    }

    pub closed spec fn result_spec(&self) -> Seq<ResultColumnDescriptor> {
        self.result@
    }

    pub closed spec fn operation_spec(&self) -> OperationKind {
        self.operation
    }

    pub closed spec fn limits_spec(&self) -> ExecutionLimits {
        self.limits
    }

    pub closed spec fn snapshot_spec(&self) -> Seq<char> {
        self.snapshot@
    }

    pub closed spec fn profile_spec(&self) -> Seq<char> {
        self.profile_id@
    }

    pub closed spec fn expected_affected_rows_spec(&self) -> Option<u64> {
        self.expected_affected_rows
    }

    pub closed spec fn expected_result_rows_spec(&self) -> Option<u64> {
        self.expected_result_rows
    }

    pub closed spec fn check_column_spec(&self) -> Option<Seq<char>> {
        match self.operation_check_column {
            Some(c) => Some(c@),
            None => None,
        }
    }

    /// The parts of a plan that its builders leave alone.
    pub open spec fn same_frame(&self, other: &Self) -> bool {
        &&& self.sql_spec() == other.sql_spec()
        &&& self.operation_spec() == other.operation_spec()
        &&& self.limits_spec() == other.limits_spec()
        &&& self.snapshot_spec() == other.snapshot_spec()
        &&& self.profile_spec() == other.profile_spec()
    }

    /// A plan with no parameters, no result columns and no expectations.
    pub fn new(
        protected_sql: String,
        operation: OperationKind,
        limits: ExecutionLimits,
        snapshot: SnapshotId,
        profile_id: BackendProfileId,
    ) -> (r: Self)
        ensures
            r.sql_spec() == protected_sql@,
            r.operation_spec() == operation,
            r.limits_spec() == limits,
            r.snapshot_spec() == snapshot@,
            r.profile_spec() == profile_id@,
            r.client_parameters_spec().wf(),
            r.client_parameters_spec().entries().len() == 0,
            r.server_parameters_spec().wf(),
            r.server_parameters_spec().entries().len() == 0,
            r.result_spec().len() == 0,
            r.expected_affected_rows_spec() is None,
            r.expected_result_rows_spec() is None,
            r.check_column_spec() is None,
    {
        CandidateExecutionPlan {
            protected_sql,
            client_parameters: TextMap::new(),
            server_parameters: TextMap::new(),
            result: Vec::new(),
            operation,
            limits,
            snapshot,
            profile_id,
            expected_affected_rows: None,
            expected_result_rows: None,
            operation_check_column: None,
            marker: PhantomData,
        }
    }

    pub fn protected_sql(&self) -> (r: &str)
        ensures
            r@ == self.sql_spec(),
    {
        self.protected_sql.as_str()
    }

    pub fn profile_id(&self) -> (r: &BackendProfileId)
        ensures
            r@ == self.profile_spec(),
    {
        &self.profile_id
    }

    /// Binds the parameter values and the result columns.
    pub fn with_bindings(
        self,
        client_parameters: TextMap<LogicalValue>,
        server_parameters: TextMap<LogicalValue>,
        result: Vec<ResultColumnDescriptor>,
    ) -> (r: Self)
        ensures
            r.same_frame(&self),
            r.client_parameters_spec() == client_parameters,
            r.server_parameters_spec() == server_parameters,
            r.result_spec() == result@,
            r.expected_affected_rows_spec() == self.expected_affected_rows_spec(),
            r.expected_result_rows_spec() == self.expected_result_rows_spec(),
            r.check_column_spec() == self.check_column_spec(),
    {
        let mut next = self;
        next.client_parameters = client_parameters;
        next.server_parameters = server_parameters;
        next.result = result;
        next
    }

    /// Declares how many rows a mutation must touch, and the column that
    /// carries its post-state check.
    pub fn with_mutation_invariants(self, expected_affected_rows: u64, operation_check_column: ResultName) -> (r:
        Self)
        ensures
            r.same_frame(&self),
            r.client_parameters_spec() == self.client_parameters_spec(),
            r.server_parameters_spec() == self.server_parameters_spec(),
            r.result_spec() == self.result_spec(),
            r.expected_affected_rows_spec() == Some(expected_affected_rows),
            r.expected_result_rows_spec() == self.expected_result_rows_spec(),
            r.check_column_spec() == Some(operation_check_column@),
    {
        let mut next = self;
        next.expected_affected_rows = Some(expected_affected_rows);
        next.operation_check_column = Some(operation_check_column);
        next
    }

    /// Declares the column that carries a mutation's post-state check.
    pub fn with_operation_check(self, operation_check_column: ResultName) -> (r: Self)
        ensures
            r.same_frame(&self),
            r.client_parameters_spec() == self.client_parameters_spec(),
            r.server_parameters_spec() == self.server_parameters_spec(),
            r.result_spec() == self.result_spec(),
            r.expected_affected_rows_spec() == self.expected_affected_rows_spec(),
            r.expected_result_rows_spec() == self.expected_result_rows_spec(),
            r.check_column_spec() == Some(operation_check_column@),
    {
        let mut next = self;
        next.operation_check_column = Some(operation_check_column);
        next
    }

    /// Declares how many rows a mutation must touch.
    pub fn with_expected_affected_rows(self, expected_affected_rows: u64) -> (r: Self)
        ensures
            r.same_frame(&self),
            r.client_parameters_spec() == self.client_parameters_spec(),
            r.server_parameters_spec() == self.server_parameters_spec(),
            r.result_spec() == self.result_spec(),
            r.expected_affected_rows_spec() == Some(expected_affected_rows),
            r.expected_result_rows_spec() == self.expected_result_rows_spec(),
            r.check_column_spec() == self.check_column_spec(),
    {
        let mut next = self;
        next.expected_affected_rows = Some(expected_affected_rows);
        next
    }

    /// Declares how many rows the result must hold.
    pub fn with_expected_result_rows(self, expected_result_rows: u64) -> (r: Self)
        ensures
            r.same_frame(&self),
            r.client_parameters_spec() == self.client_parameters_spec(),
            r.server_parameters_spec() == self.server_parameters_spec(),
            r.result_spec() == self.result_spec(),
            r.expected_affected_rows_spec() == self.expected_affected_rows_spec(),
            r.expected_result_rows_spec() == Some(expected_result_rows),
            r.check_column_spec() == self.check_column_spec(),
    {
        let mut next = self;
        next.expected_result_rows = Some(expected_result_rows);
        next
    }

    pub fn client_parameters(&self) -> (r: &TextMap<LogicalValue>)
        ensures
            *r == self.client_parameters_spec(),
    {
        &self.client_parameters
    }

    pub fn server_parameters(&self) -> (r: &TextMap<LogicalValue>)
        ensures
            *r == self.server_parameters_spec(),
    {
        &self.server_parameters
    }

    pub fn result(&self) -> (r: &[ResultColumnDescriptor])
        ensures
            r@ == self.result_spec(),
    {
        self.result.as_slice()
    }

    pub fn operation(&self) -> (r: OperationKind)
        ensures
            r == self.operation_spec(),
    {
        self.operation
    }

    pub fn limits(&self) -> (r: ExecutionLimits)
        ensures
            r == self.limits_spec(),
    {
        self.limits
    }

    pub fn snapshot(&self) -> (r: &SnapshotId)
        ensures
            r@ == self.snapshot_spec(),
    {
        &self.snapshot
    }

    pub fn expected_affected_rows(&self) -> (r: Option<u64>)
        ensures
            r == self.expected_affected_rows_spec(),
    {
        self.expected_affected_rows
    }

    pub fn expected_result_rows(&self) -> (r: Option<u64>)
        ensures
            r == self.expected_result_rows_spec(),
    {
        self.expected_result_rows
    }

    pub fn operation_check_column(&self) -> (r: Option<&ResultName>)
        ensures
            match r {
                Some(c) => self.check_column_spec() == Some(c@),
                None => self.check_column_spec() is None,
            },
    {
        self.operation_check_column.as_ref()
    }
}

/// A profile's verifier of candidate plans. Its implementations check the
/// dialect's syntax and every invariant that must hold after emission.
pub trait PlanVerifier<Profile> {
    /// Checks one candidate; a refusal names what failed.
    fn verify(&self, candidate: &CandidateExecutionPlan<Profile>) -> Result<(), VerificationError>;

    /// The profile this verifier seals plans for.
    fn profile_id(&self) -> &BackendProfileId;
}

/// A plan sealed by the verifier of its profile. Only `verify` makes one,
/// and nothing changes it afterwards.
#[derive(Debug, PartialEq)]
pub struct VerifiedExecutionPlan<Profile> {
    candidate: CandidateExecutionPlan<Profile>,
}

impl<Profile> VerifiedExecutionPlan<Profile> {
    pub closed spec fn candidate_spec(&self) -> CandidateExecutionPlan<Profile> {
        self.candidate
    }

    /// Seals `candidate`: its SQL must not be blank, it must be built for
    /// the profile that the verifier reports, and then the verifier must
    /// accept it. The profile comparison is `check_candidate`'s, with that
    /// reported profile.
    pub fn verify<V: PlanVerifier<Profile>>(candidate: CandidateExecutionPlan<Profile>, verifier: &V) -> (r: Result<
        Self,
        VerificationError,
    >)
        ensures
            !non_blank(candidate.sql_spec()) ==> r == Err::<Self, VerificationError>(
                VerificationError::EmptyProtectedSql,
            ),
            r matches Ok(p) ==> p.candidate_spec() == candidate && non_blank(candidate.sql_spec()),
    {
        let expected = verifier.profile_id();
        match check_candidate(candidate.protected_sql(), candidate.profile_id(), expected) {
            Ok(()) => {},
            Err(e) => return Err(e),
        }
        match verifier.verify(&candidate) {
            Ok(()) => Ok(VerifiedExecutionPlan { candidate }),
            Err(e) => Err(e),
        }
    }

    pub fn protected_sql(&self) -> (r: &str)
        ensures
            r@ == self.candidate_spec().sql_spec(),
    {
        self.candidate.protected_sql()
    }

    pub fn operation(&self) -> (r: OperationKind)
        ensures
            r == self.candidate_spec().operation_spec(),
    {
        self.candidate.operation()
    }

    pub fn limits(&self) -> (r: ExecutionLimits)
        ensures
            r == self.candidate_spec().limits_spec(),
    {
        self.candidate.limits()
    }

    pub fn snapshot(&self) -> (r: &SnapshotId)
        ensures
            r@ == self.candidate_spec().snapshot_spec(),
    {
        self.candidate.snapshot()
    }

    pub fn client_parameters(&self) -> (r: &TextMap<LogicalValue>)
        ensures
            *r == self.candidate_spec().client_parameters_spec(),
    {
        self.candidate.client_parameters()
    }

    pub fn server_parameters(&self) -> (r: &TextMap<LogicalValue>)
        ensures
            *r == self.candidate_spec().server_parameters_spec(),
    {
        self.candidate.server_parameters()
    }

    pub fn result(&self) -> (r: &[ResultColumnDescriptor])
        ensures
            r@ == self.candidate_spec().result_spec(),
    {
        self.candidate.result()
    }

    pub fn expected_affected_rows(&self) -> (r: Option<u64>)
        ensures
            r == self.candidate_spec().expected_affected_rows_spec(),
    {
        self.candidate.expected_affected_rows()
    }

    pub fn expected_result_rows(&self) -> (r: Option<u64>)
        ensures
            r == self.candidate_spec().expected_result_rows_spec(),
    {
        self.candidate.expected_result_rows()
    }

    pub fn operation_check_column(&self) -> (r: Option<&ResultName>)
        ensures
            match r {
                Some(c) => self.candidate_spec().check_column_spec() == Some(c@),
                None => self.candidate_spec().check_column_spec() is None,
            },
    {
        self.candidate.operation_check_column()
    }
}

} // verus!
