//! The gateway's admission decisions: which endpoint a caller may use, when
//! an envelope of statements is accepted, how refusals are reported, and how
//! caller expectations meet compiled ones.
use vstd::prelude::*;
use crate::bundle::PolicyBundle;
use crate::catalog::Catalog;
use crate::compile::{
    CompileOutput, delete_compiled, delete_refusal, insert_compiled, insert_refusal,
    update_compiled, update_refusal,
};
use crate::emit::CompileError;
use crate::execution::ExecutionLimits;
use crate::identity::{OperationKind, SnapshotId, TrustedSession};
use crate::ir::{BoundStatement, ProtectedPlan};
use crate::parser::BindError;
use crate::policy::PolicyError;
use crate::select::{read_compiled, read_refusal};

verus! {

/// Verifies one external credential and gives the trusted session it
/// stands for; a refusal covers invalid, ambiguous, expired and
/// unauthorized credentials.
pub trait JwtVerifier {
    type Error;

    fn verify(&self, credential: &str) -> Result<AuthContext, Self::Error>;
}


#[derive(Clone, Copy, Debug, PartialEq, Eq, Structural, PartialOrd, Ord)]
pub enum EndpointPermission {
    Execute,
    Explain,
    Catalog,
}

/// An authenticated caller: its trusted session and the endpoints it may use.
#[derive(Debug, PartialEq, Eq)]
pub struct AuthContext {
    session: TrustedSession,
    execute: bool,
    explain: bool,
    catalog: bool,
}

impl AuthContext {
    pub closed spec fn session_spec(&self) -> TrustedSession {
        self.session
    }

    /// Whether the caller may use endpoint `p`.
    pub closed spec fn permits(&self, p: EndpointPermission) -> bool {
        match p {
            EndpointPermission::Execute => self.execute,
            EndpointPermission::Explain => self.explain,
            EndpointPermission::Catalog => self.catalog,
        }
    }

    /// A caller with `session` that may use exactly the listed endpoints.
    pub fn new(session: TrustedSession, permissions: &[EndpointPermission]) -> (r: Self)
        ensures
            r.session_spec() == session,
            forall|p: EndpointPermission| #[trigger] r.permits(p) == permissions@.contains(p),
    {
        let mut execute = false;
        let mut explain = false;
        let mut catalog = false;
        let mut i: usize = 0;
        while i < permissions.len()
            invariant
                i <= permissions@.len(),
                execute == permissions@.take(i as int).contains(EndpointPermission::Execute),
                explain == permissions@.take(i as int).contains(EndpointPermission::Explain),
                catalog == permissions@.take(i as int).contains(EndpointPermission::Catalog),
            decreases permissions.len() - i,
        {
            let p = permissions[i];
            proof {
                assert(permissions@.take(i + 1) =~= permissions@.take(i as int).push(p));
                vstd::seq_lib::lemma_seq_contains_after_push(permissions@.take(i as int), p, EndpointPermission::Execute);
                vstd::seq_lib::lemma_seq_contains_after_push(permissions@.take(i as int), p, EndpointPermission::Explain);
                vstd::seq_lib::lemma_seq_contains_after_push(permissions@.take(i as int), p, EndpointPermission::Catalog);
            }
            match p {
                EndpointPermission::Execute => execute = true,
                EndpointPermission::Explain => explain = true,
                EndpointPermission::Catalog => catalog = true,
            }
            i = i + 1;
        }
        assert(permissions@.take(i as int) =~= permissions@);
        AuthContext { session, execute, explain, catalog }
    }

    pub fn session(&self) -> (r: &TrustedSession)
        ensures
            *r == self.session_spec(),
    {
        &self.session
    }

    /// Whether the caller may use endpoint `p`.
    pub fn permitted(&self, p: EndpointPermission) -> (r: bool)
        ensures
            r == self.permits(p),
    {
        match p {
            EndpointPermission::Execute => self.execute,
            EndpointPermission::Explain => self.explain,
            EndpointPermission::Catalog => self.catalog,
        }
    }
}

/// The public reason a statement was refused.
#[derive(Clone, Copy, Debug, PartialEq, Eq, Structural)]
pub enum RejectionKind {
    InvalidRequest,
    InvalidSql,
    MultipleStatements,
    UnsupportedSql,
    MissingPolicy,
    ForbiddenOperation,
    ForbiddenColumn,
    ForbiddenColumnContext,
    DuplicateResultColumn,
    InvalidParameter,
    AmbiguousParameterType,
    ReservedParameter,
    PresetColumn,
    LimitExceeded,
    ExpectationFailed,
}

/// Why a whole envelope was refused.
#[derive(Clone, Copy, Debug, PartialEq, Eq, Structural)]
pub enum GatewayError {
    AccessDenied,
    SnapshotMismatch,
    EnvelopeLimit,
    Rejected { kind: RejectionKind, index: usize },
    ExecutionFailed,
    TransactionRequired,
}

/// The public reason for a binding refusal.
pub open spec fn bind_rejection(error: BindError) -> RejectionKind {
    match error {
        BindError::Empty | BindError::InvalidSql => RejectionKind::InvalidSql,
        BindError::MultipleStatements => RejectionKind::MultipleStatements,
        BindError::UnknownColumn | BindError::AmbiguousColumn | BindError::ImplicitRowId => {
            RejectionKind::ForbiddenColumn
        },
        BindError::DuplicateResultName | BindError::InvalidResultName => {
            RejectionKind::DuplicateResultColumn
        },
        BindError::ReservedParameterNamespace => RejectionKind::ReservedParameter,
        BindError::UnprovableParameterType => RejectionKind::AmbiguousParameterType,
        BindError::InvalidParameterName
        | BindError::PositionalParameter
        | BindError::UnsupportedParameterPrefix
        | BindError::IncompatibleTypes
        | BindError::NullComparison
        | BindError::InvalidLiteral => RejectionKind::InvalidParameter,
        BindError::ProjectionLimit
        | BindError::JoinLimit
        | BindError::ParameterLimit
        | BindError::ExpressionDepth
        | BindError::InvalidLimit => RejectionKind::LimitExceeded,
        BindError::UnknownResource => RejectionKind::ForbiddenOperation,
        BindError::Unsupported(_)
        | BindError::MissingFrom
        | BindError::DuplicateAlias
        | BindError::DuplicateWriteColumn
        | BindError::InsertArity => RejectionKind::UnsupportedSql,
    }
}

pub fn classify_bind_error(error: &BindError) -> (r: RejectionKind)
    ensures
        r == bind_rejection(*error),
{
    match error {
        BindError::Empty | BindError::InvalidSql => RejectionKind::InvalidSql,
        BindError::MultipleStatements => RejectionKind::MultipleStatements,
        BindError::UnknownColumn | BindError::AmbiguousColumn | BindError::ImplicitRowId => {
            RejectionKind::ForbiddenColumn
        },
        BindError::DuplicateResultName | BindError::InvalidResultName => {
            RejectionKind::DuplicateResultColumn
        },
        BindError::ReservedParameterNamespace => RejectionKind::ReservedParameter,
        BindError::UnprovableParameterType => RejectionKind::AmbiguousParameterType,
        BindError::InvalidParameterName
        | BindError::PositionalParameter
        | BindError::UnsupportedParameterPrefix
        | BindError::IncompatibleTypes
        | BindError::NullComparison
        | BindError::InvalidLiteral => RejectionKind::InvalidParameter,
        BindError::ProjectionLimit
        | BindError::JoinLimit
        | BindError::ParameterLimit
        | BindError::ExpressionDepth
        | BindError::InvalidLimit => RejectionKind::LimitExceeded,
        BindError::UnknownResource => RejectionKind::ForbiddenOperation,
        BindError::Unsupported(_)
        | BindError::MissingFrom
        | BindError::DuplicateAlias
        | BindError::DuplicateWriteColumn
        | BindError::InsertArity => RejectionKind::UnsupportedSql,
    }
}

/// The public reason for a policy refusal.
pub open spec fn policy_rejection_kind(error: PolicyError) -> RejectionKind {
    match error {
        PolicyError::MissingPolicy => RejectionKind::MissingPolicy,
        PolicyError::ForbiddenColumn | PolicyError::UnknownColumn => RejectionKind::ForbiddenColumn,
        PolicyError::ForbiddenColumnContext => RejectionKind::ForbiddenColumnContext,
        PolicyError::PresetColumnOverlap => RejectionKind::PresetColumn,
        PolicyError::TooManyPolicies => RejectionKind::LimitExceeded,
        _ => RejectionKind::ForbiddenOperation,
    }
}

pub fn policy_rejection(error: &PolicyError) -> (r: RejectionKind)
    ensures
        r == policy_rejection_kind(*error),
{
    match error {
        PolicyError::MissingPolicy => RejectionKind::MissingPolicy,
        PolicyError::ForbiddenColumn | PolicyError::UnknownColumn => RejectionKind::ForbiddenColumn,
        PolicyError::ForbiddenColumnContext => RejectionKind::ForbiddenColumnContext,
        PolicyError::PresetColumnOverlap => RejectionKind::PresetColumn,
        PolicyError::TooManyPolicies => RejectionKind::LimitExceeded,
        PolicyError::UnsupportedCapability
        | PolicyError::InvalidBundle
        | PolicyError::InvalidRole
        | PolicyError::UnknownResource
        | PolicyError::UnknownOperator
        | PolicyError::InvalidPredicate
        | PolicyError::IncompatibleOperand
        | PolicyError::NullComparison
        | PolicyError::UnsupportedRedaction
        | PolicyError::DuplicateColumnPermission
        | PolicyError::DuplicatePolicy
        | PolicyError::MissingSessionValue
        | PolicyError::InvalidSessionKey
        | PolicyError::InvariantViolation(_) => RejectionKind::ForbiddenOperation,
    }
}

/// The public reason for a compile refusal.
pub open spec fn compile_rejection_kind(error: CompileError) -> RejectionKind {
    match error {
        CompileError::ClientParameterMismatch | CompileError::ClientParameterTypeMismatch => {
            RejectionKind::InvalidParameter
        },
        CompileError::Emit(_) | CompileError::Verification(_) => RejectionKind::UnsupportedSql,
    }
}

pub fn compile_rejection(error: &CompileError) -> (r: RejectionKind)
    ensures
        r == compile_rejection_kind(*error),
{
    match error {
        CompileError::ClientParameterMismatch | CompileError::ClientParameterTypeMismatch => {
            RejectionKind::InvalidParameter
        },
        CompileError::Emit(_) | CompileError::Verification(_) => RejectionKind::UnsupportedSql,
    }
}

/// Whether an envelope may be compiled at all: the caller holds the
/// endpoint, a snapshot precondition names the served snapshot, and the
/// envelope holds between one and `max_statements` statements.
pub open spec fn envelope_error(
    auth: AuthContext,
    permission: EndpointPermission,
    precondition: Option<SnapshotId>,
    snapshot: SnapshotId,
    count: nat,
    max_statements: nat,
) -> Option<GatewayError> {
    if !auth.permits(permission) {
        Some(GatewayError::AccessDenied)
    } else if precondition matches Some(p) && p@ != snapshot@ {
        Some(GatewayError::SnapshotMismatch)
    } else if count == 0 || count > max_statements {
        Some(GatewayError::EnvelopeLimit)
    } else {
        None
    }
}

/// Checks an envelope before anything in it is compiled.
pub fn admit_envelope(
    auth: &AuthContext,
    permission: EndpointPermission,
    precondition: Option<&SnapshotId>,
    snapshot: &SnapshotId,
    count: usize,
    max_statements: usize,
) -> (r: Result<(), GatewayError>)
    ensures
        match r {
            Ok(()) => envelope_error(
                *auth,
                permission,
                match precondition {
                    Some(p) => Some(*p),
                    None => None,
                },
                *snapshot,
                count as nat,
                max_statements as nat,
            ) is None,
            Err(e) => envelope_error(
                *auth,
                permission,
                match precondition {
                    Some(p) => Some(*p),
                    None => None,
                },
                *snapshot,
                count as nat,
                max_statements as nat,
            ) == Some(e),
        },
{
    if !auth.permitted(permission) {
        return Err(GatewayError::AccessDenied);
    }
    match precondition {
        Some(p) => {
            if !crate::text::text_eq(p.as_str(), snapshot.as_str()) {
                return Err(GatewayError::SnapshotMismatch);
            }
        },
        None => {},
    }
    if count == 0 || count > max_statements {
        return Err(GatewayError::EnvelopeLimit);
    }
    Ok(())
}

/// The expectations that a compiled statement at position `index` carries
/// after the caller's are applied.
pub open spec fn expectations(
    operation: OperationKind,
    requested_affected: Option<u64>,
    compiled_affected: Option<u64>,
    requested_rows: Option<u64>,
    compiled_rows: Option<u64>,
    index: usize,
) -> Result<(Option<u64>, Option<u64>), GatewayError> {
    let rows = match requested_rows {
        Some(n) => Some(n),
        None => compiled_rows,
    };
    match (operation, requested_affected, compiled_affected) {
        (OperationKind::Select, Some(_), _) => Err(
            GatewayError::Rejected { kind: RejectionKind::InvalidRequest, index },
        ),
        (_, Some(requested), Some(compiled)) if requested != compiled => Err(
            GatewayError::Rejected { kind: RejectionKind::ExpectationFailed, index },
        ),
        (_, None, _) => Ok((compiled_affected, rows)),
        (_, Some(requested), _) => Ok((Some(requested), rows)),
    }
}

/// Applies the caller's expected affected and result row counts to those a
/// compiled statement carries: a read may not expect affected rows, a
/// mutation's expectation must agree with a compiled one, and a caller's
/// expected row count takes precedence.
pub fn reconcile_expectations(
    operation: OperationKind,
    requested_affected: Option<u64>,
    compiled_affected: Option<u64>,
    requested_rows: Option<u64>,
    compiled_rows: Option<u64>,
    index: usize,
) -> (r: Result<(Option<u64>, Option<u64>), GatewayError>)
    ensures
        r == expectations(
            operation,
            requested_affected,
            compiled_affected,
            requested_rows,
            compiled_rows,
            index,
        ),
{
    let rows = match requested_rows {
        Some(n) => Some(n),
        None => compiled_rows,
    };
    match (operation, requested_affected, compiled_affected) {
        (OperationKind::Select, Some(_), _) => Err(
            GatewayError::Rejected { kind: RejectionKind::InvalidRequest, index },
        ),
        (_, Some(requested), Some(compiled)) if requested != compiled => Err(
            GatewayError::Rejected { kind: RejectionKind::ExpectationFailed, index },
        ),
        (_, None, _) => Ok((compiled_affected, rows)),
        (_, Some(requested), _) => Ok((Some(requested), rows)),
    }
}

/// Plans that a read executor may run: every one of them is a SELECT.
pub fn require_reads_only(operations: &[OperationKind]) -> (r: Result<(), GatewayError>)
    ensures
        r is Ok <==> forall|i: int|
            0 <= i < operations@.len() ==> #[trigger] operations@[i] == OperationKind::Select,
        r is Err ==> r == Err::<(), GatewayError>(GatewayError::TransactionRequired),
{
    let mut i: usize = 0;
    while i < operations.len()
        invariant
            i <= operations@.len(),
            forall|j: int| 0 <= j < i ==> #[trigger] operations@[j] == OperationKind::Select,
        decreases operations.len() - i,
    {
        if operations[i] != OperationKind::Select {
            return Err(GatewayError::TransactionRequired);
        }
        i = i + 1;
    }
    Ok(())
}

/// Why statement `st` cannot be compiled for `session`.
pub open spec fn statement_refusal(b: PolicyBundle, st: BoundStatement, session: TrustedSession) -> Option<
    PolicyError,
> {
    match st {
        BoundStatement::Insert(_) => insert_refusal(b, st, session),
        BoundStatement::Update(_) => update_refusal(b, st, session),
        BoundStatement::Delete(_) => delete_refusal(b, st, session),
        _ => read_refusal(b, st, session),
    }
}

/// `out` is statement `st` compiled for `session` by the compiler of its kind.
pub open spec fn statement_compiled(out: CompileOutput, b: PolicyBundle, st: BoundStatement, session: TrustedSession) -> bool {
    match st {
        BoundStatement::Insert(_) => insert_compiled(out, b, st, session),
        BoundStatement::Update(_) => update_compiled(out, b, st, session),
        BoundStatement::Delete(_) => delete_compiled(out, b, st, session),
        _ => read_compiled(out, b, st, session),
    }
}

/// What a compiled statement of `st`'s kind reports: its operation, the
/// rows it must affect and the rows it must return.
pub open spec fn compiled_counts(st: BoundStatement) -> (OperationKind, Option<u64>, Option<u64>) {
    match st {
        BoundStatement::Insert(i) => (OperationKind::Insert, Some(i.rows@.len() as u64), None),
        BoundStatement::Update(_) => (OperationKind::Update, None, None),
        BoundStatement::Delete(_) => (OperationKind::Delete, None, None),
        BoundStatement::JsonCollectionSelect(_) => (OperationKind::Select, None, Some(1u64)),
        _ => (OperationKind::Select, None, None),
    }
}

/// `o` with the expected counts `affected` and `rows`.
pub open spec fn with_counts(o: CompileOutput, affected: Option<u64>, rows: Option<u64>) -> CompileOutput {
    CompileOutput {
        plan: ProtectedPlan {
            statement: o.plan.statement,
            applied_policies: o.plan.applied_policies,
            server_values: o.plan.server_values,
            policy_limit: o.plan.policy_limit,
            operation_check: o.plan.operation_check,
            expected_affected_rows: affected,
            expected_result_rows: rows,
        },
        explain: o.explain,
    }
}

/// Why the statement `st` at position `index` of an envelope is refused,
/// with the caller's expected counts `affected` and `rows`, if it is.
pub open spec fn item_error(
    b: PolicyBundle,
    st: BoundStatement,
    session: TrustedSession,
    affected: Option<u64>,
    rows: Option<u64>,
    index: usize,
) -> Option<GatewayError> {
    match statement_refusal(b, st, session) {
        Some(e) => Some(GatewayError::Rejected { kind: policy_rejection_kind(e), index }),
        None => {
            let c = compiled_counts(st);
            match expectations(c.0, affected, c.1, rows, c.2, index) {
                Err(g) => Some(g),
                Ok(_) => None,
            }
        },
    }
}

/// `o` is the statement `st` compiled for `session`, carrying the counts
/// that the caller's expectations leave it with.
pub open spec fn item_compiled(
    o: CompileOutput,
    b: PolicyBundle,
    st: BoundStatement,
    session: TrustedSession,
    affected: Option<u64>,
    rows: Option<u64>,
    index: usize,
) -> bool {
    let c = compiled_counts(st);
    match expectations(c.0, affected, c.1, rows, c.2, index) {
        Ok(t) => o.plan.expected_affected_rows == t.0 && o.plan.expected_result_rows == t.1
            && statement_compiled(with_counts(o, c.1, c.2), b, st, session),
        Err(_) => false,
    }
}

/// Applies the session's policies to one bound statement of an envelope,
/// at position `index`, and then the caller's expected counts.
pub fn compile_item(
    policies: &PolicyBundle,
    statement: BoundStatement,
    session: &TrustedSession,
    requested_affected: Option<u64>,
    requested_rows: Option<u64>,
    index: usize,
) -> (r: Result<CompileOutput, GatewayError>)
    ensures
        match item_error(*policies, statement, *session, requested_affected, requested_rows, index) {
            Some(e) => r == Err::<CompileOutput, GatewayError>(e),
            None => r matches Ok(o) && item_compiled(
                o,
                *policies,
                statement,
                *session,
                requested_affected,
                requested_rows,
                index,
            ),
        },
{
    let ghost st = statement;
    let compiled = match statement {
        BoundStatement::Insert(_) => policies.compile_insert(statement, session),
        BoundStatement::Update(_) => policies.compile_update(statement, session),
        BoundStatement::Delete(_) => policies.compile_delete(statement, session),
        _ => policies.compile_select(statement, session),
    };
    let mut output = match compiled {
        Ok(o) => o,
        Err(e) => return Err(GatewayError::Rejected { kind: policy_rejection(&e), index }),
    };
    let ghost before = output;
    proof {
        assert(output.explain.operation == compiled_counts(st).0);
        assert(output.plan.expected_affected_rows == compiled_counts(st).1);
        assert(output.plan.expected_result_rows == compiled_counts(st).2);
    }
    let (affected, rows) = match reconcile_expectations(
        output.explain.operation,
        requested_affected,
        output.plan.expected_affected_rows,
        requested_rows,
        output.plan.expected_result_rows,
        index,
    ) {
        Ok(t) => t,
        Err(g) => return Err(g),
    };
    output.plan.expected_affected_rows = affected;
    output.plan.expected_result_rows = rows;
    proof {
        assert(with_counts(output, compiled_counts(st).1, compiled_counts(st).2) == before);
    }
    Ok(output)
}


/// One statement of an envelope, bound against the gateway's catalog, with
/// the counts that the caller expects of it.
#[derive(Debug)]
pub struct BoundRequest {
    pub statement: BoundStatement,
    pub expected_affected_rows: Option<u64>,
    pub expected_row_count: Option<u64>,
}

/// Why the request `q` at position `index` of an envelope is refused, if
/// it is.
pub open spec fn request_error(
    b: PolicyBundle,
    q: BoundRequest,
    session: TrustedSession,
    index: int,
) -> Option<GatewayError> {
    item_error(b, q.statement, session, q.expected_affected_rows, q.expected_row_count, index as usize)
}

/// The refusal of the first request at or after position `from` that is
/// refused, if any is.
pub open spec fn first_request_error(
    b: PolicyBundle,
    requests: Seq<BoundRequest>,
    session: TrustedSession,
    from: int,
) -> Option<GatewayError>
    decreases requests.len() - from,
{
    if from < 0 || from >= requests.len() {
        None
    } else {
        match request_error(b, requests[from], session, from) {
            Some(e) => Some(e),
            None => first_request_error(b, requests, session, from + 1),
        }
    }
}

/// What an envelope is refused with: its admission error, or else the
/// refusal of its first refused request.
pub open spec fn envelope_refusal(
    g: Gateway,
    auth: AuthContext,
    permission: EndpointPermission,
    precondition: Option<SnapshotId>,
    requests: Seq<BoundRequest>,
) -> Option<GatewayError> {
    match envelope_error(
        auth,
        permission,
        precondition,
        g.snapshot_spec(),
        requests.len(),
        g.max_statements_spec() as nat,
    ) {
        Some(e) => Some(e),
        None => first_request_error(g.policies_spec(), requests, auth.session_spec(), 0),
    }
}

proof fn lemma_first_request_error_skips(
    b: PolicyBundle,
    requests: Seq<BoundRequest>,
    session: TrustedSession,
    from: int,
    upto: int,
)
    requires
        0 <= from <= upto,
        forall|j: int| from <= j < upto ==> #[trigger] request_error(b, requests[j], session, j) is None,
        upto <= requests.len(),
    ensures
        first_request_error(b, requests, session, from) == first_request_error(b, requests, session, upto),
    decreases upto - from,
{
    if from < upto {
        lemma_first_request_error_skips(b, requests, session, from + 1, upto);
    }
}

/// The gateway that admits envelopes of statements against one catalog, one
/// policy bundle and one served snapshot.
#[derive(Debug)]
pub struct Gateway {
    catalog: Catalog,
    policies: PolicyBundle,
    snapshot: SnapshotId,
    limits: ExecutionLimits,
    max_statements: usize,
}

impl Gateway {
    pub closed spec fn catalog_spec(&self) -> Catalog {
        self.catalog
    }

    pub closed spec fn policies_spec(&self) -> PolicyBundle {
        self.policies
    }

    pub closed spec fn snapshot_spec(&self) -> SnapshotId {
        self.snapshot
    }

    pub closed spec fn limits_spec(&self) -> ExecutionLimits {
        self.limits
    }

    pub closed spec fn max_statements_spec(&self) -> usize {
        self.max_statements
    }

    pub fn new(
        catalog: Catalog,
        policies: PolicyBundle,
        snapshot: SnapshotId,
        limits: ExecutionLimits,
        max_statements: usize,
    ) -> (r: Self)
        ensures
            r.catalog_spec() == catalog,
            r.policies_spec() == policies,
            r.snapshot_spec() == snapshot,
            r.limits_spec() == limits,
            r.max_statements_spec() == max_statements,
    {
        Gateway { catalog, policies, snapshot, limits, max_statements }
    }

    pub fn limits(&self) -> (r: ExecutionLimits)
        ensures
            r == self.limits_spec(),
    {
        self.limits
    }

    /// The catalog that the envelope's statements are bound against.
    pub fn catalog(&self) -> (r: &Catalog)
        ensures
            *r == self.catalog_spec(),
    {
        &self.catalog
    }

    /// Compiles every request of an envelope before handing out any: the
    /// envelope is admitted first, then each statement is compiled in order,
    /// and the first refusal, with its position, refuses the whole envelope.
    pub fn compile_items(
        &self,
        auth: &AuthContext,
        permission: EndpointPermission,
        precondition: Option<&SnapshotId>,
        requests: Vec<BoundRequest>,
    ) -> (r: Result<Vec<CompileOutput>, GatewayError>)
        ensures
            ({
                let refusal = envelope_refusal(
                    *self,
                    *auth,
                    permission,
                    match precondition {
                        Some(p) => Some(*p),
                        None => None,
                    },
                    requests@,
                );
                &&& r is Ok <==> refusal is None
                &&& r matches Err(e) ==> refusal == Some(e)
                &&& r matches Ok(v) ==> v@.len() == requests@.len() && forall|i: int|
                    0 <= i < v@.len() ==> #[trigger] item_compiled(
                        v@[i],
                        self.policies_spec(),
                        requests@[i].statement,
                        auth.session_spec(),
                        requests@[i].expected_affected_rows,
                        requests@[i].expected_row_count,
                        i as usize,
                    )
            }),
    {
        let ghost pre = match precondition {
            Some(p) => Some(*p),
            None => None,
        };
        let ghost all = requests@;
        let ghost session = auth.session_spec();
        match admit_envelope(
            auth,
            permission,
            precondition,
            &self.snapshot,
            requests.len(),
            self.max_statements,
        ) {
            Ok(()) => {},
            Err(e) => return Err(e),
        }
        let count = requests.len();
        let mut rest = requests;
        let mut compiled: Vec<CompileOutput> = Vec::new();
        let mut i: usize = 0;
        while i < count
            invariant
                count == all.len(),
                all == requests@,
                i <= count,
                pre == match precondition {
                    Some(p) => Some(*p),
                    None => None,
                },
                envelope_refusal(*self, *auth, permission, pre, all) == first_request_error(
                    self.policies,
                    all,
                    session,
                    0,
                ),
                rest@ == all.subrange(i as int, count as int),
                compiled@.len() == i,
                session == auth.session_spec(),
                forall|j: int| 0 <= j < i ==> #[trigger] request_error(self.policies, all[j], session, j) is None,
                forall|j: int|
                    0 <= j < i ==> #[trigger] item_compiled(
                        compiled@[j],
                        self.policies,
                        all[j].statement,
                        session,
                        all[j].expected_affected_rows,
                        all[j].expected_row_count,
                        j as usize,
                    ),
            decreases count - i,
        {
            let item = rest.remove(0);
            proof {
                assert(item == all[i as int]);
            }
            let BoundRequest { statement, expected_affected_rows, expected_row_count } = item;
            match compile_item(
                &self.policies,
                statement,
                auth.session(),
                expected_affected_rows,
                expected_row_count,
                i,
            ) {
                Ok(o) => compiled.push(o),
                Err(e) => {
                    proof {
                        lemma_first_request_error_skips(self.policies, all, session, 0, i as int);
                        assert(request_error(self.policies, all[i as int], session, i as int) == Some(e));
                        assert(first_request_error(self.policies, all, session, i as int) == Some(e));
                    }
                    return Err(e);
                },
            }
            i = i + 1;
        }
        proof {
            lemma_first_request_error_skips(self.policies, all, session, 0, count as int);
        }
        Ok(compiled)
    }
}

} // verus!
