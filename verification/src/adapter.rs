//! The Turso adapter's handles and refusals: a read executor, a factory of
//! owned transactions, and the idempotency records that guard retries.
use vstd::prelude::*;
use crate::emit::SqliteProfile;
use crate::execution::VerifiedExecutionPlan;
use crate::identity::{LogicalValue, OperationKind};
use crate::contract::{comparer, NumericOrder};
use crate::results::{
    made_public, plan_columns, read_fault, sealed_output, validate_result, validate_sealed_result,
    ExecuteResult,
};

verus! {

/// Reads through a Turso transport.
#[derive(Debug)]
pub struct TursoExecutor<Transport> {
    transport: Transport,
}

impl<Transport> TursoExecutor<Transport> {
    pub closed spec fn transport_spec(&self) -> Transport {
        self.transport
    }

    pub fn new(transport: Transport) -> (r: Self)
        ensures
            r.transport_spec() == transport,
    {
        TursoExecutor { transport }
    }

    pub fn transport(&self) -> (r: &Transport)
        ensures
            *r == self.transport_spec(),
    {
        &self.transport
    }
}

/// The read executor runs SELECT plans only; a mutation needs an owned
/// transaction.
pub fn admit_read(operation: OperationKind) -> (r: Result<(), AdapterError>)
    ensures
        r is Ok <==> operation == OperationKind::Select,
        r is Err ==> r == Err::<(), AdapterError>(AdapterError::TransactionRequired),
{
    match operation {
        OperationKind::Select => Ok(()),
        _ => Err(AdapterError::TransactionRequired),
    }
}

/// Opens owned Turso transactions.
#[derive(Debug)]
pub struct TursoTransactionFactory<Transport> {
    transport: Transport,
}

impl<Transport> TursoTransactionFactory<Transport> {
    pub closed spec fn transport_spec(&self) -> Transport {
        self.transport
    }

    pub fn new(transport: Transport) -> (r: Self)
        ensures
            r.transport_spec() == transport,
    {
        TursoTransactionFactory { transport }
    }

    pub fn transport(&self) -> (r: &Transport)
        ensures
            *r == self.transport_spec(),
    {
        &self.transport
    }
}

/// One owned Turso transaction.
#[derive(Debug)]
pub struct TursoTransactionSession<Transaction> {
    transaction: Transaction,
}

impl<Transaction> TursoTransactionSession<Transaction> {
    pub closed spec fn transaction_spec(&self) -> Transaction {
        self.transaction
    }

    pub fn new(transaction: Transaction) -> (r: Self)
        ensures
            r.transaction_spec() == transaction,
    {
        TursoTransactionSession { transaction }
    }

    pub fn transaction(&mut self) -> (r: &mut Transaction)
        ensures
            *r == old(self).transaction_spec(),
            final(self).transaction_spec() == *final(r),
    {
        &mut self.transaction
    }
}


/// The transport of Turso reads. It takes sealed plans, never SQL text.
pub trait TursoTransport {
    /// Runs a plan sealed by the SQLite profile verifier.
    fn execute(&self, plan: &VerifiedExecutionPlan<SqliteProfile>) -> Result<ExecuteResult, AdapterError>;
}

impl<Transport: TursoTransport> TursoExecutor<Transport> {
    /// Runs a sealed read and hands back its public result, checked against
    /// the plan; `numbers` compares numbers with constraint bounds. A
    /// mutation is refused before the transport sees it.
    pub fn execute<F: Fn(&LogicalValue, &String) -> Option<NumericOrder>>(
        &self,
        plan: &VerifiedExecutionPlan<SqliteProfile>,
        numbers: &F,
    ) -> (r: Result<ExecuteResult, AdapterError>)
        requires
            comparer(*numbers),
        ensures
            plan.candidate_spec().operation_spec() != OperationKind::Select ==> r == Err::<
                ExecuteResult,
                AdapterError,
            >(AdapterError::TransactionRequired),
            r matches Ok(out) ==> exists|raw: ExecuteResult|
                read_fault(*numbers, raw, *plan) is None && #[trigger] made_public(out, raw, plan_columns(*plan)),
    {
        match admit_read(plan.operation()) {
            Ok(()) => {},
            Err(e) => return Err(e),
        }
        let mut result = match self.transport.execute(plan) {
            Ok(result) => result,
            Err(e) => return Err(e),
        };
        let ghost raw = result;
        match validate_result(plan, &mut result, numbers) {
            Ok(()) => {},
            Err(e) => return Err(e),
        }
        let out: Result<ExecuteResult, AdapterError> = Ok(result);
        proof {
            assert(made_public(out->Ok_0, raw, plan_columns(*plan)));
        }
        out
    }
}

/// A transaction that the backend owns. It never takes SQL text.
pub trait TursoTransaction {
    /// Runs a sealed statement in this transaction.
    fn execute(&mut self, plan: &VerifiedExecutionPlan<SqliteProfile>) -> Result<ExecuteResult, AdapterError>;

    /// Commits this transaction.
    fn commit(&mut self) -> Result<(), AdapterError>;

    /// Rolls this transaction back.
    fn rollback(&mut self) -> Result<(), AdapterError>;
}

/// Opens transactions that the library owns.
pub trait TursoTransactionTransport {
    type Transaction: TursoTransaction;

    /// Begins one transaction.
    fn begin(&self) -> Result<Self::Transaction, AdapterError>;
}

impl<Transport: TursoTransactionTransport> TursoTransactionFactory<Transport> {
    /// Opens one owned transaction.
    pub fn begin(&self) -> (r: Result<TursoTransactionSession<Transport::Transaction>, AdapterError>) {
        match self.transport.begin() {
            Ok(transaction) => Ok(TursoTransactionSession::new(transaction)),
            Err(e) => Err(e),
        }
    }
}

impl<Transaction: TursoTransaction> TursoTransactionSession<Transaction> {
    /// Runs one sealed plan in the transaction and hands back its public
    /// result, checked against the plan as a read's or a mutation's.
    pub fn execute<F: Fn(&LogicalValue, &String) -> Option<NumericOrder>>(
        &mut self,
        plan: &VerifiedExecutionPlan<SqliteProfile>,
        numbers: &F,
    ) -> (r: Result<ExecuteResult, AdapterError>)
        requires
            comparer(*numbers),
        ensures
            r matches Ok(out) ==> exists|raw: ExecuteResult| #[trigger] sealed_output(*numbers, raw, *plan, out),
    {
        let mut result = match self.transaction.execute(plan) {
            Ok(result) => result,
            Err(e) => return Err(e),
        };
        let ghost raw = result;
        match validate_sealed_result(plan, &mut result, numbers) {
            Ok(()) => {},
            Err(e) => return Err(e),
        }
        let out: Result<ExecuteResult, AdapterError> = Ok(result);
        proof {
            assert(sealed_output(*numbers, raw, *plan, out->Ok_0));
        }
        out
    }

    /// Commits the transaction.
    pub fn commit(&mut self) -> (r: Result<(), AdapterError>) {
        self.transaction.commit()
    }

    /// Rolls the transaction back.
    pub fn rollback(&mut self) -> (r: Result<(), AdapterError>) {
        self.transaction.rollback()
    }
}

/// Storage boundary for retry records. Implementations bind records to the
/// canonical authenticated context, endpoint, and payload digest.
pub trait IdempotencyStore {
    type Error;

    /// Atomically claims a canonical key or reports the previously
    /// committed digest.
    fn claim(&self, key: &str, context_digest: &[u8]) -> Result<ClaimResult, Self::Error>;
}

/// What claiming an idempotency key found.
#[derive(Clone, Copy, Debug, PartialEq, Eq, Structural)]
pub enum ClaimResult {
    Claimed,
    ExistingMatch,
    ExistingConflict,
}

/// A normalized adapter failure.
#[derive(Clone, Debug, PartialEq, Eq)]
pub enum AdapterError {
    NotConfigured,
    Timeout,
    LimitExceeded,
    ExpectationFailed,
    InvalidResult,
    Conflict,
    TransactionRequired,
    Rejected(String),
    Remote,
}

} // verus!
