//! Running one owned transaction over sealed plans and commit checks:
//! plans in order, then checks in order against the uncommitted state, then
//! the commit; any failure rolls back once, and no result leaves a
//! transaction that did not commit.
use vstd::prelude::*;
use std::marker::PhantomData;
use crate::execution::{
    CallbackError, CheckDecision, TransactionError, TransactionEvent, TransactionFailure, TransactionOutcome,
    TransactionPhase, VerifiedExecutionPlan, callback_admits, next_phase,
};
use crate::identity::OperationKind;

verus! {

/// One owned transaction of a backend.
pub trait TransactionSession<Profile> {
    type Output;
    type Error;

    /// Executes one sealed plan inside the owned transaction.
    fn execute(&mut self, plan: &VerifiedExecutionPlan<Profile>) -> Result<Self::Output, Self::Error>;

    /// Durably commits the owned transaction.
    fn commit(&mut self) -> Result<(), Self::Error>;

    /// Rolls back the owned transaction.
    fn rollback(&mut self) -> Result<(), Self::Error>;
}

/// Opens owned transactions.
pub trait TransactionFactory<Profile> {
    type Session: TransactionSession<Profile>;
    type Error;

    /// Opens one explicitly owned transaction.
    fn begin(&self) -> Result<Self::Session, Self::Error>;
}

/// Read-only access to the uncommitted transaction for commit checks.
pub struct ReadOnlyCallback<Profile, Session> {
    session: Session,
    marker: PhantomData<Profile>,
}

impl<Profile, Session: TransactionSession<Profile>> ReadOnlyCallback<Profile, Session> {
    /// Executes a sealed SELECT against the same uncommitted transaction; a
    /// mutation is refused before it reaches the transaction.
    pub fn query(&mut self, plan: &VerifiedExecutionPlan<Profile>) -> (r: Result<
        Session::Output,
        CallbackError<Session::Error>,
    >)
        ensures
            plan.candidate_spec().operation_spec() != OperationKind::Select ==> r matches Err(
                CallbackError::MutationForbidden,
            ),
            plan.candidate_spec().operation_spec() == OperationKind::Select ==> !(r matches Err(
                CallbackError::MutationForbidden,
            )),
    {
        match callback_admits(plan.operation()) {
            Ok(()) => {},
            Err(e) => {
                return Err(e);
            },
        }
        match self.session.execute(plan) {
            Ok(out) => Ok(out),
            Err(e) => Err(CallbackError::Execution(e)),
        }
    }
}

/// A commit check: validates the uncommitted state through a read-only
/// callback.
pub trait CommitCheck<Profile, Session: TransactionSession<Profile>> {
    type Error;

    /// Accepts or rejects the uncommitted state; timeout, owner loss,
    /// malformed protocol and callback failure are errors.
    fn validate(&self, callback: &mut ReadOnlyCallback<Profile, Session>) -> Result<CheckDecision, Self::Error>;
}

/// The phase a transaction of `plans` plans and `checks` checks reaches
/// when its runner reports `events` in turn.
pub open spec fn phase_after(plans: usize, checks: usize, events: Seq<TransactionEvent>) -> TransactionPhase
    decreases events.len(),
{
    if events.len() == 0 {
        TransactionPhase::Opening
    } else {
        next_phase(plans, checks, phase_after(plans, checks, events.drop_last()), events.last())
    }
}

/// How many rollbacks `events` report, failed or not.
pub open spec fn rollbacks(events: Seq<TransactionEvent>) -> nat
    decreases events.len(),
{
    if events.len() == 0 {
        0
    } else {
        rollbacks(events.drop_last()) + if events.last() == TransactionEvent::RolledBack || events.last()
            == TransactionEvent::RollbackFailed {
            1nat
        } else {
            0nat
        }
    }
}

/// The error reports the outcome: begin, execution, check, rejection and
/// commit failures once rolled back, or the failed rollback.
pub open spec fn error_reports<B, S, C>(e: TransactionError<B, S, C>, o: TransactionOutcome) -> bool {
    match e {
        TransactionError::Begin(_) => o == TransactionOutcome::BeginFailed,
        TransactionError::Execute(_) => o == TransactionOutcome::Failed(TransactionFailure::Execute),
        TransactionError::Check(_) => o == TransactionOutcome::Failed(TransactionFailure::Check),
        TransactionError::CheckRejected => o == TransactionOutcome::Failed(TransactionFailure::CheckRejected),
        TransactionError::Commit(_) => o == TransactionOutcome::Failed(TransactionFailure::Commit),
        TransactionError::Rollback(_) => o == TransactionOutcome::RollbackFailed,
    }
}

/// `r` is how a run that reported `events` ends: the run is finished; it
/// delivers one output per plan exactly when it committed, and otherwise
/// the error of its outcome; it rolled back exactly once unless it committed
/// or never began.
pub open spec fn run_ends<O, B, S, C>(
    plans: usize,
    checks: usize,
    events: Seq<TransactionEvent>,
    r: Result<Vec<O>, TransactionError<B, S, C>>,
) -> bool {
    let end = phase_after(plans, checks, events);
    &&& end is Finished
    &&& match r {
        Ok(outs) => end == TransactionPhase::Finished(TransactionOutcome::Committed) && outs@.len() == plans,
        Err(e) => end != TransactionPhase::Finished(TransactionOutcome::Committed) && error_reports(
            e,
            end->Finished_0,
        ),
    }
    &&& rollbacks(events) == if end == TransactionPhase::Finished(TransactionOutcome::Committed) || end
        == TransactionPhase::Finished(TransactionOutcome::BeginFailed) {
        0nat
    } else {
        1nat
    }
}

proof fn lemma_push(plans: usize, checks: usize, events: Seq<TransactionEvent>, e: TransactionEvent)
    ensures
        phase_after(plans, checks, events.push(e)) == next_phase(plans, checks, phase_after(plans, checks, events), e),
        rollbacks(events.push(e)) == rollbacks(events) + if e == TransactionEvent::RolledBack || e
            == TransactionEvent::RollbackFailed {
            1nat
        } else {
            0nat
        },
{
    assert(events.push(e).drop_last() =~= events);
}

/// Rolls back after `failure`; a failed rollback replaces it.
fn roll_back<Profile, Session: TransactionSession<Profile>, B, C>(
    session: &mut Session,
    failure: TransactionError<B, Session::Error, C>,
) -> (r: (TransactionError<B, Session::Error, C>, Ghost<TransactionEvent>))
    ensures
        r.1@ == TransactionEvent::RolledBack || r.1@ == TransactionEvent::RollbackFailed,
        r.1@ == TransactionEvent::RolledBack ==> r.0 == failure,
        r.1@ == TransactionEvent::RollbackFailed ==> r.0 is Rollback,
{
    match session.rollback() {
        Ok(()) => (failure, Ghost(TransactionEvent::RolledBack)),
        Err(e) => (TransactionError::Rollback(e), Ghost(TransactionEvent::RollbackFailed)),
    }
}

/// Runs every plan and then every check in one owned transaction, and
/// commits; the outputs of the plans come back only from a committed
/// transaction. Whatever the backend and the checks answer, the calls made
/// are those the transaction coordinator asks for, and the run ends as
/// `run_ends` says of the events reported.
pub fn execute_checked_transaction<Profile, Factory, Check>(
    factory: &Factory,
    plans: &[VerifiedExecutionPlan<Profile>],
    checks: &[Check],
) -> (r: Result<
    Vec<<Factory::Session as TransactionSession<Profile>>::Output>,
    TransactionError<Factory::Error, <Factory::Session as TransactionSession<Profile>>::Error, Check::Error>,
>) where Factory: TransactionFactory<Profile>, Check: CommitCheck<Profile, Factory::Session>
    ensures
        exists|events: Seq<TransactionEvent>| #[trigger] run_ends(plans@.len() as usize, checks@.len() as usize, events, r),
{
    let np = plans.len();
    let nc = checks.len();
    assert(np == plans@.len() as usize && nc == checks@.len() as usize);
    let ghost mut events: Seq<TransactionEvent> = Seq::empty();
    let mut session = match factory.begin() {
        Ok(s) => s,
        Err(e) => {
            proof {
                lemma_push(np, nc, events, TransactionEvent::BeginFailed);
                events = events.push(TransactionEvent::BeginFailed);
            }
            let out = Err(TransactionError::Begin(e));
            assert(run_ends(plans@.len() as usize, checks@.len() as usize, events, out));
            return out;
        },
    };
    proof {
        lemma_push(np, nc, events, TransactionEvent::Began);
        events = events.push(TransactionEvent::Began);
    }
    let mut results: Vec<<Factory::Session as TransactionSession<Profile>>::Output> = Vec::new();
    let mut i: usize = 0;
    while i < np
        invariant
            np == plans@.len(),
            nc == checks@.len(),
            i <= np,
            results@.len() == i,
            phase_after(np, nc, events) == crate::execution::after_plans(np, nc, i as int),
            rollbacks(events) == 0,
        decreases np - i,
    {
        match session.execute(&plans[i]) {
            Ok(out) => {
                results.push(out);
                proof {
                    lemma_push(np, nc, events, TransactionEvent::Executed);
                    events = events.push(TransactionEvent::Executed);
                }
            },
            Err(e) => {
                proof {
                    lemma_push(np, nc, events, TransactionEvent::ExecuteFailed);
                    events = events.push(TransactionEvent::ExecuteFailed);
                }
                let (error, Ghost(last)) = roll_back(&mut session, TransactionError::Execute(e));
                proof {
                    lemma_push(np, nc, events, last);
                    events = events.push(last);
                }
                let out = Err(error);
                assert(run_ends(plans@.len() as usize, checks@.len() as usize, events, out));
                return out;
            },
        }
        i = i + 1;
    }
    let mut j: usize = 0;
    while j < nc
        invariant
            np == plans@.len(),
            nc == checks@.len(),
            j <= nc,
            results@.len() == np,
            phase_after(np, nc, events) == if j < nc {
                TransactionPhase::Checking(j)
            } else {
                TransactionPhase::Committing
            },
            rollbacks(events) == 0,
        decreases nc - j,
    {
        let mut callback: ReadOnlyCallback<Profile, Factory::Session> = ReadOnlyCallback {
            session,
            marker: PhantomData,
        };
        let decision = checks[j].validate(&mut callback);
        session = callback.session;
        let failure = match decision {
            Ok(CheckDecision::Accept) => {
                proof {
                    lemma_push(np, nc, events, TransactionEvent::Accepted);
                    events = events.push(TransactionEvent::Accepted);
                }
                None
            },
            Ok(CheckDecision::Reject) => {
                proof {
                    lemma_push(np, nc, events, TransactionEvent::Rejected);
                    events = events.push(TransactionEvent::Rejected);
                }
                Some(TransactionError::CheckRejected)
            },
            Err(e) => {
                proof {
                    lemma_push(np, nc, events, TransactionEvent::CheckFailed);
                    events = events.push(TransactionEvent::CheckFailed);
                }
                Some(TransactionError::Check(e))
            },
        };
        match failure {
            Some(f) => {
                let (error, Ghost(last)) = roll_back(&mut session, f);
                proof {
                    lemma_push(np, nc, events, last);
                    events = events.push(last);
                }
                let out = Err(error);
                assert(run_ends(plans@.len() as usize, checks@.len() as usize, events, out));
                return out;
            },
            None => {},
        }
        j = j + 1;
    }
    match session.commit() {
        Ok(()) => {
            proof {
                lemma_push(np, nc, events, TransactionEvent::Committed);
                events = events.push(TransactionEvent::Committed);
            }
            let out = Ok(results);
            assert(run_ends(plans@.len() as usize, checks@.len() as usize, events, out));
            out
        },
        Err(e) => {
            proof {
                lemma_push(np, nc, events, TransactionEvent::CommitFailed);
                events = events.push(TransactionEvent::CommitFailed);
            }
            let (error, Ghost(last)) = roll_back(&mut session, TransactionError::Commit(e));
            proof {
                lemma_push(np, nc, events, last);
                events = events.push(last);
            }
            let out = Err(error);
            assert(run_ends(plans@.len() as usize, checks@.len() as usize, events, out));
            out
        },
    }
}

} // verus!
