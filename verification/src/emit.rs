//! The SQLite profile: the marker that binds plans to it, and the refusals
//! met while emitting and sealing its SQL.
use vstd::prelude::*;
use crate::execution::VerificationError;

verus! {

/// Type marker binding candidates, verifiers, and executors to the SQLite
/// profile.
#[derive(Clone, Copy, Debug, PartialEq, Eq, Structural)]
pub struct SqliteProfile;

/// The emitter of protected SQLite statements.
#[derive(Clone, Copy, Debug, Default)]
pub struct TypedSqliteEmitter;

/// Why a protected plan could not be emitted.
#[derive(Clone, Debug, PartialEq, Eq)]
pub enum EmitError {
    UnsupportedStatement,
    UnknownResource,
    UnknownColumn,
    MissingServerParameter(String),
    LiteralRequiresParameter,
    UnsupportedValue,
    TooManyLiterals,
    Formatting,
    InvariantViolation(String),
}

/// Why a plan could not be compiled into a sealed SQLite execution.
#[derive(Debug)]
pub enum CompileError {
    Emit(EmitError),
    ClientParameterMismatch,
    ClientParameterTypeMismatch,
    Verification(VerificationError),
}

/// The verification refusal carrying `message`.
pub fn violation(message: &str) -> (r: VerificationError)
    ensures
        r matches VerificationError::InvariantViolation(m) && m@ == message@,
{
    VerificationError::InvariantViolation(crate::text::owned(message))
}

} // verus!
