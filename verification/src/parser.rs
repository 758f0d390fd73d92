//! The statement front end's limits, source spans and refusals, and the
//! helpers by which it resolves names against the Catalog.
use vstd::prelude::*;
use crate::catalog::{ColumnDescriptor, catalog_key};
use crate::ir::{BoundColumn, ColumnUsage};
use crate::text::to_ascii_lowercase;

verus! {

/// Bounds on what one statement may contain.
#[derive(Clone, Copy, Debug, PartialEq, Eq, Structural)]
pub struct BindingLimits {
    pub max_expression_depth: usize,
    pub max_parameters: usize,
    pub max_projections: usize,
    pub max_joins: usize,
}

impl Default for BindingLimits {
    fn default() -> (r: Self)
        ensures
            r.max_expression_depth == 32,
            r.max_parameters == 128,
            r.max_projections == 128,
            r.max_joins == 8,
    {
        BindingLimits {
            max_expression_depth: 32,
            max_parameters: 128,
            max_projections: 128,
            max_joins: 8,
        }
    }
}

/// The statement front end, configured by its limits.
#[derive(Clone, Copy, Debug)]
pub struct SqliteFrontend {
    limits: BindingLimits,
}

impl SqliteFrontend {
    pub closed spec fn limits_spec(&self) -> BindingLimits {
        self.limits
    }

    pub fn new(limits: BindingLimits) -> (r: Self)
        ensures
            r.limits_spec() == limits,
    {
        SqliteFrontend { limits }
    }

    /// Refuses an expression nested deeper than the configured limit.
    pub fn check_depth(&self, depth: usize) -> (r: Result<(), BindError>)
        ensures
            r is Ok <==> depth <= self.limits_spec().max_expression_depth,
            r is Err ==> r == Err::<(), BindError>(BindError::ExpressionDepth),
    {
        if depth > self.limits.max_expression_depth {
            Err(BindError::ExpressionDepth)
        } else {
            Ok(())
        }
    }
}

impl Default for SqliteFrontend {
    fn default() -> (r: Self)
        ensures
            r.limits_spec().max_expression_depth == 32,
            r.limits_spec().max_parameters == 128,
            r.limits_spec().max_projections == 128,
            r.limits_spec().max_joins == 8,
    {
        SqliteFrontend { limits: BindingLimits::default() }
    }
}

/// A byte range of the statement text.
#[derive(Clone, Copy, Debug, PartialEq, Eq, Structural)]
pub struct SourceSpan {
    pub start: usize,
    pub end: usize,
}

/// Why a statement is refused before any policy sees it.
#[derive(Clone, Debug, PartialEq, Eq)]
pub enum BindError {
    Empty,
    InvalidSql,
    MultipleStatements,
    Unsupported(&'static str),
    MissingFrom,
    UnknownResource,
    UnknownColumn,
    AmbiguousColumn,
    DuplicateAlias,
    ImplicitRowId,
    ProjectionLimit,
    JoinLimit,
    ParameterLimit,
    ExpressionDepth,
    PositionalParameter,
    UnsupportedParameterPrefix,
    InvalidParameterName,
    ReservedParameterNamespace,
    UnprovableParameterType,
    IncompatibleTypes,
    InvalidLiteral,
    NullComparison,
    InvalidLimit,
    InvalidResultName,
    DuplicateResultName,
    DuplicateWriteColumn,
    InsertArity,
}

/// The reference to a Catalog column in the given use.
pub fn bound_column(column: &ColumnDescriptor, usage: ColumnUsage) -> (r: BoundColumn)
    ensures
        r.id == column.id,
        r.logical_type == column.value.logical_type,
        r.usage == usage,
{
    BoundColumn { id: column.id, logical_type: column.value.logical_type, usage }
}

/// The case-insensitive form under which names are compared.
pub fn canonical(name: &str) -> (r: String)
    ensures
        r@ == catalog_key(name@),
{
    to_ascii_lowercase(name)
}

} // verus!
