//! The bound intermediate representation shared by the binder, the policy
//! compiler and the emitter: every column is named by its stable Catalog
//! identity, never by its spelling in the statement.
use vstd::prelude::*;
use crate::identity::{
    ClientParameterName, ColumnId, LogicalType, LogicalValue, PolicyId, ResourceId, ResultName,
    ServerParameterName,
};
use crate::text_map::TextMap;

verus! {

/// Where in a statement a column is used.
#[derive(Clone, Copy, Debug, PartialEq, Eq, Structural, PartialOrd, Ord)]
pub enum ColumnUsage {
    Projection,
    Filter,
    PolicyFilter,
    Join,
    Order,
    Group,
    Having,
    Aggregate,
    Window,
    Mutation,
    Write,
    Returning,
}

/// A column reference resolved against the Catalog.
#[derive(Clone, Copy, Debug, PartialEq, Eq, Structural)]
pub struct BoundColumn {
    pub id: ColumnId,
    pub logical_type: LogicalType,
    pub usage: ColumnUsage,
}

#[derive(Clone, Copy, Debug, PartialEq, Eq, Structural)]
pub enum ScalarFunction {
    Lower,
    Upper,
    JsonExtract,
}

#[derive(Clone, Copy, Debug, PartialEq, Eq, Structural)]
pub enum SortDirection {
    Ascending,
    Descending,
}

#[derive(Clone, Copy, Debug, PartialEq, Eq, Structural)]
pub enum JoinKind {
    Inner,
    Left,
}

/// A bound expression. Columns are Catalog identities; parameters are
/// either the caller's or the compiler's, never mixed.
#[derive(Debug, PartialEq)]
pub enum BoundExpr {
    Column(BoundColumn),
    ClientParameter { name: ClientParameterName, logical_type: LogicalType },
    ServerParameter { name: ServerParameterName, logical_type: LogicalType },
    Literal(LogicalValue),
    Equal(Box<BoundExpr>, Box<BoundExpr>),
    NotEqual(Box<BoundExpr>, Box<BoundExpr>),
    Less(Box<BoundExpr>, Box<BoundExpr>),
    LessEqual(Box<BoundExpr>, Box<BoundExpr>),
    Greater(Box<BoundExpr>, Box<BoundExpr>),
    GreaterEqual(Box<BoundExpr>, Box<BoundExpr>),
    And(Box<BoundExpr>, Box<BoundExpr>),
    Or(Box<BoundExpr>, Box<BoundExpr>),
    Not(Box<BoundExpr>),
    IsNull(Box<BoundExpr>),
    In { expression: Box<BoundExpr>, values: Vec<BoundExpr>, negated: bool },
    Like(Box<BoundExpr>, Box<BoundExpr>),
    Glob(Box<BoundExpr>, Box<BoundExpr>),
    Least(Box<BoundExpr>, Box<BoundExpr>),
    Concat(Box<BoundExpr>, Box<BoundExpr>),
    CastText(Box<BoundExpr>),
    Case {
        branches: Vec<(BoundExpr, BoundExpr)>,
        else_expression: Option<Box<BoundExpr>>,
        logical_type: LogicalType,
    },
    ConditionalOutput { value: Box<BoundExpr>, visible_if: Box<BoundExpr> },
    Exists(Box<BoundSelect>),
    CountAll(ResourceId),
    ScalarFunction { function: ScalarFunction, arguments: Vec<BoundExpr>, logical_type: LogicalType },
    RowNumber { resource: ResourceId, partition_by: Vec<BoundColumn>, order_by: Vec<BoundOrder> },
}

impl BoundExpr {
    /// The column when the expression is exactly one column reference.
    pub fn direct_column(&self) -> (r: Option<&BoundColumn>)
        ensures
            match *self {
                BoundExpr::Column(c) => r == Some(&c),
                _ => r is None,
            },
    {
        match self {
            BoundExpr::Column(column) => Some(column),
            _ => None,
        }
    }
}

#[derive(Debug, PartialEq)]
pub struct BoundProjection {
    pub expression: BoundExpr,
    pub output_name: ResultName,
}

#[derive(Debug, PartialEq)]
pub struct BoundOrder {
    pub expression: BoundExpr,
    pub direction: SortDirection,
}

#[derive(Debug, PartialEq)]
pub struct BoundJoin {
    pub resource: ResourceId,
    pub alias: Option<String>,
    pub kind: JoinKind,
    pub on: BoundExpr,
}

#[derive(Debug, PartialEq)]
pub struct BoundSelect {
    pub resource: ResourceId,
    pub alias: Option<String>,
    pub joins: Vec<BoundJoin>,
    pub projections: Vec<BoundProjection>,
    pub predicate: Option<BoundExpr>,
    pub group_by: Vec<BoundColumn>,
    pub having: Option<BoundExpr>,
    pub order_by: Vec<BoundOrder>,
    pub limit: Option<BoundExpr>,
    pub offset: Option<BoundExpr>,
}

#[derive(Debug, PartialEq)]
pub struct BoundAssignment {
    pub column: BoundColumn,
    pub value: BoundExpr,
}

#[derive(Debug, PartialEq)]
pub struct BoundInsert {
    pub resource: ResourceId,
    pub rows: Vec<Vec<BoundAssignment>>,
    pub returning: Vec<BoundProjection>,
}

#[derive(Debug, PartialEq)]
pub struct BoundUpdate {
    pub resource: ResourceId,
    pub assignments: Vec<BoundAssignment>,
    pub predicate: Option<BoundExpr>,
    pub returning: Vec<BoundProjection>,
}

#[derive(Debug, PartialEq)]
pub struct BoundDelete {
    pub resource: ResourceId,
    pub predicate: Option<BoundExpr>,
    pub returning: Vec<BoundProjection>,
}

#[derive(Debug, PartialEq)]
pub struct BoundConstantSelect {
    pub projections: Vec<BoundProjection>,
}

#[derive(Debug, PartialEq)]
pub struct BoundJsonCollectionSelect {
    pub resource: ResourceId,
    pub alias: Option<String>,
    pub document: BoundColumn,
    pub path: BoundExpr,
    pub recursive: bool,
    pub output_name: ResultName,
    pub predicate: Option<BoundExpr>,
}

#[derive(Debug, PartialEq)]
pub enum BoundStatement {
    Select(Box<BoundSelect>),
    ConstantSelect(BoundConstantSelect),
    JsonCollectionSelect(BoundJsonCollectionSelect),
    Insert(BoundInsert),
    Update(BoundUpdate),
    Delete(BoundDelete),
}

/// A statement with its policies applied. `server_values` binds each
/// compiler-owned parameter, keyed by the parameter's name.
#[derive(Debug, PartialEq)]
pub struct ProtectedPlan {
    pub statement: BoundStatement,
    pub applied_policies: Vec<PolicyId>,
    pub server_values: TextMap<LogicalValue>,
    pub policy_limit: Option<u64>,
    pub operation_check: Option<BoundExpr>,
    pub expected_affected_rows: Option<u64>,
    pub expected_result_rows: Option<u64>,
}

} // verus!
