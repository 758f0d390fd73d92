use policysql::deployment::{basic_expression, deployment_statement_supported, supported_select};
use policysql::identity::{LogicalType, LogicalValue, ResourceId, ResultName};
use policysql::ir::{
    BoundConstantSelect, BoundDelete, BoundExpr, BoundJoin, BoundProjection, BoundSelect, BoundStatement, JoinKind,
};

fn literal(value: i64) -> BoundExpr {
    BoundExpr::Literal(LogicalValue::Int64(value))
}

fn resource(id: u64) -> ResourceId {
    ResourceId::new(id).unwrap_or_else(|e| unreachable!("{e:?}"))
}

fn project(expression: BoundExpr, name: &str) -> BoundProjection {
    BoundProjection { expression, output_name: ResultName::new(name).unwrap_or_else(|e| unreachable!("{e:?}")) }
}

fn select(joins: Vec<BoundJoin>, projections: Vec<BoundProjection>) -> BoundSelect {
    BoundSelect {
        resource: resource(1),
        alias: None,
        joins,
        projections,
        predicate: None,
        group_by: Vec::new(),
        having: None,
        order_by: Vec::new(),
        limit: None,
        offset: None,
    }
}

fn unordered_window() -> BoundExpr {
    BoundExpr::RowNumber { resource: resource(1), partition_by: Vec::new(), order_by: Vec::new() }
}

#[test]
fn expressions_with_unordered_windows_are_off_the_surface() {
    let simple = BoundExpr::And(
        Box::new(BoundExpr::Equal(Box::new(literal(1)), Box::new(literal(1)))),
        Box::new(BoundExpr::Not(Box::new(BoundExpr::IsNull(Box::new(literal(2)))))),
    );
    assert!(basic_expression(&simple));
    let nested = BoundExpr::Case {
        branches: vec![(literal(1), BoundExpr::Concat(Box::new(literal(2)), Box::new(unordered_window())))],
        else_expression: None,
        logical_type: LogicalType::String,
    };
    assert!(!basic_expression(&nested));
    let listed = BoundExpr::In { expression: Box::new(literal(1)), values: vec![literal(2), unordered_window()], negated: false };
    assert!(!basic_expression(&listed));
}

#[test]
fn selects_are_checked_through_joins_and_nested_exists() {
    let join = BoundJoin { resource: resource(2), alias: None, kind: JoinKind::Inner, on: unordered_window() };
    let joined = select(vec![join], vec![project(literal(1), "one")]);
    assert!(!supported_select(&joined));
    let inner = select(Vec::new(), vec![project(unordered_window(), "n")]);
    let outer = select(Vec::new(), vec![project(BoundExpr::Exists(Box::new(inner)), "present")]);
    assert!(!supported_select(&outer));
    assert!(supported_select(&select(Vec::new(), vec![project(literal(1), "one")])));
}

#[test]
fn statements_are_checked_by_kind() {
    assert!(!deployment_statement_supported(&BoundStatement::ConstantSelect(BoundConstantSelect {
        projections: Vec::new()
    })));
    assert!(deployment_statement_supported(&BoundStatement::ConstantSelect(BoundConstantSelect {
        projections: vec![project(literal(1), "one")]
    })));
    let delete = BoundDelete {
        resource: resource(1),
        predicate: Some(BoundExpr::Equal(Box::new(literal(1)), Box::new(unordered_window()))),
        returning: Vec::new(),
    };
    assert!(!deployment_statement_supported(&BoundStatement::Delete(delete)));
    let delete = BoundDelete { resource: resource(1), predicate: Some(literal(1)), returning: Vec::new() };
    assert!(deployment_statement_supported(&BoundStatement::Delete(delete)));
}
