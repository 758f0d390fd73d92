use policysql::gateway::RejectionKind;
use policysql::identity::{ClientParameterName, LogicalType, LogicalValue, ResourceId, ResultName};
use policysql::ir::{BoundDelete, BoundExpr, BoundProjection, BoundSelect, BoundStatement};
use policysql::parameter_types::statement_parameter_types;
use policysql::public_error::RuntimeError;

fn parameter(name: &str, logical_type: LogicalType) -> BoundExpr {
    BoundExpr::ClientParameter {
        name: ClientParameterName::new(name).unwrap_or_else(|e| unreachable!("{e:?}")),
        logical_type,
    }
}

fn resource(id: u64) -> ResourceId {
    ResourceId::new(id).unwrap_or_else(|e| unreachable!("{e:?}"))
}

fn delete_where(predicate: BoundExpr) -> BoundStatement {
    BoundStatement::Delete(BoundDelete { resource: resource(1), predicate: Some(predicate), returning: Vec::new() })
}

#[test]
fn each_parameter_keeps_one_type() {
    let agreeing = delete_where(BoundExpr::And(
        Box::new(BoundExpr::Equal(Box::new(parameter("tenant", LogicalType::String)), Box::new(BoundExpr::Literal(LogicalValue::String("a".to_owned()))))),
        Box::new(BoundExpr::Less(Box::new(parameter("rank", LogicalType::Int64)), Box::new(parameter("tenant", LogicalType::String)))),
    ));
    let types = statement_parameter_types(&agreeing).unwrap_or_else(|e| unreachable!("{e:?}"));
    assert_eq!(types.len(), 2);
    assert_eq!(types.get("rank"), Some(&LogicalType::Int64));
    assert_eq!(types.get("tenant"), Some(&LogicalType::String));

    let clashing = delete_where(BoundExpr::Or(
        Box::new(parameter("rank", LogicalType::Int64)),
        Box::new(parameter("rank", LogicalType::String)),
    ));
    assert_eq!(
        statement_parameter_types(&clashing).err(),
        Some(RuntimeError::Rejected(RejectionKind::AmbiguousParameterType))
    );
}

#[test]
fn nested_selects_contribute_their_limits() {
    let nested = BoundSelect {
        resource: resource(2),
        alias: None,
        joins: Vec::new(),
        projections: vec![BoundProjection {
            expression: BoundExpr::Literal(LogicalValue::Int64(1)),
            output_name: ResultName::new("one").unwrap_or_else(|e| unreachable!("{e:?}")),
        }],
        predicate: None,
        group_by: Vec::new(),
        having: None,
        order_by: Vec::new(),
        limit: Some(parameter("page", LogicalType::Integer)),
        offset: None,
    };
    let statement = delete_where(BoundExpr::Exists(Box::new(nested)));
    let types = statement_parameter_types(&statement).unwrap_or_else(|e| unreachable!("{e:?}"));
    assert_eq!(types.get("page"), Some(&LogicalType::Integer));
    let empty = BoundStatement::Delete(BoundDelete { resource: resource(1), predicate: None, returning: Vec::new() });
    assert_eq!(statement_parameter_types(&empty).map(|types| types.len()).ok(), Some(0));
}
