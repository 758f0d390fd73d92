use policysql::emit::CompileError;
use policysql::identity::{ClientParameterName, ColumnId, LogicalType, LogicalValue, ResourceId, ResultName};
use policysql::ir::{BoundColumn, BoundExpr, BoundProjection, BoundSelect, BoundStatement, ColumnUsage};
use policysql::params::{check_client_parameters, collect_client_parameters, logical_value_matches, validate_client_parameter_types};
use policysql::admission::validate_client_parameter_contracts;
use policysql::catalog::{Catalog, ResourceDescriptor};
use policysql::contract::NumericOrder;
use policysql::identity::{
    ColumnName, ConstraintScalar, ResourceName, SnapshotId, ValueConstraints, ValueDescriptor,
    ValueRepresentation,
};
use policysql::ir::{BoundAssignment, BoundInsert};
use policysql::text_map::TextMap;

fn parameter(name: &str, logical_type: LogicalType) -> BoundExpr {
    BoundExpr::ClientParameter {
        name: ClientParameterName::new(name).unwrap_or_else(|e| unreachable!("valid parameter: {e:?}")),
        logical_type,
    }
}

fn status_column() -> BoundExpr {
    let resource = ResourceId::new(1).unwrap_or_else(|e| unreachable!("{e:?}"));
    BoundExpr::Column(BoundColumn {
        id: ColumnId::new(resource, 3),
        logical_type: LogicalType::String,
        usage: ColumnUsage::Filter,
    })
}

/// `SELECT id FROM projects WHERE status = :status LIMIT :limit`, bound.
fn statement() -> BoundStatement {
    let resource = ResourceId::new(1).unwrap_or_else(|e| unreachable!("{e:?}"));
    BoundStatement::Select(Box::new(BoundSelect {
        resource,
        alias: None,
        joins: Vec::new(),
        projections: vec![BoundProjection {
            expression: BoundExpr::Column(BoundColumn {
                id: ColumnId::new(resource, 1),
                logical_type: LogicalType::String,
                usage: ColumnUsage::Projection,
            }),
            output_name: ResultName::new("id").unwrap_or_else(|e| unreachable!("{e:?}")),
        }],
        predicate: Some(BoundExpr::Equal(Box::new(status_column()), Box::new(parameter("status", LogicalType::String)))),
        group_by: Vec::new(),
        having: None,
        order_by: Vec::new(),
        limit: Some(parameter("limit", LogicalType::Integer)),
        offset: None,
    }))
}

fn client_parameters() -> TextMap<LogicalValue> {
    let mut values = TextMap::new();
    values.insert("status".to_owned(), LogicalValue::String("active".to_owned()));
    values.insert("limit".to_owned(), LogicalValue::Int64(10));
    values
}

#[test]
fn wire_values_match_documented_semantic_types() {
    for logical_type in [LogicalType::String, LogicalType::Date, LogicalType::DateTime, LogicalType::Instant] {
        assert!(logical_value_matches(&LogicalValue::String("2026-08-12T00:00:00Z".to_owned()), logical_type));
    }
    assert!(logical_value_matches(&LogicalValue::Int64(9_007_199_254_740_991), LogicalType::Integer));
    assert!(!logical_value_matches(&LogicalValue::Int64(9_007_199_254_740_992), LogicalType::Integer));
}

#[test]
fn wide_integers_and_null_have_their_own_rules() {
    assert!(logical_value_matches(&LogicalValue::Int64(9_007_199_254_740_992), LogicalType::Int64));
    assert!(logical_value_matches(&LogicalValue::Int64(-9_007_199_254_740_991), LogicalType::Integer));
    assert!(!logical_value_matches(&LogicalValue::Int64(-9_007_199_254_740_992), LogicalType::Integer));
    assert!(!logical_value_matches(&LogicalValue::Null, LogicalType::String));
    assert!(!logical_value_matches(&LogicalValue::Boolean(true), LogicalType::String));
}

#[test]
fn collects_each_client_parameter_once() {
    let names = collect_client_parameters(&statement());
    assert_eq!(names.len(), 2);
    assert!(names.contains("status"));
    assert!(names.contains("limit"));
    assert!(!names.contains("id"));
}

#[test]
fn exact_client_parameter_set_is_accepted() {
    assert!(check_client_parameters(&statement(), &client_parameters()).is_ok());
}

#[test]
fn missing_or_extra_client_parameter_is_refused() {
    let mut missing = client_parameters();
    missing.remove("limit");
    assert!(matches!(
        check_client_parameters(&statement(), &missing),
        Err(CompileError::ClientParameterMismatch)
    ));

    let mut extra = client_parameters();
    extra.insert("offset".to_owned(), LogicalValue::Int64(0));
    assert!(matches!(
        check_client_parameters(&statement(), &extra),
        Err(CompileError::ClientParameterMismatch)
    ));
}

#[test]
fn client_parameter_of_the_wrong_type_is_refused() {
    let mut parameters = client_parameters();
    parameters.insert("limit".to_owned(), LogicalValue::String("200".to_owned()));
    assert!(matches!(
        check_client_parameters(&statement(), &parameters),
        Err(CompileError::ClientParameterTypeMismatch)
    ));
    assert!(matches!(
        validate_client_parameter_types(&statement(), &parameters),
        Err(CompileError::ClientParameterTypeMismatch)
    ));
}

#[test]
fn one_parameter_used_at_two_types_is_refused() {
    let resource = ResourceId::new(1).unwrap_or_else(|e| unreachable!("{e:?}"));
    let statement = BoundStatement::Select(Box::new(BoundSelect {
        resource,
        alias: None,
        joins: Vec::new(),
        projections: Vec::new(),
        predicate: Some(BoundExpr::Equal(Box::new(status_column()), Box::new(parameter("value", LogicalType::String)))),
        group_by: Vec::new(),
        having: None,
        order_by: Vec::new(),
        limit: Some(parameter("value", LogicalType::Integer)),
        offset: None,
    }));
    let mut values = TextMap::new();
    values.insert("value".to_owned(), LogicalValue::Int64(1));
    assert!(matches!(
        validate_client_parameter_types(&statement, &values),
        Err(CompileError::ClientParameterTypeMismatch)
    ));
}

fn numeric_order(value: &LogicalValue, text: &String) -> Option<NumericOrder> {
    let bound = text.parse::<f64>().ok()?;
    let number = match value {
        LogicalValue::Int64(v) => *v as f64,
        LogicalValue::Number(bits) => f64::from_bits(*bits),
        _ => return None,
    };
    Some(match number.partial_cmp(&bound) {
        Some(std::cmp::Ordering::Less) => NumericOrder::Below,
        Some(std::cmp::Ordering::Equal) => NumericOrder::Equal,
        Some(std::cmp::Ordering::Greater) => NumericOrder::Above,
        None => NumericOrder::Unordered,
    })
}

fn constrained(logical_type: LogicalType, constraints: Option<ValueConstraints>, format: Option<&str>) -> ValueDescriptor {
    ValueDescriptor {
        logical_type,
        representation: ValueRepresentation::String,
        nullable: false,
        format: format.map(str::to_owned),
        storage: None,
        constraints,
        json_schema: None,
    }
}

fn contract_catalog() -> Catalog {
    let statuses = ValueConstraints {
        allowed: vec![ConstraintScalar::String("active".to_owned()), ConstraintScalar::String("pending".to_owned())],
        minimum: None,
        maximum: None,
        min_length: None,
        max_length: None,
        pattern: None,
    };
    let ranks = ValueConstraints {
        allowed: Vec::new(),
        minimum: Some("1".to_owned()),
        maximum: Some("5".to_owned()),
        min_length: None,
        max_length: None,
        pattern: None,
    };
    let resource = ResourceDescriptor::new(
        ResourceId::new(1).unwrap_or_else(|e| unreachable!("{e:?}")),
        ResourceName::new("projects").unwrap_or_else(|e| unreachable!("{e:?}")),
        vec![
            (ColumnName::new("id").unwrap_or_else(|e| unreachable!("{e:?}")), constrained(LogicalType::String, None, Some("uuid"))),
            (ColumnName::new("rank").unwrap_or_else(|e| unreachable!("{e:?}")), constrained(LogicalType::Integer, Some(ranks), None)),
            (ColumnName::new("status").unwrap_or_else(|e| unreachable!("{e:?}")), constrained(LogicalType::String, Some(statuses), None)),
        ],
    )
    .unwrap_or_else(|e| unreachable!("{e:?}"));
    Catalog::new(SnapshotId::new("schema_1").unwrap_or_else(|e| unreachable!("{e:?}")), vec![resource])
        .unwrap_or_else(|e| unreachable!("{e:?}"))
}

fn catalog_column(catalog: &Catalog, name: &str, usage: ColumnUsage) -> BoundColumn {
    let resource = catalog.resource("projects").unwrap_or_else(|| unreachable!("projects"));
    let c = resource.column(name).unwrap_or_else(|| unreachable!("{name}"));
    BoundColumn { id: c.id, logical_type: c.value.logical_type, usage }
}

fn filtered(catalog: &Catalog, predicate: BoundExpr) -> BoundStatement {
    BoundStatement::Select(Box::new(BoundSelect {
        resource: ResourceId::new(1).unwrap_or_else(|e| unreachable!("{e:?}")),
        alias: None,
        joins: Vec::new(),
        projections: vec![BoundProjection {
            expression: BoundExpr::Column(catalog_column(catalog, "id", ColumnUsage::Projection)),
            output_name: ResultName::new("id").unwrap_or_else(|e| unreachable!("{e:?}")),
        }],
        predicate: Some(predicate),
        group_by: Vec::new(),
        having: None,
        order_by: Vec::new(),
        limit: None,
        offset: None,
    }))
}

fn one(name: &str, value: LogicalValue) -> TextMap<LogicalValue> {
    let mut values = TextMap::new();
    values.insert(name.to_owned(), value);
    values
}

#[test]
fn compared_parameter_must_meet_the_column_contract() {
    let catalog = contract_catalog();
    let statement = filtered(
        &catalog,
        BoundExpr::Equal(
            Box::new(BoundExpr::Column(catalog_column(&catalog, "status", ColumnUsage::Filter))),
            Box::new(parameter("status", LogicalType::String)),
        ),
    );
    let accepted = one("status", LogicalValue::String("active".to_owned()));
    assert!(validate_client_parameter_contracts(&statement, &catalog, &accepted, &numeric_order).is_ok());
    let refused = one("status", LogicalValue::String("archived".to_owned()));
    assert!(matches!(
        validate_client_parameter_contracts(&statement, &catalog, &refused, &numeric_order),
        Err(CompileError::ClientParameterTypeMismatch)
    ));
}

#[test]
fn parameter_on_the_left_and_in_lists_is_checked_too() {
    let catalog = contract_catalog();
    let reversed = filtered(
        &catalog,
        BoundExpr::Less(
            Box::new(parameter("rank", LogicalType::Integer)),
            Box::new(BoundExpr::Column(catalog_column(&catalog, "rank", ColumnUsage::Filter))),
        ),
    );
    assert!(validate_client_parameter_contracts(&reversed, &catalog, &one("rank", LogicalValue::Int64(3)), &numeric_order).is_ok());
    assert!(validate_client_parameter_contracts(&reversed, &catalog, &one("rank", LogicalValue::Int64(9)), &numeric_order).is_err());

    let listed = filtered(
        &catalog,
        BoundExpr::In {
            expression: Box::new(BoundExpr::Column(catalog_column(&catalog, "status", ColumnUsage::Filter))),
            values: vec![parameter("first", LogicalType::String), parameter("second", LogicalType::String)],
            negated: false,
        },
    );
    let mut values = one("first", LogicalValue::String("active".to_owned()));
    values.insert("second".to_owned(), LogicalValue::String("closed".to_owned()));
    assert!(validate_client_parameter_contracts(&listed, &catalog, &values, &numeric_order).is_err());
}

#[test]
fn written_parameter_must_meet_the_column_contract() {
    let catalog = contract_catalog();
    let insert = BoundStatement::Insert(BoundInsert {
        resource: ResourceId::new(1).unwrap_or_else(|e| unreachable!("{e:?}")),
        rows: vec![vec![BoundAssignment {
            column: catalog_column(&catalog, "id", ColumnUsage::Write),
            value: parameter("id", LogicalType::String),
        }]],
        returning: Vec::new(),
    });
    let uuid = one("id", LogicalValue::String("123e4567-e89b-12d3-a456-426614174000".to_owned()));
    assert!(validate_client_parameter_contracts(&insert, &catalog, &uuid, &numeric_order).is_ok());
    let not_uuid = one("id", LogicalValue::String("project_1".to_owned()));
    assert!(validate_client_parameter_contracts(&insert, &catalog, &not_uuid, &numeric_order).is_err());
}

#[test]
fn parameters_not_compared_with_a_column_are_not_checked_against_one() {
    let catalog = contract_catalog();
    let statement = filtered(
        &catalog,
        BoundExpr::Equal(Box::new(parameter("a", LogicalType::String)), Box::new(parameter("b", LogicalType::String))),
    );
    assert!(validate_client_parameter_contracts(&statement, &catalog, &TextMap::new(), &numeric_order).is_ok());
}

#[test]
fn bound_column_uses_stable_catalog_identity() {
    let resource = ResourceId::new(1);
    assert!(resource.is_ok());
    if let Ok(resource) = resource {
        let expression = BoundExpr::Column(BoundColumn {
            id: ColumnId::new(resource, 2),
            logical_type: LogicalType::String,
            usage: ColumnUsage::Filter,
        });
        assert!(matches!(expression, BoundExpr::Column(_)));
    }
}
