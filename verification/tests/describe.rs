use policysql::catalog::{Catalog, ResourceDescriptor};
use policysql::describe::result_descriptors;
use policysql::emit::EmitError;
use policysql::identity::{
    ColumnName, JsonSchemaType, JsonValueSchema, LogicalType, LogicalValue, ResourceId,
    ResourceName, ResultName, SnapshotId, ValueDescriptor, ValueRepresentation,
};
use policysql::ir::{
    BoundColumn, BoundConstantSelect, BoundExpr, BoundJoin, BoundJsonCollectionSelect,
    BoundProjection, BoundSelect, BoundStatement, ColumnUsage, JoinKind,
};
use policysql::text_map::TextMap;

fn text_descriptor(nullable: bool, format: Option<&str>) -> ValueDescriptor {
    ValueDescriptor {
        logical_type: LogicalType::String,
        representation: ValueRepresentation::String,
        nullable,
        format: format.map(str::to_owned),
        storage: None,
        constraints: None,
        json_schema: None,
    }
}

fn leaf(kind: JsonSchemaType) -> JsonValueSchema {
    JsonValueSchema {
        types: vec![kind],
        properties: Vec::new(),
        items: None,
        required: Vec::new(),
        additional_properties: false,
        any_of: Vec::new(),
    }
}

fn metadata_schema() -> JsonValueSchema {
    JsonValueSchema {
        types: vec![JsonSchemaType::Object],
        properties: vec![
            ("count".to_owned(), leaf(JsonSchemaType::Integer)),
            ("label".to_owned(), leaf(JsonSchemaType::String)),
        ],
        items: None,
        required: Vec::new(),
        additional_properties: false,
        any_of: Vec::new(),
    }
}

fn json_descriptor() -> ValueDescriptor {
    ValueDescriptor {
        logical_type: LogicalType::Json,
        representation: ValueRepresentation::Json,
        nullable: false,
        format: None,
        storage: None,
        constraints: None,
        json_schema: Some(metadata_schema()),
    }
}

fn projects() -> ResourceDescriptor {
    ResourceDescriptor::new(
        ResourceId::new(1).unwrap_or_else(|e| unreachable!("{e:?}")),
        ResourceName::new("projects").unwrap_or_else(|e| unreachable!("{e:?}")),
        vec![
            (ColumnName::new("id").unwrap_or_else(|e| unreachable!("{e:?}")), text_descriptor(false, Some("uuid"))),
            (ColumnName::new("name").unwrap_or_else(|e| unreachable!("{e:?}")), text_descriptor(false, None)),
            (ColumnName::new("private_note").unwrap_or_else(|e| unreachable!("{e:?}")), text_descriptor(false, None)),
            (ColumnName::new("metadata").unwrap_or_else(|e| unreachable!("{e:?}")), json_descriptor()),
        ],
    )
    .unwrap_or_else(|e| unreachable!("{e:?}"))
}

fn tasks() -> ResourceDescriptor {
    ResourceDescriptor::new(
        ResourceId::new(2).unwrap_or_else(|e| unreachable!("{e:?}")),
        ResourceName::new("tasks").unwrap_or_else(|e| unreachable!("{e:?}")),
        vec![
            (ColumnName::new("project_id").unwrap_or_else(|e| unreachable!("{e:?}")), text_descriptor(false, None)),
            (ColumnName::new("title").unwrap_or_else(|e| unreachable!("{e:?}")), text_descriptor(false, None)),
        ],
    )
    .unwrap_or_else(|e| unreachable!("{e:?}"))
}

fn catalog() -> Catalog {
    Catalog::new(SnapshotId::new("schema_1").unwrap_or_else(|e| unreachable!("{e:?}")), vec![projects(), tasks()])
        .unwrap_or_else(|e| unreachable!("{e:?}"))
}

fn column(resource: &ResourceDescriptor, name: &str) -> BoundColumn {
    let c = resource.column(name).unwrap_or_else(|| unreachable!("{name}"));
    BoundColumn { id: c.id, logical_type: c.value.logical_type, usage: ColumnUsage::Projection }
}

fn output(name: &str) -> ResultName {
    ResultName::new(name).unwrap_or_else(|e| unreachable!("{e:?}"))
}

fn project(expression: BoundExpr, name: &str) -> BoundProjection {
    BoundProjection { expression, output_name: output(name) }
}

fn select_of(resource: u64, joins: Vec<BoundJoin>, projections: Vec<BoundProjection>) -> BoundStatement {
    BoundStatement::Select(Box::new(BoundSelect {
        resource: ResourceId::new(resource).unwrap_or_else(|e| unreachable!("{e:?}")),
        alias: None,
        joins,
        projections,
        predicate: None,
        group_by: Vec::new(),
        having: None,
        order_by: Vec::new(),
        limit: None,
        offset: None,
    }))
}

fn constant(projections: Vec<BoundProjection>) -> BoundStatement {
    BoundStatement::ConstantSelect(BoundConstantSelect { projections })
}

#[test]
fn constant_integer_literal_is_an_integer_number() {
    let statement = constant(vec![project(BoundExpr::Literal(LogicalValue::Int64(1)), "value")]);
    let described = result_descriptors(&statement, &catalog(), &TextMap::new())
        .unwrap_or_else(|e| unreachable!("{e:?}"));
    assert_eq!(described.len(), 1);
    assert_eq!(described[0].name.as_str(), "value");
    assert_eq!(described[0].value.logical_type, LogicalType::Integer);
    assert_eq!(described[0].value.representation, ValueRepresentation::Number);
    assert!(!described[0].value.nullable);
    assert_eq!(described[0].possible_types, vec![LogicalType::Integer]);
    assert!(!described[0].redacted_on_null);
    assert!(described[0].visibility_column.is_none());
}

#[test]
fn constant_text_literal_is_refused() {
    let statement = constant(vec![project(BoundExpr::Literal(LogicalValue::String("x".to_owned())), "value")]);
    assert_eq!(
        result_descriptors(&statement, &catalog(), &TextMap::new()),
        Err(EmitError::UnsupportedStatement)
    );
}

#[test]
fn count_is_a_wide_integer_sent_as_a_number() {
    let statement = select_of(
        1,
        Vec::new(),
        vec![project(BoundExpr::CountAll(ResourceId::new(1).unwrap_or_else(|e| unreachable!("{e:?}"))), "total")],
    );
    let described = result_descriptors(&statement, &catalog(), &TextMap::new())
        .unwrap_or_else(|e| unreachable!("{e:?}"));
    assert_eq!(described[0].value.logical_type, LogicalType::Int64);
    assert_eq!(described[0].value.representation, ValueRepresentation::Number);
    assert_eq!(described[0].possible_types, vec![LogicalType::Int64]);
}

#[test]
fn direct_column_keeps_catalog_descriptor_and_left_join_makes_it_nullable() {
    let p = projects();
    let t = tasks();
    let join = BoundJoin {
        resource: ResourceId::new(2).unwrap_or_else(|e| unreachable!("{e:?}")),
        alias: None,
        kind: JoinKind::Left,
        on: BoundExpr::Equal(Box::new(BoundExpr::Column(column(&t, "project_id"))), Box::new(BoundExpr::Column(column(&p, "id")))),
    };
    let statement = select_of(
        1,
        vec![join],
        vec![project(BoundExpr::Column(column(&p, "id")), "id"), project(BoundExpr::Column(column(&t, "title")), "title")],
    );
    let described = result_descriptors(&statement, &catalog(), &TextMap::new())
        .unwrap_or_else(|e| unreachable!("{e:?}"));
    assert_eq!(described.len(), 2);
    assert_eq!(described[0].value.format.as_deref(), Some("uuid"));
    assert!(!described[0].value.nullable);
    assert!(described[1].value.nullable);
    assert_eq!(described[1].possible_types, vec![LogicalType::String]);
}

#[test]
fn conditional_output_is_redactable_with_a_visibility_companion() {
    let p = projects();
    let statement = select_of(
        1,
        Vec::new(),
        vec![
            project(BoundExpr::Column(column(&p, "id")), "id"),
            project(
                BoundExpr::ConditionalOutput {
                    value: Box::new(BoundExpr::Column(column(&p, "private_note"))),
                    visible_if: Box::new(BoundExpr::Literal(LogicalValue::Boolean(true))),
                },
                "private_note",
            ),
        ],
    );
    let described = result_descriptors(&statement, &catalog(), &TextMap::new())
        .unwrap_or_else(|e| unreachable!("{e:?}"));
    assert!(described[1].value.nullable);
    assert!(described[1].redacted_on_null);
    assert_eq!(
        described[1].visibility_column.as_ref().map(ResultName::as_str),
        Some("__policysql_visibility_1")
    );
    assert!(described[0].visibility_column.is_none());
}

#[test]
fn concatenation_is_text_nullable_only_from_its_operands() {
    let p = projects();
    let statement = select_of(
        1,
        Vec::new(),
        vec![project(
            BoundExpr::Concat(Box::new(BoundExpr::Column(column(&p, "name"))), Box::new(BoundExpr::Column(column(&p, "id")))),
            "label",
        )],
    );
    let described = result_descriptors(&statement, &catalog(), &TextMap::new())
        .unwrap_or_else(|e| unreachable!("{e:?}"));
    assert_eq!(described[0].value.logical_type, LogicalType::String);
    assert_eq!(described[0].value.representation, ValueRepresentation::String);
    assert!(!described[0].value.nullable);
    assert!(described[0].value.format.is_none());
}

#[test]
fn unknown_resource_is_refused() {
    let statement = select_of(9, Vec::new(), Vec::new());
    assert_eq!(result_descriptors(&statement, &catalog(), &TextMap::new()), Err(EmitError::UnknownResource));
}

#[test]
fn json_collection_is_one_array_of_the_member_schemas() {
    let p = projects();
    let statement = BoundStatement::JsonCollectionSelect(BoundJsonCollectionSelect {
        resource: ResourceId::new(1).unwrap_or_else(|e| unreachable!("{e:?}")),
        alias: None,
        document: column(&p, "metadata"),
        path: BoundExpr::Literal(LogicalValue::String("$".to_owned())),
        recursive: false,
        output_name: output("value"),
        predicate: None,
    });
    let described = result_descriptors(&statement, &catalog(), &TextMap::new())
        .unwrap_or_else(|e| unreachable!("{e:?}"));
    assert_eq!(described.len(), 1);
    assert_eq!(described[0].value.logical_type, LogicalType::Json);
    assert_eq!(described[0].possible_types, vec![LogicalType::Json]);
    let schema = described[0].value.json_schema.as_ref().unwrap_or_else(|| unreachable!("schema"));
    assert_eq!(schema.types, vec![JsonSchemaType::Array]);
    let items = schema.items.as_ref().unwrap_or_else(|| unreachable!("items"));
    assert!(items.types.is_empty());
    assert_eq!(items.any_of, vec![leaf(JsonSchemaType::Integer), leaf(JsonSchemaType::String)]);
}
