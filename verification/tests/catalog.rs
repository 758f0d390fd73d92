use policysql::catalog::{Catalog, CatalogError, ResourceDescriptor};
use policysql::identity::{
    ColumnId, ColumnName, LogicalType, ResourceId, ResourceName, SnapshotId, ValueDescriptor,
    ValueRepresentation,
};

fn string_descriptor() -> ValueDescriptor {
    ValueDescriptor {
        logical_type: LogicalType::String,
        representation: ValueRepresentation::String,
        nullable: false,
        format: None,
        storage: None,
        constraints: None,
        json_schema: None,
    }
}

fn resource(id: u64, name: &str, columns: &[&str]) -> ResourceDescriptor {
    ResourceDescriptor::new(
        ResourceId::new(id).unwrap_or_else(|error| unreachable!("valid ID: {error:?}")),
        ResourceName::new(name).unwrap_or_else(|error| unreachable!("valid name: {error:?}")),
        columns
            .iter()
            .map(|column| {
                (
                    ColumnName::new(column)
                        .unwrap_or_else(|error| unreachable!("valid column: {error:?}")),
                    string_descriptor(),
                )
            })
            .collect(),
    )
    .unwrap_or_else(|error| unreachable!("valid resource: {error:?}"))
}

#[test]
fn rejects_case_colliding_resources() {
    let first = ResourceDescriptor::new(
        ResourceId::new(1).unwrap_or_else(|error| unreachable!("valid ID: {error:?}")),
        ResourceName::new("Projects").unwrap_or_else(|error| unreachable!("valid name: {error:?}")),
        vec![(
            ColumnName::new("id").unwrap_or_else(|error| unreachable!("valid name: {error:?}")),
            string_descriptor(),
        )],
    );
    assert!(first.is_ok());
    let second = ResourceDescriptor::new(
        ResourceId::new(2).unwrap_or_else(|error| unreachable!("valid ID: {error:?}")),
        ResourceName::new("projects").unwrap_or_else(|error| unreachable!("valid name: {error:?}")),
        vec![(
            ColumnName::new("id").unwrap_or_else(|error| unreachable!("valid name: {error:?}")),
            string_descriptor(),
        )],
    );
    assert!(second.is_ok());
    let catalog = Catalog::new(
        SnapshotId::new("schema_1").unwrap_or_else(|error| unreachable!("valid snapshot: {error:?}")),
        vec![
            first.unwrap_or_else(|error| unreachable!("valid resource: {error:?}")),
            second.unwrap_or_else(|error| unreachable!("valid resource: {error:?}")),
        ],
    );
    assert!(matches!(catalog, Err(CatalogError::DuplicateResource(_))));
}

#[test]
fn rejects_case_colliding_columns() {
    let result = ResourceDescriptor::new(
        ResourceId::new(1).unwrap_or_else(|error| unreachable!("valid ID: {error:?}")),
        ResourceName::new("projects").unwrap_or_else(|error| unreachable!("valid name: {error:?}")),
        vec![
            (ColumnName::new("Id").unwrap_or_else(|e| unreachable!("{e:?}")), string_descriptor()),
            (ColumnName::new("id").unwrap_or_else(|e| unreachable!("{e:?}")), string_descriptor()),
        ],
    );
    assert!(matches!(result, Err(CatalogError::DuplicateColumn(_))));
}

#[test]
fn rejects_empty_resource_and_catalog() {
    let result = ResourceDescriptor::new(
        ResourceId::new(1).unwrap_or_else(|error| unreachable!("valid ID: {error:?}")),
        ResourceName::new("projects").unwrap_or_else(|error| unreachable!("valid name: {error:?}")),
        Vec::new(),
    );
    assert!(matches!(result, Err(CatalogError::EmptyResource)));
    let catalog = Catalog::new(
        SnapshotId::new("schema_1").unwrap_or_else(|error| unreachable!("{error:?}")),
        Vec::new(),
    );
    assert!(matches!(catalog, Err(CatalogError::EmptyCatalog)));
}

#[test]
fn lookups_ignore_ascii_case_and_keep_ordinals() {
    let catalog = Catalog::new(
        SnapshotId::new("schema_1").unwrap_or_else(|error| unreachable!("{error:?}")),
        vec![resource(7, "projects", &["id", "tenant_id"]), resource(3, "notes", &["body"])],
    )
    .unwrap_or_else(|error| unreachable!("valid Catalog: {error:?}"));
    let projects = catalog.resource("PROJECTS").unwrap_or_else(|| unreachable!("present"));
    assert_eq!(projects.id().get(), 7);
    let tenant = projects.column("Tenant_Id").unwrap_or_else(|| unreachable!("present"));
    assert_eq!(tenant.id.ordinal(), 1);
    assert_eq!(tenant.name.as_str(), "tenant_id");
    let by_id = projects.column_by_id(ColumnId::new(projects.id(), 0));
    assert_eq!(by_id.map(|column| column.name.as_str()), Some("id"));
    assert!(catalog.resource("missing").is_none());
    let names: Vec<&str> = catalog.resources().iter().map(|r| r.name.as_str()).collect();
    assert_eq!(names, vec!["notes", "projects"]);
    let found = catalog.resource_by_id(ResourceId::new(3).unwrap_or_else(|e| unreachable!("{e:?}")));
    assert_eq!(found.map(|r| r.name.as_str()), Some("notes"));
    assert_eq!(catalog.snapshot().as_str(), "schema_1");
}
