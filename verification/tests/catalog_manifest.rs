use policysql::catalog::Catalog;
use policysql::catalog_manifest::{
    activate_catalog_with_schema, declared_storage, derived_logical_type, logical_type, parse_constraints,
    parse_json_value_schema, representation, storage_class, valid_json_value_schema, validate_format,
    validate_storage, PhysicalColumn, PhysicalSchema, PhysicalTable, RawCatalogColumn, RawCatalogManifest,
    RawCatalogResource,
};
use policysql::contract::NumericOrder;
use policysql::gateway::RejectionKind;
use policysql::public_error::RuntimeError;
use policysql::identity::{
    ConstraintScalar, JsonSchemaType, LogicalType, LogicalValue, SnapshotId, StorageClass, ValueRepresentation,
};
use policysql::text_map::TextMap;
use policysql::yaml::{YamlNumber, YamlValue};

fn text(value: &str) -> YamlValue {
    YamlValue::String(value.to_owned())
}

fn map(entries: Vec<(&str, YamlValue)>) -> YamlValue {
    YamlValue::Mapping(entries.into_iter().map(|(k, v)| (text(k), v)).collect())
}

fn typed(name: &str) -> YamlValue {
    map(vec![("type", text(name))])
}

#[test]
fn manifest_storage_and_type_names() {
    assert_eq!(storage_class("text"), Some(StorageClass::Text));
    assert_eq!(storage_class("blob"), Some(StorageClass::Blob));
    assert_eq!(storage_class("TEXT"), None);
    assert_eq!(declared_storage("VARCHAR(36)"), Some(StorageClass::Text));
    assert_eq!(declared_storage("BIGINT"), Some(StorageClass::Integer));
    assert_eq!(declared_storage("DOUBLE PRECISION"), Some(StorageClass::Real));
    assert_eq!(declared_storage("numeric"), None);
    assert_eq!(
        derived_logical_type(StorageClass::Blob),
        (LogicalType::Bytes, ValueRepresentation::Base64)
    );
    assert_eq!(
        logical_type("json"),
        Some((LogicalType::Json, ValueRepresentation::Json))
    );
    assert_eq!(logical_type("uuid"), None);
    assert_eq!(
        representation(None, ValueRepresentation::String),
        Some(ValueRepresentation::String)
    );
}

#[test]
fn manifest_format_and_storage_must_fit_the_type() {
    assert!(validate_format(LogicalType::String, Some("uuid")));
    assert!(!validate_format(LogicalType::String, Some("rfc3339")));
    assert!(validate_format(LogicalType::Instant, Some("rfc3339")));
    assert!(!validate_format(LogicalType::Date, None));
    assert!(validate_storage(LogicalType::Json, Some(StorageClass::Text)));
    assert!(!validate_storage(LogicalType::Bytes, Some(StorageClass::Text)));
    assert!(validate_storage(LogicalType::Bytes, None));
}

#[test]
fn json_schema_subset_is_accepted_and_read() {
    let schema = map(vec![
        ("$schema", text("https://json-schema.org/draft/2020-12/schema")),
        ("type", text("object")),
        ("additionalProperties", YamlValue::Bool(false)),
        ("required", YamlValue::Sequence(vec![text("score")])),
        (
            "properties",
            map(vec![
                ("score", map(vec![("anyOf", YamlValue::Sequence(vec![typed("integer"), typed("null")]))])),
                ("label", typed("string")),
            ]),
        ),
    ]);
    assert!(valid_json_value_schema(&schema, 0));
    let parsed = parse_json_value_schema(&schema).unwrap_or_else(|| unreachable!("valid schema"));
    assert_eq!(parsed.types, vec![JsonSchemaType::Object]);
    assert_eq!(parsed.required, vec!["score".to_owned()]);
    assert!(!parsed.additional_properties);
    let names: Vec<&str> = parsed.properties.iter().map(|(name, _)| name.as_str()).collect();
    assert_eq!(names, vec!["label", "score"]);
    assert_eq!(parsed.properties[0].1.types, vec![JsonSchemaType::String]);
    let score = &parsed.properties[1].1;
    assert!(score.types.is_empty());
    assert_eq!(score.any_of.len(), 2);
    assert_eq!(score.any_of[0].types, vec![JsonSchemaType::Integer]);
    assert_eq!(score.any_of[1].types, vec![JsonSchemaType::Null]);
}

#[test]
fn json_schema_outside_the_subset_is_refused() {
    let remote = map(vec![("$ref", text("https://example.com/remote-schema.json"))]);
    assert!(parse_json_value_schema(&remote).is_none());
    let open = map(vec![("type", text("object")), ("additionalProperties", YamlValue::Bool(true))]);
    assert!(parse_json_value_schema(&open).is_none());
    let other_draft = map(vec![
        ("$schema", text("http://json-schema.org/draft-07/schema#")),
        ("type", text("string")),
    ]);
    assert!(parse_json_value_schema(&other_draft).is_none());
    let unknown_required = map(vec![
        ("type", text("object")),
        ("properties", map(vec![("score", typed("integer"))])),
        ("required", YamlValue::Sequence(vec![text("label")])),
    ]);
    assert!(parse_json_value_schema(&unknown_required).is_none());
    assert!(parse_json_value_schema(&YamlValue::Null).is_none());
}

#[test]
fn json_schema_items_nest() {
    let schema = map(vec![("type", text("array")), ("items", typed("number"))]);
    let parsed = parse_json_value_schema(&schema).unwrap_or_else(|| unreachable!("valid schema"));
    assert_eq!(parsed.types, vec![JsonSchemaType::Array]);
    let items = parsed.items.unwrap_or_else(|| unreachable!("items given"));
    assert_eq!(items.types, vec![JsonSchemaType::Number]);
}

fn canonical(n: &YamlNumber) -> Option<String> {
    let value = f64::from_bits(n.double_bits);
    if value.is_finite() {
        Some(value.to_string())
    } else {
        None
    }
}

fn numbers(value: &LogicalValue, text: &String) -> Option<NumericOrder> {
    let bound = text.parse::<f64>().ok()?;
    let number = match value {
        LogicalValue::Int64(v) => *v as f64,
        LogicalValue::Number(bits) => f64::from_bits(*bits),
        _ => return None,
    };
    Some(match number.partial_cmp(&bound) {
        Some(std::cmp::Ordering::Less) => NumericOrder::Below,
        Some(std::cmp::Ordering::Equal) => NumericOrder::Equal,
        Some(std::cmp::Ordering::Greater) => NumericOrder::Above,
        None => NumericOrder::Unordered,
    })
}

fn integer(value: i64) -> YamlValue {
    YamlValue::Number(YamlNumber {
        integer: Some(value),
        unsigned: u64::try_from(value).ok(),
        double_bits: (value as f64).to_bits(),
    })
}

fn double(value: f64) -> YamlValue {
    YamlValue::Number(YamlNumber { integer: None, unsigned: None, double_bits: value.to_bits() })
}

fn column(logical_type: Option<&str>) -> RawCatalogColumn {
    RawCatalogColumn {
        logical_type: logical_type.map(str::to_owned),
        representation: None,
        storage: None,
        nullable: None,
        format: None,
        constraints: None,
        json_schema: None,
    }
}

fn projects(extra: Vec<(&str, RawCatalogColumn)>) -> RawCatalogManifest {
    let mut columns = TextMap::new();
    columns.insert("id".to_owned(), column(Some("string")));
    columns.insert("tenant_id".to_owned(), column(Some("string")));
    columns.insert("name".to_owned(), column(Some("string")));
    columns.insert("status".to_owned(), column(Some("string")));
    for (name, value) in extra {
        columns.insert(name.to_owned(), value);
    }
    let mut resources = TextMap::new();
    resources.insert("projects".to_owned(), RawCatalogResource { table: "projects".to_owned(), columns });
    RawCatalogManifest { version: 1, resources }
}

fn snapshot(name: &str) -> SnapshotId {
    SnapshotId::new(name).unwrap_or_else(|error| unreachable!("valid snapshot: {error:?}"))
}

fn activate(manifest: &RawCatalogManifest, physical: Option<&PhysicalSchema>) -> Result<Catalog, RuntimeError> {
    activate_catalog_with_schema(manifest, snapshot("schema_json"), physical, &canonical, &numbers)
}

#[test]
fn catalog_activation_accepts_only_the_documented_json_schema_subset() {
    let mut metadata = column(Some("json"));
    metadata.representation = Some("object".to_owned());
    metadata.json_schema = Some(map(vec![
        ("$schema", text("https://json-schema.org/draft/2020-12/schema")),
        ("type", text("object")),
        ("additionalProperties", YamlValue::Bool(false)),
        (
            "properties",
            map(vec![("score", map(vec![("anyOf", YamlValue::Sequence(vec![typed("integer"), typed("null")]))]))]),
        ),
    ]));
    let valid = projects(vec![("metadata", metadata)]);
    assert!(activate(&valid, None).is_ok());

    let mut remote = column(Some("json"));
    remote.json_schema = Some(map(vec![("$ref", text("https://example.com/remote-schema.json"))]));
    let invalid = projects(vec![("metadata", remote)]);
    assert!(activate(&invalid, None).is_err());
}

#[test]
fn catalog_retains_storage_format_constraints_and_json_schema() {
    let mut status = column(Some("string"));
    status.storage = Some("text".to_owned());
    status.format = Some("uuid".to_owned());
    status.constraints = Some(map(vec![
        ("minLength", integer(36)),
        ("maxLength", integer(36)),
        ("pattern", text("^[0-9a-f-]+$")),
    ]));
    let mut metadata = column(Some("json"));
    metadata.storage = Some("text".to_owned());
    metadata.representation = Some("object".to_owned());
    metadata.json_schema = Some(map(vec![
        ("type", text("object")),
        ("additionalProperties", YamlValue::Bool(false)),
        ("required", YamlValue::Sequence(vec![text("score")])),
        ("properties", map(vec![("score", typed("integer"))])),
    ]));
    let manifest = projects(vec![("status", status), ("metadata", metadata)]);
    let catalog = activate(&manifest, None).unwrap_or_else(|error| unreachable!("valid Catalog: {error:?}"));
    let resource = catalog.resource("projects").unwrap_or_else(|| unreachable!("resource exists"));
    let status = resource.column("status").unwrap_or_else(|| unreachable!("column exists"));
    assert!(status.value.storage.is_some());
    assert_eq!(status.value.format.as_deref(), Some("uuid"));
    assert_eq!(status.value.constraints.as_ref().and_then(|constraints| constraints.min_length), Some(36));
    assert!(resource.column("metadata").is_some_and(|column| column.value.json_schema.is_some()));

    let mut instant = column(Some("string"));
    instant.format = Some("rfc3339".to_owned());
    let invalid_format = projects(vec![("status", instant)]);
    assert!(activate(&invalid_format, None).is_err());
}

#[test]
fn manifest_version_and_resources_are_checked() {
    let mut manifest = projects(Vec::new());
    manifest.version = 2;
    assert_eq!(activate(&manifest, None).err(), Some(RuntimeError::Rejected(RejectionKind::InvalidRequest)));
    let empty = RawCatalogManifest { version: 1, resources: TextMap::new() };
    assert_eq!(activate(&empty, None).err(), Some(RuntimeError::Rejected(RejectionKind::InvalidRequest)));
    let mut columns = TextMap::new();
    columns.insert("id".to_owned(), column(None));
    let mut resources = TextMap::new();
    resources.insert("projects".to_owned(), RawCatalogResource { table: "projects".to_owned(), columns });
    let untyped = RawCatalogManifest { version: 1, resources };
    assert!(activate(&untyped, None).is_err());
}

#[test]
fn resources_take_identities_in_name_order() {
    let mut resources = TextMap::new();
    for name in ["tasks", "projects"] {
        let mut columns = TextMap::new();
        columns.insert("id".to_owned(), column(Some("int64")));
        resources.insert(name.to_owned(), RawCatalogResource { table: format!("{name}_table"), columns });
    }
    let manifest = RawCatalogManifest { version: 1, resources };
    let catalog = activate(&manifest, None).unwrap_or_else(|error| unreachable!("valid Catalog: {error:?}"));
    let projects = catalog.resource("PROJECTS").unwrap_or_else(|| unreachable!("resource exists"));
    let tasks = catalog.resource("tasks").unwrap_or_else(|| unreachable!("resource exists"));
    assert_eq!(projects.id().get(), 1);
    assert_eq!(tasks.id().get(), 2);
}

fn physical() -> PhysicalSchema {
    let mut columns = TextMap::new();
    for (name, declared, nullable) in [
        ("id", "TEXT", false),
        ("tenant_id", "TEXT", false),
        ("name", "VARCHAR(80)", true),
        ("status", "TEXT", false),
        ("score", "BIGINT", true),
    ] {
        columns.insert(name.to_owned(), PhysicalColumn { declared_type: declared.to_owned(), nullable });
    }
    let mut tables = TextMap::new();
    tables.insert("projects".to_owned(), PhysicalTable { columns });
    PhysicalSchema { tables }
}

#[test]
fn physical_schema_supplies_and_checks_column_facts() {
    let schema = physical();
    let manifest = projects(vec![("score", column(None))]);
    let catalog = activate(&manifest, Some(&schema)).unwrap_or_else(|error| unreachable!("valid Catalog: {error:?}"));
    let resource = catalog.resource("projects").unwrap_or_else(|| unreachable!("resource exists"));
    let score = resource.column("score").unwrap_or_else(|| unreachable!("column exists"));
    assert_eq!(score.value.logical_type, LogicalType::Int64);
    assert_eq!(score.value.representation, ValueRepresentation::String);
    assert_eq!(score.value.storage, Some(StorageClass::Integer));
    assert!(score.value.nullable);
    let name = resource.column("name").unwrap_or_else(|| unreachable!("column exists"));
    assert!(name.value.nullable);

    let missing = projects(vec![("archived", column(Some("boolean")))]);
    assert!(activate(&missing, Some(&schema)).is_err());
    let mut strict = column(Some("string"));
    strict.nullable = Some(false);
    let disagreeing = projects(vec![("name", strict)]);
    assert!(activate(&disagreeing, Some(&schema)).is_err());
    let mut stored = column(Some("string"));
    stored.storage = Some("blob".to_owned());
    let wrong_storage = projects(vec![("status", stored)]);
    assert!(activate(&wrong_storage, Some(&schema)).is_err());
}

#[test]
fn constraints_are_read_and_checked_against_the_type() {
    let value = map(vec![
        ("enum", YamlValue::Sequence(vec![integer(1), double(2.5)])),
        ("minimum", integer(0)),
        ("maximum", double(10.5)),
    ]);
    let parsed = parse_constraints(&value, LogicalType::Number, &canonical, &numbers)
        .unwrap_or_else(|| unreachable!("valid constraints"));
    assert_eq!(
        parsed.allowed,
        vec![ConstraintScalar::Number("1".to_owned()), ConstraintScalar::Number("2.5".to_owned())]
    );
    assert_eq!(parsed.minimum.as_deref(), Some("0"));
    assert_eq!(parsed.maximum.as_deref(), Some("10.5"));
    assert!(parse_constraints(&value, LogicalType::String, &canonical, &numbers).is_none());

    let inverted = map(vec![("minimum", integer(5)), ("maximum", integer(4))]);
    assert!(parse_constraints(&inverted, LogicalType::Integer, &canonical, &numbers).is_none());
    let lengths = map(vec![("minLength", integer(5)), ("maxLength", integer(4))]);
    assert!(parse_constraints(&lengths, LogicalType::String, &canonical, &numbers).is_none());
    let negative = map(vec![("minLength", integer(-1))]);
    assert!(parse_constraints(&negative, LogicalType::String, &canonical, &numbers).is_none());
    let broken = map(vec![("pattern", text("(unclosed"))]);
    assert!(parse_constraints(&broken, LogicalType::String, &canonical, &numbers).is_none());
    let long = map(vec![("pattern", text(&"a".repeat(257)))]);
    assert!(parse_constraints(&long, LogicalType::String, &canonical, &numbers).is_none());
    let infinite = map(vec![("maximum", double(f64::INFINITY))]);
    assert!(parse_constraints(&infinite, LogicalType::Number, &canonical, &numbers).is_none());
    assert!(parse_constraints(&YamlValue::Null, LogicalType::String, &canonical, &numbers).is_none());
    let flags = map(vec![("enum", YamlValue::Sequence(vec![YamlValue::Bool(true)]))]);
    let parsed = parse_constraints(&flags, LogicalType::Boolean, &canonical, &numbers)
        .unwrap_or_else(|| unreachable!("valid constraints"));
    assert_eq!(parsed.allowed, vec![ConstraintScalar::Boolean(true)]);
}

#[test]
fn catalog_build_derives_basic_types_and_rejects_physical_drift() {
    let build = |names: &[&str]| {
        let mut columns = TextMap::new();
        for name in names {
            columns.insert((*name).to_owned(), column(None));
        }
        let mut resources = TextMap::new();
        resources.insert("projects".to_owned(), RawCatalogResource { table: "physical_projects".to_owned(), columns });
        RawCatalogManifest { version: 1, resources }
    };
    let manifest = build(&["id", "title", "score", "payload"]);
    let mut columns = TextMap::new();
    for (name, declared, nullable) in
        [("id", "INTEGER", false), ("title", "TEXT", true), ("score", "REAL", false), ("payload", "BLOB", false)]
    {
        columns.insert(name.to_owned(), PhysicalColumn { declared_type: declared.to_owned(), nullable });
    }
    let mut tables = TextMap::new();
    tables.insert("physical_projects".to_owned(), PhysicalTable { columns });
    let physical = PhysicalSchema { tables };
    let snapshot = SnapshotId::new("schema_introspection")
        .unwrap_or_else(|error| unreachable!("valid snapshot: {error:?}"));
    let catalog = activate_catalog_with_schema(&manifest, snapshot.clone(), Some(&physical), &canonical, &numbers)
        .unwrap_or_else(|error| unreachable!("valid Catalog: {error:?}"));
    let resource = catalog.resource("projects").unwrap_or_else(|| unreachable!("resource exists"));
    assert_eq!(resource.source.as_str(), "physical_projects");
    assert_eq!(resource.column("id").map(|column| column.value.logical_type), Some(LogicalType::Int64));
    assert!(resource.column("title").is_some_and(|column| column.value.nullable));

    let drifted = build(&["id", "title", "score", "missing"]);
    assert!(activate_catalog_with_schema(&drifted, snapshot, Some(&physical), &canonical, &numbers).is_err());
}
