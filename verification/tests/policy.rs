use policysql::catalog::{Catalog, ResourceDescriptor};
use policysql::identity::{
    ColumnName, LogicalType, LogicalValue, ResourceId, ResourceName, SnapshotId, ValueDescriptor,
    ValueRepresentation,
};
use policysql::ir::ColumnUsage;
use policysql::policy::{
    PolicyError, RawCommitCheck, RawCommitHook, RawReturning, activate_commit_checks,
    activate_returning, environment_key, policy_column,
};
use policysql::predicate::{
    ComparisonOperator, PolicyOperand, PolicyPredicate, literal_for_type, parse_predicate,
};
use policysql::text_map::TextMap;
use policysql::yaml::{YamlNumber, YamlValue};

fn descriptor(logical_type: LogicalType) -> ValueDescriptor {
    ValueDescriptor {
        logical_type,
        representation: ValueRepresentation::String,
        nullable: false,
        format: None,
        storage: None,
        constraints: None,
        json_schema: None,
    }
}

fn projects() -> ResourceDescriptor {
    ResourceDescriptor::new(
        ResourceId::new(1).unwrap_or_else(|e| unreachable!("{e:?}")),
        ResourceName::new("projects").unwrap_or_else(|e| unreachable!("{e:?}")),
        vec![
            (ColumnName::new("id").unwrap_or_else(|e| unreachable!("{e:?}")), descriptor(LogicalType::String)),
            (ColumnName::new("tenant_id").unwrap_or_else(|e| unreachable!("{e:?}")), descriptor(LogicalType::String)),
            (ColumnName::new("rank").unwrap_or_else(|e| unreachable!("{e:?}")), descriptor(LogicalType::Int64)),
        ],
    )
    .unwrap_or_else(|e| unreachable!("{e:?}"))
}

fn catalog() -> Catalog {
    Catalog::new(
        SnapshotId::new("policy_1").unwrap_or_else(|e| unreachable!("{e:?}")),
        vec![projects()],
    )
    .unwrap_or_else(|e| unreachable!("{e:?}"))
}

fn text(value: &str) -> YamlValue {
    YamlValue::String(value.to_owned())
}

fn map(entries: Vec<(&str, YamlValue)>) -> YamlValue {
    YamlValue::Mapping(entries.into_iter().map(|(k, v)| (text(k), v)).collect())
}

fn integer(value: i64) -> YamlValue {
    YamlValue::Number(YamlNumber { integer: Some(value), unsigned: u64::try_from(value).ok(), double_bits: (value as f64).to_bits() })
}

fn check(triggered_by: &[&str], timeout_ms: u64, url_env: &str) -> RawCommitCheck {
    RawCommitCheck {
        triggered_by: triggered_by.iter().map(|s| (*s).to_owned()).collect(),
        role: Some("member".to_owned()),
        hook: RawCommitHook {
            url_env: url_env.to_owned(),
            timeout_ms,
            hmac_secret_env: "PROJECT_CHECK_SECRET".to_owned(),
        },
    }
}

#[test]
fn commit_checks_are_resolved_sorted_and_fail_closed() {
    let mut raw = TextMap::new();
    raw.insert("project_consistency".to_owned(), check(&["projects", "PROJECTS"], 1500, "PROJECT_CHECK_URL"));
    let checks = activate_commit_checks(&raw, &catalog()).unwrap_or_else(|e| unreachable!("{e:?}"));
    assert_eq!(checks.len(), 1);
    assert_eq!(checks[0].id, "project_consistency");
    assert_eq!(checks[0].triggered_by.len(), 1);
    assert_eq!(checks[0].role.as_ref().map(|r| r.as_str()), Some("member"));
    let mut bad = TextMap::new();
    bad.insert("bad".to_owned(), check(&["missing"], 0, "bad"));
    assert_eq!(activate_commit_checks(&bad, &catalog()).map(|v| v.len()), Err(PolicyError::InvalidBundle));
    let mut unknown = TextMap::new();
    unknown.insert("check".to_owned(), check(&["missing"], 10, "URL"));
    assert_eq!(activate_commit_checks(&unknown, &catalog()).map(|v| v.len()), Err(PolicyError::UnknownResource));
    let mut many = TextMap::new();
    for id in ["a", "b", "c", "d", "e"] {
        many.insert(id.to_owned(), check(&["projects"], 10, "URL"));
    }
    assert_eq!(activate_commit_checks(&many, &catalog()).map(|v| v.len()), Err(PolicyError::InvalidBundle));
}

#[test]
fn environment_keys_are_upper_snake_case() {
    assert!(environment_key("PROJECT_CHECK_URL"));
    assert!(environment_key("_X1"));
    assert!(!environment_key("1X"));
    assert!(!environment_key("url"));
    assert!(!environment_key(""));
}

#[test]
fn returning_lists_name_each_column_once() {
    let resource = projects();
    let none = activate_returning(&None, &resource).unwrap_or_else(|e| unreachable!("{e:?}"));
    assert_eq!(none.len(), 0);
    let some = activate_returning(
        &Some(RawReturning { columns: vec!["id".to_owned(), "tenant_id".to_owned()] }),
        &resource,
    )
    .unwrap_or_else(|e| unreachable!("{e:?}"));
    assert_eq!(some.len(), 2);
    assert_eq!(
        activate_returning(&Some(RawReturning { columns: vec!["id".to_owned(), "ID".to_owned()] }), &resource)
            .map(|s| s.len()),
        Err(PolicyError::DuplicateColumnPermission)
    );
    assert_eq!(
        activate_returning(&Some(RawReturning { columns: Vec::new() }), &resource).map(|s| s.len()),
        Err(PolicyError::InvalidBundle)
    );
    assert_eq!(
        activate_returning(&Some(RawReturning { columns: vec!["nope".to_owned()] }), &resource)
            .map(|s| s.len()),
        Err(PolicyError::UnknownColumn)
    );
}

#[test]
fn tenant_filter_activates_into_a_session_comparison() {
    let resource = projects();
    let filter = map(vec![("tenant_id", map(vec![("eq", map(vec![("session", text("tenant_id"))]))]))]);
    let predicate = parse_predicate(&filter, &resource).unwrap_or_else(|e| unreachable!("{e:?}"));
    match predicate {
        PolicyPredicate::Comparison { column, operator, operand } => {
            assert_eq!(operator, ComparisonOperator::Equal);
            assert_eq!(column.usage, ColumnUsage::PolicyFilter);
            assert_eq!(column.id.ordinal(), 1);
            assert!(matches!(operand, PolicyOperand::Session(key) if key.as_str() == "tenant_id"));
        }
        other => unreachable!("unexpected predicate {other:?}"),
    }
}

#[test]
fn policy_activation_fails_closed_on_unknown_operator() {
    let resource = projects();
    let filter = map(vec![("tenant_id", map(vec![("matches", text("x"))]))]);
    assert!(matches!(parse_predicate(&filter, &resource), Err(PolicyError::UnknownOperator)));
    let filter = map(vec![("missing", map(vec![("eq", text("x"))]))]);
    assert!(matches!(parse_predicate(&filter, &resource), Err(PolicyError::UnknownColumn)));
    let filter = map(vec![("rank", map(vec![("like", text("x"))]))]);
    assert!(matches!(parse_predicate(&filter, &resource), Err(PolicyError::IncompatibleOperand)));
    let filter = map(vec![("and", YamlValue::Sequence(Vec::new()))]);
    assert!(matches!(parse_predicate(&filter, &resource), Err(PolicyError::InvalidPredicate)));
    let filter = map(vec![("rank", map(vec![("eq", YamlValue::Null)]))]);
    assert!(matches!(parse_predicate(&filter, &resource), Err(PolicyError::NullComparison)));
}

#[test]
fn nested_groups_and_lists_activate_in_order() {
    let resource = projects();
    let filter = map(vec![(
        "or",
        YamlValue::Sequence(vec![
            map(vec![("rank", map(vec![("in", YamlValue::Sequence(vec![integer(1), integer(2)]))]))]),
            map(vec![("not", map(vec![("id", map(vec![("is_null", YamlValue::Bool(true))]))]))]),
            YamlValue::Tagged(Box::new(map(vec![("id", map(vec![("neq", map(vec![("column", text("tenant_id"))]))]))]))),
        ]),
    )]);
    let predicate = parse_predicate(&filter, &resource).unwrap_or_else(|e| unreachable!("{e:?}"));
    let PolicyPredicate::Or(items) = predicate else { unreachable!("an or group") };
    assert_eq!(items.len(), 3);
    assert!(matches!(&items[0], PolicyPredicate::In { values, negated: false, .. }
        if values == &vec![LogicalValue::Int64(1), LogicalValue::Int64(2)]));
    assert!(matches!(&items[1], PolicyPredicate::Not(inner)
        if matches!(**inner, PolicyPredicate::IsNull { is_null: true, .. })));
    assert!(matches!(&items[2], PolicyPredicate::Comparison { operand: PolicyOperand::Column(c), .. }
        if c.id.ordinal() == 1));
}

#[test]
fn literals_take_the_column_type() {
    assert_eq!(literal_for_type(&text("a"), LogicalType::Date), Ok(LogicalValue::String("a".to_owned())));
    assert_eq!(literal_for_type(&integer(3), LogicalType::Integer), Ok(LogicalValue::Int64(3)));
    assert_eq!(literal_for_type(&integer(3), LogicalType::Number), Ok(LogicalValue::Number(3.0f64.to_bits())));
    assert_eq!(literal_for_type(&text("3"), LogicalType::Int64), Err(PolicyError::IncompatibleOperand));
    assert_eq!(literal_for_type(&YamlValue::Bool(true), LogicalType::Json), Err(PolicyError::UnsupportedCapability));
    assert_eq!(literal_for_type(&YamlValue::Tagged(Box::new(YamlValue::Null)), LogicalType::Json), Err(PolicyError::NullComparison));
}

#[test]
fn policy_columns_resolve_case_insensitively() {
    let resource = projects();
    let column = policy_column(&resource, "TENANT_ID", ColumnUsage::Projection)
        .unwrap_or_else(|e| unreachable!("{e:?}"));
    assert_eq!(column.id.ordinal(), 1);
    assert_eq!(column.logical_type, LogicalType::String);
    assert_eq!(policy_column(&resource, "missing", ColumnUsage::Filter), Err(PolicyError::UnknownColumn));
}
