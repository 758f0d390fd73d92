use policysql::activation::{RawColumn, RawDelete, RawInsert, RawRole, RawSelect, RawUpdate};
use policysql::bundle::{PolicyBundle, RawBundle, RawResource};
use policysql::catalog::{Catalog, ResourceDescriptor};
use policysql::catalog_view::catalog_view;
use policysql::compile::CompileOutput;
use policysql::execution::ExecutionLimits;
use policysql::gateway::{AuthContext, BoundRequest, EndpointPermission, Gateway, GatewayError, RejectionKind};
use policysql::identity::{
    ClientParameterName, ColumnId, ColumnName, LogicalType, LogicalValue, ResourceId, ResourceName,
    ResultName, RoleName, SessionKey, SnapshotId, TrustedSession, ValueDescriptor,
    ValueRepresentation,
};
use policysql::ir::{
    BoundAssignment, BoundColumn, BoundConstantSelect, BoundDelete, BoundExpr, BoundInsert,
    BoundJoin, BoundJsonCollectionSelect, BoundOrder, BoundProjection, BoundSelect, BoundStatement,
    BoundUpdate, ColumnUsage, JoinKind, SortDirection,
};
use policysql::policy::{PolicyError, RawReturning};
use policysql::text_map::TextMap;
use policysql::yaml::YamlValue;

fn descriptor() -> ValueDescriptor {
    ValueDescriptor {
        logical_type: LogicalType::String,
        representation: ValueRepresentation::String,
        nullable: false,
        format: None,
        storage: None,
        constraints: None,
        json_schema: None,
    }
}

const COLUMNS: [&str; 6] = ["id", "tenant_id", "name", "status", "created_by", "private_note"];

fn projects() -> ResourceDescriptor {
    ResourceDescriptor::new(
        ResourceId::new(1).unwrap_or_else(|e| unreachable!("{e:?}")),
        ResourceName::new("projects").unwrap_or_else(|e| unreachable!("{e:?}")),
        COLUMNS
            .iter()
            .map(|name| (ColumnName::new(name).unwrap_or_else(|e| unreachable!("{e:?}")), descriptor()))
            .collect(),
    )
    .unwrap_or_else(|e| unreachable!("{e:?}"))
}

fn tasks() -> ResourceDescriptor {
    ResourceDescriptor::new(
        ResourceId::new(2).unwrap_or_else(|e| unreachable!("{e:?}")),
        ResourceName::new("tasks").unwrap_or_else(|e| unreachable!("{e:?}")),
        ["id", "tenant_id", "project_id"]
            .iter()
            .map(|name| (ColumnName::new(name).unwrap_or_else(|e| unreachable!("{e:?}")), descriptor()))
            .collect(),
    )
    .unwrap_or_else(|e| unreachable!("{e:?}"))
}

fn catalog() -> Catalog {
    Catalog::new(SnapshotId::new("schema_1").unwrap_or_else(|e| unreachable!("{e:?}")), vec![projects(), tasks()])
        .unwrap_or_else(|e| unreachable!("{e:?}"))
}

fn column(resource: &ResourceDescriptor, name: &str, usage: ColumnUsage) -> BoundColumn {
    let c = resource.column(name).unwrap_or_else(|| unreachable!("{name}"));
    BoundColumn { id: c.id, logical_type: c.value.logical_type, usage }
}

fn id_of(resource: &ResourceDescriptor, name: &str) -> ColumnId {
    column(resource, name, ColumnUsage::Projection).id
}

fn text(value: &str) -> YamlValue {
    YamlValue::String(value.to_owned())
}

fn map(entries: Vec<(&str, YamlValue)>) -> YamlValue {
    YamlValue::Mapping(entries.into_iter().map(|(k, v)| (text(k), v)).collect())
}

fn session_eq(column: &str, key: &str) -> YamlValue {
    map(vec![(column, map(vec![("eq", map(vec![("session", text(key))]))]))])
}

fn tenant_filter() -> YamlValue {
    session_eq("tenant_id", "tenant_id")
}

fn select_policy(columns: Vec<RawColumn>, limit: Option<u64>) -> RawSelect {
    RawSelect { columns, filter: tenant_filter(), limit, allow_aggregations: true, allow_windows: false }
}

fn regular(names: &[&str]) -> Vec<RawColumn> {
    names.iter().map(|n| RawColumn::Regular((*n).to_owned())).collect()
}

fn role(select: Option<RawSelect>) -> RawRole {
    RawRole { select, insert: None, update: None, delete: None }
}

fn bundle(resources: Vec<(&str, RawRole)>) -> PolicyBundle {
    let mut all = TextMap::new();
    for (name, member) in resources {
        let mut roles = TextMap::new();
        roles.insert("member".to_owned(), member);
        all.insert(name.to_owned(), RawResource { roles });
    }
    let raw = RawBundle { version: 1, resources: all, commit_checks: TextMap::new() };
    PolicyBundle::activate(&raw, &catalog(), SnapshotId::new("policy_1").unwrap_or_else(|e| unreachable!("{e:?}")))
        .unwrap_or_else(|e| unreachable!("{e:?}"))
}

fn session(role_name: &str) -> TrustedSession {
    let mut values = TextMap::new();
    values.insert("tenant_id".to_owned(), "tenant_1".to_owned());
    TrustedSession::new(RoleName::new(role_name).unwrap_or_else(|e| unreachable!("{e:?}")), "user_1", values)
        .unwrap_or_else(|e| unreachable!("{e:?}"))
}

fn output(name: &str) -> ResultName {
    ResultName::new(name).unwrap_or_else(|e| unreachable!("{e:?}"))
}

fn projection(resource: &ResourceDescriptor, name: &str) -> BoundProjection {
    BoundProjection { expression: BoundExpr::Column(column(resource, name, ColumnUsage::Projection)), output_name: output(name) }
}

fn literal(value: &str) -> BoundExpr {
    BoundExpr::Literal(LogicalValue::String(value.to_owned()))
}

fn equals(resource: &ResourceDescriptor, name: &str, value: &str) -> BoundExpr {
    BoundExpr::Equal(
        Box::new(BoundExpr::Column(column(resource, name, ColumnUsage::Filter))),
        Box::new(literal(value)),
    )
}

fn select(projections: Vec<BoundProjection>, predicate: Option<BoundExpr>) -> BoundSelect {
    BoundSelect {
        resource: ResourceId::new(1).unwrap_or_else(|e| unreachable!("{e:?}")),
        alias: None,
        joins: Vec::new(),
        projections,
        predicate,
        group_by: Vec::new(),
        having: None,
        order_by: Vec::new(),
        limit: None,
        offset: None,
    }
}

fn compiled_select(out: &CompileOutput) -> &BoundSelect {
    match &out.plan.statement {
        BoundStatement::Select(s) => s,
        other => unreachable!("{other:?}"),
    }
}

#[test]
fn composes_fixture_policy_with_caller_predicate_and_limit() {
    let p = projects();
    let policies = bundle(vec![("projects", role(Some(select_policy(regular(&["id", "name", "status"]), Some(100)))))]);
    let mut statement = select(vec![projection(&p, "id"), projection(&p, "name")], Some(equals(&p, "status", "active")));
    let limit = ClientParameterName::new("limit").unwrap_or_else(|e| unreachable!("{e:?}"));
    statement.limit = Some(BoundExpr::ClientParameter { name: limit, logical_type: LogicalType::Int64 });
    let out = policies
        .compile_select(BoundStatement::Select(Box::new(statement)), &session("member"))
        .unwrap_or_else(|e| unreachable!("{e:?}"));
    let protected = compiled_select(&out);
    assert!(matches!(protected.predicate, Some(BoundExpr::And(_, _))));
    assert!(matches!(protected.limit, Some(BoundExpr::Least(_, _))));
    assert_eq!(out.plan.server_values.len(), 1);
    assert_eq!(out.plan.server_values.key_at(0), "__policysql_session_tenant_id");
    assert_eq!(out.plan.server_values.value_at(0), &LogicalValue::String("tenant_1".to_owned()));
    assert_eq!(out.plan.policy_limit, Some(100));
    assert_eq!(out.explain.applied_policies.len(), 1);
    assert_eq!(out.explain.referenced_columns.len(), 3);
    assert_eq!(out.explain.resources, vec![ResourceId::new(1).unwrap_or_else(|e| unreachable!("{e:?}"))]);
}

#[test]
fn denies_forbidden_filter_column_and_missing_policy() {
    let p = projects();
    let policies = bundle(vec![("projects", role(Some(select_policy(regular(&["id"]), None))))]);
    let attack = || select(vec![projection(&p, "id")], Some(equals(&p, "private_note", "x")));
    assert_eq!(
        policies.compile_select(BoundStatement::Select(Box::new(attack())), &session("member")).map(|o| o.explain.applied_policies.len()),
        Err(PolicyError::ForbiddenColumn)
    );
    assert_eq!(
        policies.compile_select(BoundStatement::Select(Box::new(attack())), &session("guest")).map(|o| o.explain.applied_policies.len()),
        Err(PolicyError::MissingPolicy)
    );
}

#[test]
fn conditional_column_is_projection_only_and_uses_real_session() {
    let p = projects();
    let columns = vec![
        RawColumn::Regular("id".to_owned()),
        RawColumn::Conditional {
            name: "private_note".to_owned(),
            visible_if: session_eq("created_by", "subject_id"),
            on_deny: YamlValue::Null,
        },
    ];
    let policies = bundle(vec![("projects", role(Some(select_policy(columns, Some(10)))))]);
    let out = policies
        .compile_select(
            BoundStatement::Select(Box::new(select(vec![projection(&p, "id"), projection(&p, "private_note")], None))),
            &session("member"),
        )
        .unwrap_or_else(|e| unreachable!("{e:?}"));
    let protected = compiled_select(&out);
    assert!(matches!(protected.projections[0].expression, BoundExpr::Column(_)));
    assert!(matches!(protected.projections[1].expression, BoundExpr::ConditionalOutput { .. }));
    let subject = SessionKey::new("subject_id").unwrap_or_else(|e| unreachable!("{e:?}"));
    assert_eq!(session("member").get(&subject), Some("user_1"));
    assert_eq!(out.plan.server_values.len(), 2);
    assert_eq!(protected.limit, Some(BoundExpr::Literal(LogicalValue::Int64(10))));
    let filtered = policies.compile_select(
        BoundStatement::Select(Box::new(select(vec![projection(&p, "id")], Some(equals(&p, "private_note", "x"))))),
        &session("member"),
    );
    assert_eq!(filtered.map(|o| o.plan.policy_limit), Err(PolicyError::ForbiddenColumn));
}

#[test]
fn order_by_requires_regular_column_permission() {
    let p = projects();
    let policies = bundle(vec![("projects", role(Some(select_policy(regular(&["id"]), None))))]);
    let mut statement = select(vec![projection(&p, "id")], None);
    statement.order_by = vec![BoundOrder {
        expression: BoundExpr::Column(column(&p, "private_note", ColumnUsage::Order)),
        direction: SortDirection::Ascending,
    }];
    assert_eq!(
        policies.compile_select(BoundStatement::Select(Box::new(statement)), &session("member")).map(|o| o.plan.policy_limit),
        Err(PolicyError::ForbiddenColumn)
    );
}

#[test]
fn client_limits_take_the_smaller_policy_cap() {
    let p = projects();
    let policies = bundle(vec![("projects", role(Some(select_policy(regular(&["id"]), Some(50)))))]);
    for (client, expected) in [(10, 10), (500, 50)] {
        let mut statement = select(vec![projection(&p, "id")], None);
        statement.limit = Some(BoundExpr::Literal(LogicalValue::Int64(client)));
        let out = policies
            .compile_select(BoundStatement::Select(Box::new(statement)), &session("member"))
            .unwrap_or_else(|e| unreachable!("{e:?}"));
        assert_eq!(compiled_select(&out).limit, Some(BoundExpr::Literal(LogicalValue::Int64(expected))));
    }
}

#[test]
fn hidden_and_unknown_projections_are_refused() {
    let p = projects();
    let policies = bundle(vec![("projects", role(Some(select_policy(regular(&["id"]), None))))]);
    let hidden = select(vec![projection(&p, "name")], None);
    assert_eq!(
        policies.compile_select(BoundStatement::Select(Box::new(hidden)), &session("member")).map(|o| o.plan.policy_limit),
        Err(PolicyError::ForbiddenColumn)
    );
    let computed = select(vec![BoundProjection { expression: literal("x"), output_name: output("x") }], None);
    assert_eq!(
        policies.compile_select(BoundStatement::Select(Box::new(computed)), &session("member")).map(|o| o.plan.policy_limit),
        Err(PolicyError::ForbiddenColumnContext)
    );
}

#[test]
fn joins_take_their_own_filters() {
    let p = projects();
    let t = tasks();
    let policies = bundle(vec![
        ("projects", role(Some(select_policy(regular(&["id", "tenant_id"]), Some(20))))),
        ("tasks", role(Some(select_policy(regular(&["id", "project_id"]), Some(5))))),
    ]);
    let on = BoundExpr::Equal(
        Box::new(BoundExpr::Column(column(&t, "project_id", ColumnUsage::Join))),
        Box::new(BoundExpr::Column(column(&p, "id", ColumnUsage::Join))),
    );
    let mut inner = select(vec![projection(&p, "id")], None);
    inner.joins = vec![BoundJoin { resource: t.id(), alias: None, kind: JoinKind::Inner, on }];
    let out = policies
        .compile_select(BoundStatement::Select(Box::new(inner)), &session("member"))
        .unwrap_or_else(|e| unreachable!("{e:?}"));
    let protected = compiled_select(&out);
    assert!(matches!(&protected.predicate, Some(BoundExpr::And(left, _)) if matches!(**left, BoundExpr::Equal(_, _))));
    assert!(matches!(protected.joins[0].on, BoundExpr::Equal(_, _)));
    assert_eq!(out.plan.policy_limit, Some(5));
    assert_eq!(out.plan.applied_policies.len(), 2);
    assert_eq!(out.explain.resources.len(), 2);

    let on = BoundExpr::Equal(
        Box::new(BoundExpr::Column(column(&t, "project_id", ColumnUsage::Join))),
        Box::new(BoundExpr::Column(column(&p, "id", ColumnUsage::Join))),
    );
    let mut left = select(vec![projection(&p, "id")], None);
    left.joins = vec![BoundJoin { resource: t.id(), alias: None, kind: JoinKind::Left, on }];
    let out = policies
        .compile_select(BoundStatement::Select(Box::new(left)), &session("member"))
        .unwrap_or_else(|e| unreachable!("{e:?}"));
    let protected = compiled_select(&out);
    assert!(matches!(protected.joins[0].on, BoundExpr::And(_, _)));
    assert!(matches!(protected.predicate, Some(BoundExpr::Equal(_, _))));
}

#[test]
fn nested_selects_are_filtered_and_capped() {
    let p = projects();
    let t = tasks();
    let policies = bundle(vec![
        ("projects", role(Some(select_policy(regular(&["id", "tenant_id"]), None)))),
        ("tasks", role(Some(select_policy(regular(&["id", "project_id"]), Some(3))))),
    ]);
    let mut nested = select(vec![BoundProjection {
        expression: BoundExpr::Column(column(&t, "id", ColumnUsage::Projection)),
        output_name: output("id"),
    }], None);
    nested.resource = t.id();
    let statement = select(vec![projection(&p, "id")], Some(BoundExpr::Exists(Box::new(nested))));
    let out = policies
        .compile_select(BoundStatement::Select(Box::new(statement)), &session("member"))
        .unwrap_or_else(|e| unreachable!("{e:?}"));
    let protected = compiled_select(&out);
    let Some(BoundExpr::And(left, _)) = &protected.predicate else { unreachable!("root filter") };
    let BoundExpr::Exists(inner) = &**left else { unreachable!("nested select") };
    assert!(matches!(inner.predicate, Some(BoundExpr::Equal(_, _))));
    assert_eq!(inner.limit, Some(BoundExpr::Literal(LogicalValue::Int64(3))));
    assert_eq!(out.explain.resources.len(), 2);
}

#[test]
fn constant_selects_meet_no_policy() {
    let policies = bundle(vec![("projects", role(Some(select_policy(regular(&["id"]), None))))]);
    let statement = BoundStatement::ConstantSelect(BoundConstantSelect {
        projections: vec![BoundProjection { expression: literal("x"), output_name: output("x") }],
    });
    let out = policies.compile_select(statement, &session("guest")).unwrap_or_else(|e| unreachable!("{e:?}"));
    assert!(matches!(out.plan.statement, BoundStatement::ConstantSelect(_)));
    assert_eq!(out.plan.applied_policies.len(), 0);
    assert_eq!(out.explain.resource, None);
    assert_eq!(out.explain.referenced_columns.len(), 0);
}

#[test]
fn json_collections_need_aggregation_and_a_readable_document() {
    let p = projects();
    let policies = bundle(vec![("projects", role(Some(select_policy(regular(&["id", "name"]), None))))]);
    let collection = |document: &str| BoundStatement::JsonCollectionSelect(BoundJsonCollectionSelect {
        resource: p.id(),
        alias: None,
        document: column(&p, document, ColumnUsage::Projection),
        path: literal("$.items"),
        recursive: false,
        output_name: output("items"),
        predicate: None,
    });
    let out = policies.compile_select(collection("name"), &session("member")).unwrap_or_else(|e| unreachable!("{e:?}"));
    assert_eq!(out.plan.expected_result_rows, Some(1));
    assert!(matches!(&out.plan.statement, BoundStatement::JsonCollectionSelect(s) if s.predicate.is_some()));
    assert_eq!(
        policies.compile_select(collection("private_note"), &session("member")).map(|o| o.plan.policy_limit),
        Err(PolicyError::UnsupportedCapability)
    );
}

#[test]
fn writes_are_not_reads() {
    let p = projects();
    let policies = bundle(vec![("projects", role(Some(select_policy(regular(&["id"]), None))))]);
    let statement = BoundStatement::Delete(BoundDelete { resource: p.id(), predicate: None, returning: Vec::new() });
    assert_eq!(
        policies.compile_select(statement, &session("member")).map(|o| o.plan.policy_limit),
        Err(PolicyError::UnsupportedCapability)
    );
}

fn write_role() -> RawRole {
    let mut presets = TextMap::new();
    presets.insert("tenant_id".to_owned(), map(vec![("session", text("tenant_id"))]));
    presets.insert("created_by".to_owned(), map(vec![("session", text("subject_id"))]));
    let mut update_presets = TextMap::new();
    update_presets.insert("status".to_owned(), text("edited"));
    RawRole {
        select: None,
        insert: Some(RawInsert {
            columns: vec!["id".to_owned(), "name".to_owned()],
            presets,
            check: tenant_filter(),
            returning: Some(RawReturning { columns: vec!["id".to_owned()] }),
        }),
        update: Some(RawUpdate {
            columns: vec!["name".to_owned()],
            presets: update_presets,
            filter: tenant_filter(),
            check: tenant_filter(),
            returning: None,
        }),
        delete: Some(RawDelete { filter: tenant_filter(), returning: None }),
    }
}

fn assignment(resource: &ResourceDescriptor, name: &str, value: &str) -> BoundAssignment {
    BoundAssignment { column: column(resource, name, ColumnUsage::Write), value: literal(value) }
}

#[test]
fn inserts_get_presets_in_column_order_and_a_check() {
    let p = projects();
    let policies = bundle(vec![("projects", write_role())]);
    let insert = BoundInsert {
        resource: p.id(),
        rows: vec![vec![assignment(&p, "id", "p1"), assignment(&p, "name", "one")], vec![assignment(&p, "id", "p2")]],
        returning: vec![projection(&p, "id")],
    };
    let out = policies.compile_insert(BoundStatement::Insert(insert), &session("member")).unwrap_or_else(|e| unreachable!("{e:?}"));
    let BoundStatement::Insert(protected) = &out.plan.statement else { unreachable!("insert") };
    assert_eq!(protected.rows[0].len(), 4);
    assert_eq!(protected.rows[1].len(), 3);
    assert_eq!(protected.rows[0][2].column.id, id_of(&p, "tenant_id"));
    assert_eq!(protected.rows[0][3].column.id, id_of(&p, "created_by"));
    assert_eq!(protected.rows[0][3].column.usage, ColumnUsage::Write);
    assert!(out.plan.operation_check.is_some());
    assert_eq!(out.plan.expected_affected_rows, Some(2));
    assert_eq!(out.plan.server_values.len(), 2);

    let overlap = BoundInsert { resource: p.id(), rows: vec![vec![assignment(&p, "tenant_id", "t")]], returning: Vec::new() };
    assert_eq!(
        policies.compile_insert(BoundStatement::Insert(overlap), &session("member")).map(|o| o.plan.expected_affected_rows),
        Err(PolicyError::ForbiddenColumn)
    );
    let returning = BoundInsert { resource: p.id(), rows: Vec::new(), returning: vec![projection(&p, "name")] };
    assert_eq!(
        policies.compile_insert(BoundStatement::Insert(returning), &session("member")).map(|o| o.plan.expected_affected_rows),
        Err(PolicyError::ForbiddenColumn)
    );
    let empty = BoundInsert { resource: p.id(), rows: Vec::new(), returning: Vec::new() };
    let out = policies.compile_insert(BoundStatement::Insert(empty), &session("member")).unwrap_or_else(|e| unreachable!("{e:?}"));
    assert_eq!(out.plan.expected_affected_rows, Some(0));
    assert_eq!(out.plan.server_values.len(), 1);
}

#[test]
fn updates_and_deletes_are_filtered() {
    let p = projects();
    let policies = bundle(vec![("projects", write_role())]);
    let update = BoundUpdate {
        resource: p.id(),
        assignments: vec![assignment(&p, "name", "renamed")],
        predicate: Some(equals(&p, "id", "p1")),
        returning: Vec::new(),
    };
    let out = policies.compile_update(BoundStatement::Update(update), &session("member")).unwrap_or_else(|e| unreachable!("{e:?}"));
    let BoundStatement::Update(protected) = &out.plan.statement else { unreachable!("update") };
    assert_eq!(protected.assignments.len(), 2);
    assert_eq!(protected.assignments[1].value, literal("edited"));
    assert!(matches!(protected.predicate, Some(BoundExpr::And(_, _))));
    assert!(out.plan.operation_check.is_some());

    let forbidden = BoundUpdate { resource: p.id(), assignments: vec![assignment(&p, "id", "x")], predicate: None, returning: Vec::new() };
    assert_eq!(
        policies.compile_update(BoundStatement::Update(forbidden), &session("member")).map(|o| o.plan.policy_limit),
        Err(PolicyError::ForbiddenColumn)
    );

    let delete = BoundDelete { resource: p.id(), predicate: None, returning: Vec::new() };
    let out = policies.compile_delete(BoundStatement::Delete(delete), &session("member")).unwrap_or_else(|e| unreachable!("{e:?}"));
    let BoundStatement::Delete(protected) = &out.plan.statement else { unreachable!("delete") };
    assert!(matches!(protected.predicate, Some(BoundExpr::Equal(_, _))));
    assert_eq!(out.explain.applied_policies.len(), 1);
    let delete = BoundDelete { resource: p.id(), predicate: None, returning: Vec::new() };
    assert_eq!(
        policies.compile_delete(BoundStatement::Delete(delete), &session("guest")).map(|o| o.plan.policy_limit),
        Err(PolicyError::MissingPolicy)
    );
}

fn activation_of(member: RawRole) -> Result<PolicyBundle, PolicyError> {
    let mut roles = TextMap::new();
    roles.insert("member".to_owned(), member);
    let mut resources = TextMap::new();
    resources.insert("projects".to_owned(), RawResource { roles });
    let raw = RawBundle { version: 1, resources, commit_checks: TextMap::new() };
    PolicyBundle::activate(&raw, &catalog(), SnapshotId::new("policy_1").unwrap_or_else(|e| unreachable!("{e:?}")))
}

#[test]
fn activation_rejects_unknown_columns_mutations_and_incompatible_values() {
    let unknown_column = role(Some(RawSelect {
        columns: regular(&["does_not_exist"]),
        filter: map(vec![("tenant_id", map(vec![("eq", text("x"))]))]),
        limit: None,
        allow_aggregations: false,
        allow_windows: false,
    }));
    // `insert: { columns: [id] }` names no `check`; what reaches activation
    // in its place is a null predicate.
    let unchecked_insert = RawRole {
        select: None,
        insert: Some(RawInsert { columns: vec!["id".to_owned()], presets: TextMap::new(), check: YamlValue::Null, returning: None }),
        update: None,
        delete: None,
    };
    let incompatible_value = role(Some(RawSelect {
        columns: regular(&["id"]),
        filter: map(vec![("id", map(vec![("eq", YamlValue::Bool(true))]))]),
        limit: None,
        allow_aggregations: false,
        allow_windows: false,
    }));
    for member in [unknown_column, unchecked_insert, incompatible_value] {
        assert!(activation_of(member).is_err());
    }
}

#[test]
fn catalog_view_lists_what_the_role_may_read_and_write() {
    let p = projects();
    let columns = vec![
        RawColumn::Regular("id".to_owned()),
        RawColumn::Regular("name".to_owned()),
        RawColumn::Conditional {
            name: "private_note".to_owned(),
            visible_if: session_eq("created_by", "subject_id"),
            on_deny: YamlValue::Null,
        },
    ];
    let member = RawRole {
        select: Some(select_policy(columns, None)),
        insert: Some(RawInsert {
            columns: vec!["id".to_owned(), "name".to_owned()],
            presets: TextMap::new(),
            check: tenant_filter(),
            returning: Some(RawReturning { columns: vec!["id".to_owned()] }),
        }),
        update: None,
        delete: None,
    };
    let policies = bundle(vec![("projects", member)]);
    let role = RoleName::new("member").unwrap_or_else(|e| unreachable!("{e:?}"));
    let view = catalog_view(&catalog(), &policies, &role, 500);
    assert_eq!(view.len(), 1);
    let projects_view = &view[0];
    assert_eq!(projects_view.id, p.id);
    let shown: Vec<(ColumnId, bool)> =
        projects_view.select.columns.iter().map(|c| (c.id, c.nullable_on_denied)).collect();
    assert_eq!(
        shown,
        vec![(id_of(&p, "id"), false), (id_of(&p, "name"), false), (id_of(&p, "private_note"), true)]
    );
    assert_eq!(projects_view.select.max_rows, 500);
    assert!(projects_view.select.allow_aggregations);
    let insert = projects_view.insert.as_ref().unwrap_or_else(|| unreachable!("insert policy"));
    assert_eq!(insert.columns, vec![id_of(&p, "id"), id_of(&p, "name")]);
    assert_eq!(insert.returning, vec![id_of(&p, "id")]);
    assert!(projects_view.update.is_none() && projects_view.delete.is_none());
    let other = RoleName::new("auditor").unwrap_or_else(|e| unreachable!("{e:?}"));
    assert!(catalog_view(&catalog(), &policies, &other, 500).is_empty());
}

#[test]
fn catalog_listings_match_their_inputs() {
    let c = catalog();
    let listed = c.resources();
    assert_eq!(listed.len(), 2);
    assert_eq!(listed[0].name.as_str(), "projects");
    assert_eq!(listed[1].name.as_str(), "tasks");
    assert_eq!(c.resource("PROJECTS").map(|r| r.id), Some(projects().id));
    assert!(c.resource("missing").is_none());
    let p = projects();
    assert_eq!(p.columns().len(), COLUMNS.len());
    for column in p.columns() {
        assert_eq!(p.column_by_id(column.id).map(|c| c.id), Some(column.id));
        assert_eq!(column.id.resource(), p.id);
        assert!((column.id.ordinal() as usize) < COLUMNS.len());
    }
    let names: Vec<&str> = p.columns().iter().map(|c| c.name.as_str()).collect();
    let mut sorted = names.clone();
    sorted.sort_unstable();
    assert_eq!(names, sorted);
}

fn gateway_of(policies: PolicyBundle) -> Gateway {
    Gateway::new(
        catalog(),
        policies,
        SnapshotId::new("gateway_1").unwrap_or_else(|e| unreachable!("{e:?}")),
        ExecutionLimits { max_rows: 10, max_result_bytes: 1_000, timeout_ms: 1_000 },
        4,
    )
}

fn read_request(statement: BoundSelect) -> BoundRequest {
    BoundRequest {
        statement: BoundStatement::Select(Box::new(statement)),
        expected_affected_rows: None,
        expected_row_count: None,
    }
}

#[test]
fn compiles_all_items_before_first_executor_call() {
    let p = projects();
    let gateway = gateway_of(bundle(vec![("projects", role(Some(select_policy(regular(&["id"]), Some(10)))))]));
    let auth = AuthContext::new(session("member"), &[EndpointPermission::Execute]);
    let served = SnapshotId::new("gateway_1").unwrap_or_else(|e| unreachable!("{e:?}"));
    let requests = vec![
        read_request(select(vec![projection(&p, "id")], None)),
        read_request(select(vec![projection(&p, "private_note")], None)),
    ];
    assert_eq!(
        gateway.compile_items(&auth, EndpointPermission::Execute, Some(&served), requests).map(|v| v.len()),
        Err(GatewayError::Rejected { kind: RejectionKind::ForbiddenColumn, index: 1 })
    );
    assert_eq!(gateway.limits(), ExecutionLimits { max_rows: 10, max_result_bytes: 1_000, timeout_ms: 1_000 });
}

#[test]
fn gateway_compiles_every_admitted_item_in_order() {
    let p = projects();
    let gateway = gateway_of(bundle(vec![("projects", role(Some(select_policy(regular(&["id", "name"]), Some(10)))))]));
    let auth = AuthContext::new(session("member"), &[EndpointPermission::Execute]);
    let requests = vec![
        read_request(select(vec![projection(&p, "id")], None)),
        BoundRequest { expected_row_count: Some(3), ..read_request(select(vec![projection(&p, "name")], None)) },
    ];
    let compiled = gateway
        .compile_items(&auth, EndpointPermission::Execute, None, requests)
        .unwrap_or_else(|e| unreachable!("{e:?}"));
    assert_eq!(compiled.len(), 2);
    assert_eq!(compiled[0].plan.expected_result_rows, None);
    assert_eq!(compiled[1].plan.expected_result_rows, Some(3));
    assert_eq!(compiled_select(&compiled[1]).projections[0].output_name, output("name"));
    let stale = SnapshotId::new("stale").unwrap_or_else(|e| unreachable!("{e:?}"));
    let one = vec![read_request(select(vec![projection(&p, "id")], None))];
    assert_eq!(
        gateway.compile_items(&auth, EndpointPermission::Explain, None, one).map(|v| v.len()),
        Err(GatewayError::AccessDenied)
    );
    let one = vec![read_request(select(vec![projection(&p, "id")], None))];
    assert_eq!(
        gateway.compile_items(&auth, EndpointPermission::Execute, Some(&stale), one).map(|v| v.len()),
        Err(GatewayError::SnapshotMismatch)
    );
    let affected = vec![BoundRequest {
        expected_affected_rows: Some(1),
        ..read_request(select(vec![projection(&p, "id")], None))
    }];
    assert_eq!(
        gateway.compile_items(&auth, EndpointPermission::Execute, None, affected).map(|v| v.len()),
        Err(GatewayError::Rejected { kind: RejectionKind::InvalidRequest, index: 0 })
    );
    assert_eq!(
        gateway.compile_items(&auth, EndpointPermission::Execute, None, Vec::new()).map(|v| v.len()),
        Err(GatewayError::EnvelopeLimit)
    );
    assert_eq!(gateway.catalog().resources().len(), 2);
}
