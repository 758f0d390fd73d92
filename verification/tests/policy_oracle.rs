use policysql::oracle::TruthValue;
use policysql::policy_oracle::{
    OracleError, OracleRow, OracleSession, OracleValue, compare_values, evaluate_predicate,
    evaluate_select_filter,
};
use policysql::text_map::TextMap;
use policysql::yaml::{YamlNumber, YamlValue};

fn text(value: &str) -> YamlValue {
    YamlValue::String(value.to_owned())
}

fn map(entries: Vec<(&str, YamlValue)>) -> YamlValue {
    YamlValue::Mapping(entries.into_iter().map(|(k, v)| (text(k), v)).collect())
}

fn integer(value: i64) -> YamlValue {
    YamlValue::Number(YamlNumber { integer: Some(value), unsigned: u64::try_from(value).ok(), double_bits: (value as f64).to_bits() })
}

fn tenant_filter() -> YamlValue {
    map(vec![("tenant_id", map(vec![("eq", map(vec![("session", text("tenant_id"))]))]))])
}

/// `resources: { projects: { roles: { member: { select: { columns: [id], filter: .. } } } } }`
fn bundle(filter: YamlValue) -> YamlValue {
    map(vec![
        ("version", integer(1)),
        (
            "resources",
            map(vec![(
                "projects",
                map(vec![(
                    "roles",
                    map(vec![(
                        "member",
                        map(vec![("select", map(vec![("columns", YamlValue::Sequence(vec![text("id")])), ("filter", filter)]))]),
                    )]),
                )]),
            )]),
        ),
    ])
}

fn session() -> OracleSession {
    let mut session = TextMap::new();
    session.insert("tenant_id".to_owned(), "tenant_1".to_owned());
    session
}

fn row(entries: Vec<(&str, OracleValue)>) -> OracleRow {
    let mut row = TextMap::new();
    for (k, v) in entries {
        row.insert(k.to_owned(), v);
    }
    row
}

fn string(value: &str) -> OracleValue {
    OracleValue::String(value.to_owned())
}

#[test]
fn oracle_evaluates_a_tenant_filter_of_a_bundle() {
    let document = bundle(tenant_filter());
    let visible = row(vec![("tenant_id", string("tenant_1"))]);
    let hidden = row(vec![("tenant_id", string("tenant_2"))]);
    assert_eq!(evaluate_select_filter(&document, "projects", "member", &visible, &session()), Ok(TruthValue::True));
    assert_eq!(evaluate_select_filter(&document, "projects", "member", &hidden, &session()), Ok(TruthValue::False));
}

#[test]
fn oracle_reports_what_the_bundle_lacks() {
    let document = bundle(tenant_filter());
    let visible = row(vec![("tenant_id", string("tenant_1"))]);
    assert_eq!(evaluate_select_filter(&document, "tasks", "member", &visible, &session()), Err(OracleError::MissingResource));
    assert_eq!(evaluate_select_filter(&document, "projects", "admin", &visible, &session()), Err(OracleError::MissingRole));
    assert_eq!(
        evaluate_select_filter(&document, "projects", "member", &row(Vec::new()), &session()),
        Err(OracleError::MissingColumn)
    );
    assert_eq!(
        evaluate_select_filter(&document, "projects", "member", &visible, &TextMap::new()),
        Err(OracleError::MissingSession)
    );
}

#[test]
fn null_makes_comparisons_unknown_and_is_null_definite() {
    let nulls = row(vec![("tenant_id", OracleValue::Null), ("status", string("active"))]);
    assert_eq!(evaluate_predicate(&tenant_filter(), &nulls, &session()), Ok(TruthValue::Unknown));
    let is_null = map(vec![("tenant_id", map(vec![("is_null", YamlValue::Bool(true))]))]);
    assert_eq!(evaluate_predicate(&is_null, &nulls, &session()), Ok(TruthValue::True));
    let negated = map(vec![("not", tenant_filter())]);
    assert_eq!(evaluate_predicate(&negated, &nulls, &session()), Ok(TruthValue::Unknown));
}

#[test]
fn groups_fold_with_three_valued_connectives() {
    let values = row(vec![("tenant_id", OracleValue::Null), ("status", string("active"))]);
    let active = map(vec![("status", map(vec![("eq", text("active"))]))]);
    let any = map(vec![("or", YamlValue::Sequence(vec![tenant_filter(), active]))]);
    assert_eq!(evaluate_predicate(&any, &values, &session()), Ok(TruthValue::True));
    let active = map(vec![("status", map(vec![("eq", text("active"))]))]);
    let all = map(vec![("and", YamlValue::Sequence(vec![tenant_filter(), active]))]);
    assert_eq!(evaluate_predicate(&all, &values, &session()), Ok(TruthValue::Unknown));
    let empty = map(vec![("and", YamlValue::Sequence(Vec::new()))]);
    assert_eq!(evaluate_predicate(&empty, &values, &session()), Err(OracleError::InvalidPolicy));
}

#[test]
fn membership_and_operators() {
    let values = row(vec![("status", string("active")), ("rank", OracleValue::Int64(3))]);
    let listed = map(vec![("status", map(vec![("in", YamlValue::Sequence(vec![text("pending"), text("active")]))]))]);
    assert_eq!(evaluate_predicate(&listed, &values, &session()), Ok(TruthValue::True));
    let excluded = map(vec![("status", map(vec![("not_in", YamlValue::Sequence(vec![text("active")]))]))]);
    assert_eq!(evaluate_predicate(&excluded, &values, &session()), Ok(TruthValue::False));
    let ranked = map(vec![("rank", map(vec![("gte", integer(3))]))]);
    assert_eq!(evaluate_predicate(&ranked, &values, &session()), Ok(TruthValue::True));
    let mixed = map(vec![("rank", map(vec![("eq", text("3"))]))]);
    assert_eq!(evaluate_predicate(&mixed, &values, &session()), Err(OracleError::IncompatibleValues));
    let unknown = map(vec![("rank", map(vec![("between", integer(3))]))]);
    assert_eq!(evaluate_predicate(&unknown, &values, &session()), Err(OracleError::UnsupportedOperator));
    let liked = map(vec![("status", map(vec![("like", text("ACT%"))]))]);
    assert_eq!(evaluate_predicate(&liked, &values, &session()), Ok(TruthValue::True));
}

#[test]
fn doubles_compare_by_value() {
    let number = |x: f64| OracleValue::Number(x.to_bits());
    assert_eq!(compare_values(&number(-1.5), &number(2.0), "lt"), Ok(TruthValue::True));
    assert_eq!(compare_values(&number(-0.0), &number(0.0), "eq"), Ok(TruthValue::True));
    assert_eq!(compare_values(&number(-2.0), &number(-1.0), "gt"), Ok(TruthValue::False));
    assert_eq!(compare_values(&number(f64::INFINITY), &number(1e300), "gt"), Ok(TruthValue::True));
    assert_eq!(compare_values(&number(f64::NAN), &number(1.0), "eq"), Err(OracleError::IncompatibleValues));
    assert_eq!(compare_values(&number(1.0), &OracleValue::Null, "eq"), Ok(TruthValue::Unknown));
}
