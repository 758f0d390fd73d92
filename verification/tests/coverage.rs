use policysql::coverage::{
    CaseManifest, ExpectedDisposition, FixtureFiles, RejectionExpectation, RejectionFile,
    SurfaceDocument, SurfaceLeaf, SurfaceStatus, TestClass, TestClassSet, build_report,
    lint_fixture_files,
};
use policysql::evidence::{
    CoverageError, ExecutionEvidence, FixtureExecutionEvidence, check_coverage,
};
use policysql::oracle::RecordingExecutor;
use policysql::text_map::TextSet;

fn leaf(status: SurfaceStatus) -> SurfaceLeaf {
    SurfaceLeaf {
        id: "statement.select".to_owned(),
        profile: "sqlite-turso-v1".to_owned(),
        kind: "statement".to_owned(),
        status,
        contexts: Vec::new(),
        required_tests: TestClassSet::from_classes(&[
            TestClass::Positive,
            TestClass::Negative,
            TestClass::Bypass,
            TestClass::Differential,
        ]),
    }
}

fn surface(leaves: Vec<SurfaceLeaf>) -> Vec<(String, SurfaceDocument)> {
    vec![(
        "surface.yaml".to_owned(),
        SurfaceDocument { version: 1, profile: "sqlite-turso-v1".to_owned(), leaves },
    )]
}

fn manifest(id: &str, tests: &[TestClass], expected: ExpectedDisposition) -> CaseManifest {
    CaseManifest {
        id: id.to_owned(),
        profile: "sqlite-turso-v1".to_owned(),
        description: "fixture".to_owned(),
        covers: TextSet::new(),
        tests: TestClassSet::from_classes(tests),
        expected,
    }
}

fn complete_allow_files() -> FixtureFiles {
    let mut present = TextSet::new();
    for name in [
        "schema.sql",
        "catalog-manifest.yaml",
        "policy.yaml",
        "session.json",
        "input.sql",
        "client-params.json",
        "case.yaml",
        "expected/protected.sql",
        "expected/plan.yaml",
        "expected/result.json",
        "seed.sql",
    ] {
        present.insert(name.to_owned());
    }
    FixtureFiles { present, rejection: RejectionFile::Missing }
}

#[test]
fn uncovered_advertised_leaf_fails() {
    let report = build_report(surface(vec![leaf(SurfaceStatus::Advertised)]), &[], &[]);
    assert!(!report.is_success());
    assert_eq!(report.errors.len(), 4);
}

#[test]
fn planned_leaf_does_not_claim_coverage() {
    let report = build_report(surface(vec![leaf(SurfaceStatus::Planned)]), &[], &[]);
    assert!(report.is_success());
}

#[test]
fn duplicate_fixture_ids_fail() {
    let fixture = CaseManifest {
        id: "duplicate".to_owned(),
        profile: "sqlite-turso-v1".to_owned(),
        description: "duplicate negative control".to_owned(),
        covers: TextSet::new(),
        tests: TestClassSet::new(),
        expected: ExpectedDisposition::Allow,
    };
    let report = build_report(
        Vec::new(),
        &[fixture.clone(), fixture],
        &[FixtureFiles::empty(), FixtureFiles::empty()],
    );
    assert!(report.errors.iter().any(|error| error == "duplicate fixture ID: duplicate"));
}

#[test]
fn incomplete_allow_fixture_fails_closed() {
    let fixture = CaseManifest {
        id: "incomplete.allow".to_owned(),
        profile: "sqlite-turso-v1".to_owned(),
        description: "missing expected execution plan".to_owned(),
        covers: TextSet::new(),
        tests: TestClassSet::from_classes(&[TestClass::Positive]),
        expected: ExpectedDisposition::Allow,
    };
    let report = build_report(Vec::new(), &[fixture], &[FixtureFiles::empty()]);
    assert!(report.errors.iter().any(|error| {
        error == "incomplete.allow: missing required file expected/protected.sql"
    }));
}

#[test]
fn incomplete_deny_fixture_fails_closed() {
    let fixture = CaseManifest {
        id: "incomplete.deny".to_owned(),
        profile: "sqlite-turso-v1".to_owned(),
        description: "missing rejection proof".to_owned(),
        covers: TextSet::new(),
        tests: TestClassSet::from_classes(&[TestClass::Negative]),
        expected: ExpectedDisposition::Deny,
    };
    let report = build_report(Vec::new(), &[fixture], &[FixtureFiles::empty()]);
    assert!(report.errors.iter().any(|error| {
        error == "incomplete.deny: missing required file expected/rejection.yaml"
    }));
}

#[test]
fn recording_executor_starts_with_zero_calls() {
    let mut executor = RecordingExecutor::default();
    assert_eq!(executor.call_count(), 0);
    executor.execute("verified-plan");
    assert_eq!(executor.call_count(), 1);
    assert_eq!(executor.calls(), &["verified-plan"]);
}

#[test]
fn covering_fixture_fills_the_row_and_passes() {
    let mut fixture = manifest(
        "select.basic",
        &[TestClass::Positive, TestClass::Negative, TestClass::Bypass, TestClass::Differential],
        ExpectedDisposition::Allow,
    );
    fixture.covers.insert("statement.select".to_owned());
    fixture.covers.insert("threat.tenant_escape".to_owned());
    let mut threat = leaf(SurfaceStatus::Planned);
    threat.id = "threat.tenant_escape".to_owned();
    let report = build_report(
        surface(vec![leaf(SurfaceStatus::Advertised), threat]),
        &[fixture],
        &[complete_allow_files()],
    );
    assert_eq!(report.errors, Vec::<String>::new());
    assert_eq!(report.fixture_count, 1);
    assert_eq!(report.rows.len(), 2);
    assert_eq!(report.rows[0].coverage_id, "statement.select");
    assert!(report.rows[0].covered.contains(TestClass::Bypass));
    assert!(report.rows[0].fixtures.contains("select.basic"));
    assert_eq!(report.rows[1].coverage_id, "threat.tenant_escape");
}

#[test]
fn report_names_each_missing_class_in_order() {
    let mut fixture = manifest("select.partial", &[TestClass::Negative], ExpectedDisposition::Allow);
    fixture.covers.insert("statement.select".to_owned());
    let report = build_report(
        surface(vec![leaf(SurfaceStatus::Advertised)]),
        &[fixture],
        &[complete_allow_files()],
    );
    assert_eq!(
        report.errors,
        vec![
            "advertised coverage statement.select is missing Positive".to_owned(),
            "advertised coverage statement.select is missing Bypass".to_owned(),
            "advertised coverage statement.select is missing Differential".to_owned(),
        ]
    );
}

#[test]
fn surface_document_errors_are_reported() {
    let mut other = leaf(SurfaceStatus::Planned);
    other.profile = "other".to_owned();
    let report = build_report(
        vec![(
            "s.yaml".to_owned(),
            SurfaceDocument {
                version: 2,
                profile: "sqlite-turso-v1".to_owned(),
                leaves: vec![other, leaf(SurfaceStatus::Planned)],
            },
        )],
        &[],
        &[],
    );
    assert_eq!(
        report.errors,
        vec![
            "s.yaml: unsupported surface document version 2".to_owned(),
            "s.yaml: leaf statement.select profile does not match document profile".to_owned(),
            "duplicate coverage ID: statement.select".to_owned(),
        ]
    );
    assert_eq!(report.rows.len(), 1);
    assert_eq!(report.rows[0].profile, "sqlite-turso-v1");
}

#[test]
fn fixture_claims_are_checked() {
    let mut fixture = manifest("f1", &[TestClass::Bypass, TestClass::Differential], ExpectedDisposition::Allow);
    fixture.covers.insert("unknown.leaf".to_owned());
    let mut files = complete_allow_files();
    files.present = TextSet::new();
    for name in ["schema.sql", "catalog-manifest.yaml", "policy.yaml", "session.json", "input.sql",
        "client-params.json", "case.yaml", "expected/protected.sql", "expected/plan.yaml",
        "expected/result.json"] {
        files.present.insert(name.to_owned());
    }
    let report = build_report(Vec::new(), &[fixture], &[files]);
    assert_eq!(
        report.errors,
        vec![
            "f1: unknown coverage ID unknown.leaf".to_owned(),
            "f1: bypass fixture must cover a threat.* ID".to_owned(),
            "f1: differential fixture requires seed.sql".to_owned(),
        ]
    );
}

#[test]
fn denied_fixture_rejection_proof_is_linted() {
    let fixture = manifest("deny.case", &[TestClass::Negative], ExpectedDisposition::Deny);
    let mut files = complete_allow_files();
    files.rejection = RejectionFile::Parsed(RejectionExpectation {
        stage: " ".to_owned(),
        code: "forbidden".to_owned(),
        executor_calls: 1,
        public_message_contains_hidden_identifier: true,
    });
    let mut errors = Vec::new();
    lint_fixture_files(&fixture, &files, &mut errors);
    assert_eq!(
        errors,
        vec![
            "deny.case: rejection stage and code must be non-empty".to_owned(),
            "deny.case: denied fixture must assert executor_calls: 0".to_owned(),
            "deny.case: denied fixture must forbid hidden identifiers in public errors".to_owned(),
        ]
    );
    files.rejection = RejectionFile::Invalid("bad yaml".to_owned());
    let mut errors = Vec::new();
    lint_fixture_files(&fixture, &files, &mut errors);
    assert_eq!(errors, vec!["deny.case: bad yaml".to_owned()]);
}

#[test]
fn markdown_lists_rows_and_errors() {
    let report = build_report(surface(vec![leaf(SurfaceStatus::Advertised)]), &[], &[]);
    let text = report.to_markdown();
    assert!(text.starts_with("# PolicySQL SQL surface coverage\n\n| Coverage ID |"));
    assert!(text.contains(
        "| `statement.select` | `sqlite-turso-v1` | `Advertised` | `Positive`, `Negative`, `Bypass`, `Differential` |  |  |\n"
    ));
    assert!(text.contains("\nFixtures: 0\n"));
    assert!(text.ends_with("- advertised coverage statement.select is missing Differential\n"));
    let passing = build_report(Vec::new(), &[], &[]);
    assert!(passing.to_markdown().ends_with("\nFixtures: 0\n\nResult: PASS\n"));
}

fn evidence(version: u32, digest: &str) -> ExecutionEvidence {
    ExecutionEvidence {
        version,
        fixtures: vec![FixtureExecutionEvidence {
            id: "select.basic".to_owned(),
            digest: digest.to_owned(),
            tests: TestClassSet::from_classes(&[TestClass::Positive]),
        }],
    }
}

#[test]
fn executed_evidence_replaces_declared_classes() {
    let fixture = manifest("select.basic", &[TestClass::Negative], ExpectedDisposition::Allow);
    let report = check_coverage(
        Vec::new(),
        vec![fixture],
        &[complete_allow_files()],
        &[Ok("00ff".to_owned())],
        &evidence(1, "00ff"),
    );
    let report = report.unwrap_or_else(|error| unreachable!("evidence backs the fixture: {error:?}"));
    assert!(report.is_success());
}

#[test]
fn stale_missing_or_unsupported_evidence_is_refused() {
    let fixture = manifest("select.basic", &[TestClass::Negative], ExpectedDisposition::Allow);
    let stale = check_coverage(
        Vec::new(),
        vec![fixture.clone()],
        &[complete_allow_files()],
        &[Ok("0001".to_owned())],
        &evidence(1, "00ff"),
    );
    assert!(matches!(stale, Err(CoverageError::Evidence(m)) if m == "stale executed evidence for select.basic"));
    let version = check_coverage(
        Vec::new(),
        vec![fixture.clone()],
        &[complete_allow_files()],
        &[Ok("00ff".to_owned())],
        &evidence(2, "00ff"),
    );
    assert!(matches!(version, Err(CoverageError::Evidence(m)) if m == "unsupported evidence version"));
    let other = manifest("other", &[], ExpectedDisposition::Allow);
    let missing = check_coverage(
        Vec::new(),
        vec![other],
        &[complete_allow_files()],
        &[Err("unreadable".to_owned())],
        &evidence(1, "00ff"),
    );
    assert!(matches!(missing, Err(CoverageError::Evidence(m)) if m == "missing executed evidence for other"));
    let unreadable = check_coverage(
        Vec::new(),
        vec![fixture],
        &[complete_allow_files()],
        &[Err("unreadable".to_owned())],
        &evidence(1, "00ff"),
    );
    assert!(matches!(unreadable, Err(CoverageError::Io(m)) if m == "unreadable"));
}

#[test]
fn sql_fixtures_are_listed_once_in_path_order() {
    let paths = vec!["root/b.sql".to_owned(), "root/a.sql".to_owned(), "root/b.sql".to_owned()];
    let fixtures = policysql::coverage::sql_fixtures(&paths);
    let listed: Vec<&str> = fixtures.iter().map(|f| f.input_path.as_str()).collect();
    assert_eq!(listed, vec!["root/a.sql", "root/b.sql"]);
    assert!(fixtures.iter().all(|f| f.expected_path.is_none()));
}
