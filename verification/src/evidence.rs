//! Executed-fixture evidence: the record of which test classes each fixture
//! really ran, checked against the fixture directories before a report is
//! built from it.
use vstd::prelude::*;
use crate::coverage::{
    CaseManifest, CoverageReport, FixtureFiles, SurfaceDocument, TestClassSet, build_report,
    reports,
};
use crate::text::text_eq;

verus! {

/// What one fixture was seen to run: its id, the digest of its directory
/// when it ran, and the test classes it exercised.
#[derive(Clone, Debug, PartialEq, Eq)]
pub struct FixtureExecutionEvidence {
    pub id: String,
    pub digest: String,
    pub tests: TestClassSet,
}

/// The evidence document.
#[derive(Clone, Debug, PartialEq, Eq)]
pub struct ExecutionEvidence {
    pub version: u32,
    pub fixtures: Vec<FixtureExecutionEvidence>,
}

/// Why a coverage check could not produce a report.
#[derive(Clone, Debug, PartialEq, Eq)]
pub enum CoverageError {
    /// A file could not be read; the text says why.
    Io(String),
    /// A YAML document at `path` did not decode.
    Yaml { path: String, message: String },
    /// A JSON document did not decode or encode.
    Json(String),
    /// The executed evidence does not back the fixtures.
    Evidence(String),
}

/// Why applying evidence fails, in terms of texts.
pub enum EvidenceFault {
    /// Reading a fixture directory failed with this text.
    Unreadable(Seq<char>),
    /// The evidence is rejected with this text.
    Rejected(Seq<char>),
}

/// The error `e` reports the fault `f`.
pub open spec fn reports_fault(e: CoverageError, f: EvidenceFault) -> bool {
    match f {
        EvidenceFault::Unreadable(m) => e matches CoverageError::Io(s) && s@ == m,
        EvidenceFault::Rejected(m) => e matches CoverageError::Evidence(s) && s@ == m,
    }
}

/// The evidence recorded for fixture `id`: the last item with that id.
pub open spec fn evidence_for(items: Seq<FixtureExecutionEvidence>, id: Seq<char>) -> Option<
    FixtureExecutionEvidence,
>
    decreases items.len(),
{
    if items.len() == 0 {
        None
    } else if items.last().id@ == id {
        Some(items.last())
    } else {
        evidence_for(items.drop_last(), id)
    }
}

/// The fault of fixture `f`, whose directory digest reads as `digest`.
pub open spec fn fixture_fault(
    evidence: ExecutionEvidence,
    f: CaseManifest,
    digest: Result<String, String>,
) -> Option<EvidenceFault> {
    match evidence_for(evidence.fixtures@, f.id@) {
        None => Some(EvidenceFault::Rejected("missing executed evidence for "@ + f.id@)),
        Some(item) => match digest {
            Err(m) => Some(EvidenceFault::Unreadable(m@)),
            Ok(d) => if item.digest@ != d@ {
                Some(EvidenceFault::Rejected("stale executed evidence for "@ + f.id@))
            } else {
                None
            },
        },
    }
}

/// The first fault met when the evidence is applied to fixtures `0..n`.
pub open spec fn first_fault(
    evidence: ExecutionEvidence,
    fixtures: Seq<CaseManifest>,
    digests: Seq<Result<String, String>>,
    n: int,
) -> Option<EvidenceFault>
    decreases n,
{
    if n <= 0 {
        if evidence.version != 1 {
            Some(EvidenceFault::Rejected("unsupported evidence version"@))
        } else {
            None
        }
    } else {
        match first_fault(evidence, fixtures, digests, n - 1) {
            Some(f) => Some(f),
            None => fixture_fault(evidence, fixtures[n - 1], digests[n - 1]),
        }
    }
}


/// The fixture `f` with the test classes that the evidence records for it.
pub open spec fn with_recorded_tests(evidence: ExecutionEvidence, f: CaseManifest) -> CaseManifest {
    CaseManifest {
        id: f.id,
        profile: f.profile,
        description: f.description,
        covers: f.covers,
        tests: match evidence_for(evidence.fixtures@, f.id@) {
            Some(item) => item.tests,
            None => f.tests,
        },
        expected: f.expected,
    }
}

/// Each fixture with the test classes that the evidence records for it.
pub open spec fn with_evidence(evidence: ExecutionEvidence, fixtures: Seq<CaseManifest>) -> Seq<
    CaseManifest,
> {
    fixtures.map_values(|f: CaseManifest| with_recorded_tests(evidence, f))
}

/// Once a fault is met, it stays the first one.
proof fn lemma_first_fault_stays(
    evidence: ExecutionEvidence,
    fixtures: Seq<CaseManifest>,
    digests: Seq<Result<String, String>>,
    i: int,
    n: int,
)
    requires
        0 <= i <= n,
        first_fault(evidence, fixtures, digests, i) is Some,
    ensures
        first_fault(evidence, fixtures, digests, n) == first_fault(evidence, fixtures, digests, i),
    decreases n - i,
{
    if i < n {
        lemma_first_fault_stays(evidence, fixtures, digests, i, n - 1);
    }
}

/// The position of the evidence recorded for `id`.
fn find_evidence(items: &Vec<FixtureExecutionEvidence>, id: &str) -> (r: Option<usize>)
    ensures
        match r {
            Some(p) => p < items@.len() && evidence_for(items@, id@) == Some(items@[p as int]),
            None => evidence_for(items@, id@) is None,
        },
{
    let mut found: Option<usize> = None;
    let mut j: usize = 0;
    while j < items.len()
        invariant
            j <= items@.len(),
            match found {
                Some(p) => p < j && evidence_for(items@.take(j as int), id@) == Some(
                    items@[p as int],
                ),
                None => evidence_for(items@.take(j as int), id@) is None,
            },
        decreases items.len() - j,
    {
        assert(items@.take(j + 1).drop_last() =~= items@.take(j as int));
        assert(items@.take(j + 1).last() == items@[j as int]);
        if text_eq(items[j].id.as_str(), id) {
            found = Some(j);
        }
        j = j + 1;
    }
    assert(items@.take(j as int) =~= items@);
    found
}

/// Replaces each fixture's test classes by those its executed evidence
/// records, after checking that the evidence has the supported version and,
/// fixture by fixture, that it exists and matches the digest `digests[i]`
/// of the fixture's directory.
pub fn apply_execution_evidence(
    evidence: &ExecutionEvidence,
    fixtures: Vec<CaseManifest>,
    digests: &[Result<String, String>],
) -> (r: Result<Vec<CaseManifest>, CoverageError>)
    requires
        digests@.len() == fixtures@.len(),
    ensures
        match r {
            Ok(v) => first_fault(*evidence, fixtures@, digests@, fixtures@.len() as int) is None
                && v@ == with_evidence(*evidence, fixtures@),
            Err(e) => first_fault(*evidence, fixtures@, digests@, fixtures@.len() as int) matches Some(
                f,
            ) && reports_fault(e, f),
        },
{
    let ghost input = fixtures@;
    let total = fixtures.len();
    if evidence.version != 1 {
        proof {
            lemma_first_fault_stays(*evidence, input, digests@, 0, total as int);
        }
        return Err(CoverageError::Evidence(crate::text::owned("unsupported evidence version")));
    }
    let mut pending = fixtures;
    let mut out: Vec<CaseManifest> = Vec::new();
    let mut i: usize = 0;
    while pending.len() > 0
        invariant
            i + pending@.len() == total,
            total == input.len(),
            input == fixtures@,
            digests@.len() == total,
            pending@ =~= input.skip(i as int),
            out@ =~= with_evidence(*evidence, input.take(i as int)),
            first_fault(*evidence, input, digests@, i as int) is None,
        decreases pending.len(),
    {
        let f = pending.remove(0);
        assert(input[i as int] == f);
        assert(first_fault(*evidence, input, digests@, i + 1) == fixture_fault(
            *evidence,
            f,
            digests@[i as int],
        ));
        match find_evidence(&evidence.fixtures, f.id.as_str()) {
            None => {
                proof {
                    lemma_first_fault_stays(*evidence, input, digests@, i + 1, total as int);
                }
                return Err(
                    CoverageError::Evidence(
                        crate::coverage::text2("missing executed evidence for ", f.id.as_str()),
                    ),
                );
            },
            Some(p) => {
                match &digests[i] {
                    Err(message) => {
                        proof {
                            lemma_first_fault_stays(*evidence, input, digests@, i + 1, total as int);
                        }
                        return Err(CoverageError::Io(message.clone()));
                    },
                    Ok(digest) => {
                        if !text_eq(evidence.fixtures[p].digest.as_str(), digest.as_str()) {
                            proof {
                                lemma_first_fault_stays(
                                    *evidence,
                                    input,
                                    digests@,
                                    i + 1,
                                    total as int,
                                );
                            }
                            return Err(
                                CoverageError::Evidence(
                                    crate::coverage::text2(
                                        "stale executed evidence for ",
                                        f.id.as_str(),
                                    ),
                                ),
                            );
                        }
                    },
                }
                let tests = evidence.fixtures[p].tests;
                let ghost before = out@;
                let updated = CaseManifest {
                    id: f.id,
                    profile: f.profile,
                    description: f.description,
                    covers: f.covers,
                    tests,
                    expected: f.expected,
                };
                assert(updated == with_recorded_tests(*evidence, input[i as int]));
                out.push(updated);
                assert(input.take(i + 1) =~= input.take(i as int).push(input[i as int]));
                assert(out@ =~= with_evidence(*evidence, input.take(i + 1)));
            },
        }
        i = i + 1;
    }
    assert(input.take(i as int) =~= input);
    Ok(out)
}

/// Applies the executed evidence to the fixtures and, when it backs them,
/// validates the surfaces and fixtures into a report. Fixture `i` has the
/// files `files[i]` and its directory the digest `digests[i]`.
pub fn check_coverage(
    surfaces: Vec<(String, SurfaceDocument)>,
    fixtures: Vec<CaseManifest>,
    files: &[FixtureFiles],
    digests: &[Result<String, String>],
    evidence: &ExecutionEvidence,
) -> (r: Result<CoverageReport, CoverageError>)
    requires
        files@.len() == fixtures@.len(),
        digests@.len() == fixtures@.len(),
    ensures
        match r {
            Ok(report) => first_fault(*evidence, fixtures@, digests@, fixtures@.len() as int) is None
                && reports(report, surfaces@, with_evidence(*evidence, fixtures@), files@),
            Err(e) => first_fault(*evidence, fixtures@, digests@, fixtures@.len() as int) matches Some(
                f,
            ) && reports_fault(e, f),
        },
{
    let applied = apply_execution_evidence(evidence, fixtures, digests);
    match applied {
        Ok(checked) => Ok(build_report(surfaces, checked.as_slice(), files)),
        Err(e) => Err(e),
    }
}
} // verus!
