//! SQL surface coverage: advertised surface leaves, the fixtures that claim
//! to cover them, and the report that says whether every claim is backed.
use vstd::prelude::*;
use crate::identity::{non_blank, non_empty, starts_with};
use crate::text::{decimal, decimal_text, lex_lt, owned, text_eq};
use crate::text_map::{TextMap, TextSet, lemma_entries_get_at, key_index};

verus! {

#[derive(Clone, Copy, Debug, PartialEq, Eq, Structural, PartialOrd, Ord)]
pub enum SurfaceStatus {
    Advertised,
    Planned,
    Disabled,
}

#[derive(Clone, Copy, Debug, PartialEq, Eq, Structural, PartialOrd, Ord)]
pub enum TestClass {
    Positive,
    Negative,
    Bypass,
    Differential,
}

/// A set of test classes, walked in the order the classes are declared.
#[derive(Clone, Copy, Debug, PartialEq, Eq, Structural)]
pub struct TestClassSet {
    positive: bool,
    negative: bool,
    bypass: bool,
    differential: bool,
}

/// The classes in declaration order.
pub open spec fn class_order() -> Seq<TestClass> {
    seq![TestClass::Positive, TestClass::Negative, TestClass::Bypass, TestClass::Differential]
}

impl TestClassSet {
    pub closed spec fn has(&self, c: TestClass) -> bool {
        match c {
            TestClass::Positive => self.positive,
            TestClass::Negative => self.negative,
            TestClass::Bypass => self.bypass,
            TestClass::Differential => self.differential,
        }
    }

    /// The members in declaration order.
    pub open spec fn members(&self) -> Seq<TestClass> {
        class_order().filter(|c: TestClass| self.has(c))
    }

    pub fn new() -> (r: Self)
        ensures
            forall|c: TestClass| !#[trigger] r.has(c),
    {
        TestClassSet { positive: false, negative: false, bypass: false, differential: false }
    }

    /// The set holding exactly the listed classes.
    pub fn from_classes(classes: &[TestClass]) -> (r: Self)
        ensures
            forall|c: TestClass| #[trigger] r.has(c) == classes@.contains(c),
    {
        let mut r = TestClassSet::new();
        let mut i: usize = 0;
        while i < classes.len()
            invariant
                i <= classes@.len(),
                forall|c: TestClass| #[trigger] r.has(c) == classes@.take(i as int).contains(c),
            decreases classes.len() - i,
        {
            let c = classes[i];
            r.insert(c);
            proof {
                assert forall|x: TestClass| #[trigger] r.has(x) == classes@.take(i + 1).contains(
                    x,
                ) by {
                    assert(classes@.take(i + 1) =~= classes@.take(i as int).push(c));
                    if classes@.take(i as int).contains(x) {
                        let j = choose|j: int|
                            0 <= j < i && #[trigger] classes@.take(i as int)[j] == x;
                        assert(classes@.take(i + 1)[j] == x);
                    }
                    if x == c {
                        assert(classes@.take(i + 1)[i as int] == x);
                    }
                }
            }
            i = i + 1;
        }
        assert(classes@.take(classes@.len() as int) =~= classes@);
        r
    }

    pub fn insert(&mut self, c: TestClass)
        ensures
            forall|x: TestClass| #[trigger] final(self).has(x) == (old(self).has(x) || x == c),
    {
        match c {
            TestClass::Positive => self.positive = true,
            TestClass::Negative => self.negative = true,
            TestClass::Bypass => self.bypass = true,
            TestClass::Differential => self.differential = true,
        }
    }

    pub fn contains(&self, c: TestClass) -> (r: bool)
        ensures
            r == self.has(c),
    {
        match c {
            TestClass::Positive => self.positive,
            TestClass::Negative => self.negative,
            TestClass::Bypass => self.bypass,
            TestClass::Differential => self.differential,
        }
    }

    /// Both sets together.
    pub fn union(&self, other: &Self) -> (r: Self)
        ensures
            forall|x: TestClass| #[trigger] r.has(x) == (self.has(x) || other.has(x)),
    {
        TestClassSet {
            positive: self.positive || other.positive,
            negative: self.negative || other.negative,
            bypass: self.bypass || other.bypass,
            differential: self.differential || other.differential,
        }
    }

    /// The members of this set that `other` lacks.
    pub fn difference(&self, other: &Self) -> (r: Self)
        ensures
            forall|x: TestClass| #[trigger] r.has(x) == (self.has(x) && !other.has(x)),
    {
        TestClassSet {
            positive: self.positive && !other.positive,
            negative: self.negative && !other.negative,
            bypass: self.bypass && !other.bypass,
            differential: self.differential && !other.differential,
        }
    }

    pub fn is_empty(&self) -> (r: bool)
        ensures
            r == forall|x: TestClass| !#[trigger] self.has(x),
    {
        let r = !(self.positive || self.negative || self.bypass || self.differential);
        proof {
            if !r {
                if self.positive {
                    assert(self.has(TestClass::Positive));
                } else if self.negative {
                    assert(self.has(TestClass::Negative));
                } else if self.bypass {
                    assert(self.has(TestClass::Bypass));
                } else {
                    assert(self.has(TestClass::Differential));
                }
            }
        }
        r
    }

    /// The members in declaration order.
    pub fn classes(&self) -> (r: Vec<TestClass>)
        ensures
            r@ == self.members(),
    {
        let mut r: Vec<TestClass> = Vec::new();
        if self.positive {
            r.push(TestClass::Positive);
        }
        if self.negative {
            r.push(TestClass::Negative);
        }
        if self.bypass {
            r.push(TestClass::Bypass);
        }
        if self.differential {
            r.push(TestClass::Differential);
        }
        proof {
            reveal_with_fuel(Seq::<_>::filter, 5);
            assert(class_order().drop_last() =~= seq![
                TestClass::Positive,
                TestClass::Negative,
                TestClass::Bypass,
            ]);
            assert(class_order().drop_last().drop_last() =~= seq![
                TestClass::Positive,
                TestClass::Negative,
            ]);
            assert(class_order().drop_last().drop_last().drop_last() =~= seq![TestClass::Positive]);
            assert(class_order().drop_last().drop_last().drop_last().drop_last()
                =~= Seq::<TestClass>::empty());
            assert(r@ =~= self.members());
        }
        r
    }
}

/// The name under which a class is reported.
pub open spec fn class_name(c: TestClass) -> Seq<char> {
    match c {
        TestClass::Positive => "Positive"@,
        TestClass::Negative => "Negative"@,
        TestClass::Bypass => "Bypass"@,
        TestClass::Differential => "Differential"@,
    }
}

pub fn test_class_name(c: TestClass) -> (r: &'static str)
    ensures
        r@ == class_name(c),
{
    match c {
        TestClass::Positive => "Positive",
        TestClass::Negative => "Negative",
        TestClass::Bypass => "Bypass",
        TestClass::Differential => "Differential",
    }
}

/// The name under which a status is reported.
pub open spec fn status_name(s: SurfaceStatus) -> Seq<char> {
    match s {
        SurfaceStatus::Advertised => "Advertised"@,
        SurfaceStatus::Planned => "Planned"@,
        SurfaceStatus::Disabled => "Disabled"@,
    }
}

pub fn surface_status_name(s: SurfaceStatus) -> (r: &'static str)
    ensures
        r@ == status_name(s),
{
    match s {
        SurfaceStatus::Advertised => "Advertised",
        SurfaceStatus::Planned => "Planned",
        SurfaceStatus::Disabled => "Disabled",
    }
}

#[derive(Clone, Debug, PartialEq, Eq)]
pub struct SurfaceLeaf {
    pub id: String,
    pub profile: String,
    pub kind: String,
    pub status: SurfaceStatus,
    pub contexts: Vec<String>,
    pub required_tests: TestClassSet,
}

#[derive(Clone, Debug, PartialEq, Eq)]
pub struct SurfaceDocument {
    pub version: u32,
    pub profile: String,
    pub leaves: Vec<SurfaceLeaf>,
}

#[derive(Clone, Copy, Debug, PartialEq, Eq, Structural)]
pub enum ExpectedDisposition {
    Allow,
    Deny,
}

#[derive(Clone, Debug, PartialEq, Eq)]
pub struct CaseManifest {
    pub id: String,
    pub profile: String,
    pub description: String,
    pub covers: TextSet,
    pub tests: TestClassSet,
    pub expected: ExpectedDisposition,
}

/// The rejection proof that a denied fixture carries.
#[derive(Clone, Debug, PartialEq, Eq)]
pub struct RejectionExpectation {
    pub stage: String,
    pub code: String,
    pub executor_calls: u32,
    pub public_message_contains_hidden_identifier: bool,
}

/// What reading a fixture's `expected/rejection.yaml` gave.
#[derive(Clone, Debug, PartialEq, Eq)]
pub enum RejectionFile {
    Missing,
    Parsed(RejectionExpectation),
    /// The file exists but does not decode; the text says why.
    Invalid(String),
}

/// What a fixture directory holds, as far as the report reads it: the
/// relative names of the files present, and its rejection proof.
#[derive(Clone, Debug, PartialEq, Eq)]
pub struct FixtureFiles {
    pub present: TextSet,
    pub rejection: RejectionFile,
}

impl FixtureFiles {
    /// A fixture directory that holds nothing.
    pub fn empty() -> (r: Self)
        ensures
            forall|k: Seq<char>| !#[trigger] r.present.has(k),
            r.rejection == RejectionFile::Missing,
    {
        FixtureFiles { present: TextSet::new(), rejection: RejectionFile::Missing }
    }
}

#[derive(Clone, Debug, PartialEq, Eq)]
pub struct CoverageRow {
    pub coverage_id: String,
    pub profile: String,
    pub status: SurfaceStatus,
    pub required: TestClassSet,
    pub covered: TestClassSet,
    pub fixtures: TextSet,
}

#[derive(Clone, Debug, PartialEq, Eq)]
pub struct CoverageReport {
    pub rows: Vec<CoverageRow>,
    pub fixture_count: usize,
    pub errors: Vec<String>,
}

/// The texts of a list of strings.
pub open spec fn texts(s: Seq<String>) -> Seq<Seq<char>> {
    s.map_values(|x: String| x@)
}

/// The relative names every fixture directory must hold, in check order.
pub open spec fn required_input_name(i: int) -> Seq<char> {
    if i == 0 {
        "schema.sql"@
    } else if i == 1 {
        "catalog-manifest.yaml"@
    } else if i == 2 {
        "policy.yaml"@
    } else if i == 3 {
        "session.json"@
    } else if i == 4 {
        "input.sql"@
    } else if i == 5 {
        "client-params.json"@
    } else {
        "case.yaml"@
    }
}

pub fn required_input_file(i: usize) -> (r: &'static str)
    requires
        i < 7,
    ensures
        r@ == required_input_name(i as int),
{
    if i == 0 {
        "schema.sql"
    } else if i == 1 {
        "catalog-manifest.yaml"
    } else if i == 2 {
        "policy.yaml"
    } else if i == 3 {
        "session.json"
    } else if i == 4 {
        "input.sql"
    } else if i == 5 {
        "client-params.json"
    } else {
        "case.yaml"
    }
}

/// The relative names an allowed fixture must hold besides its inputs.
pub open spec fn expected_allow_name(i: int) -> Seq<char> {
    if i == 0 {
        "expected/protected.sql"@
    } else if i == 1 {
        "expected/plan.yaml"@
    } else {
        "expected/result.json"@
    }
}

pub fn expected_allow_file(i: usize) -> (r: &'static str)
    requires
        i < 3,
    ensures
        r@ == expected_allow_name(i as int),
{
    if i == 0 {
        "expected/protected.sql"
    } else if i == 1 {
        "expected/plan.yaml"
    } else {
        "expected/result.json"
    }
}

/// Every relative name that a report reads from a fixture directory, besides
/// `expected/rejection.yaml`.
pub fn fixture_file_names() -> (r: Vec<&'static str>)
    ensures
        r@.len() == 11,
        forall|i: int| 0 <= i < 7 ==> (#[trigger] r@[i])@ == required_input_name(i),
        forall|i: int| 7 <= i < 10 ==> (#[trigger] r@[i])@ == expected_allow_name(i - 7),
        r@[10]@ == "seed.sql"@,
{
    let mut r: Vec<&'static str> = Vec::new();
    let mut i: usize = 0;
    while i < 7
        invariant
            i <= 7,
            r@.len() == i,
            forall|j: int| 0 <= j < i ==> (#[trigger] r@[j])@ == required_input_name(j),
        decreases 7 - i,
    {
        r.push(required_input_file(i));
        i = i + 1;
    }
    let mut k: usize = 0;
    while k < 3
        invariant
            k <= 3,
            r@.len() == 7 + k,
            forall|j: int| 0 <= j < 7 ==> (#[trigger] r@[j])@ == required_input_name(j),
            forall|j: int| 7 <= j < 7 + k ==> (#[trigger] r@[j])@ == expected_allow_name(j - 7),
        decreases 3 - k,
    {
        r.push(expected_allow_file(k));
        k = k + 1;
    }
    r.push("seed.sql");
    r
}

/// `a` followed by `b`.
pub(crate) fn text2(a: &str, b: &str) -> (r: String)
    ensures
        r@ == a@ + b@,
{
    let mut r = owned(a);
    r.append(b);
    r
}

fn text3(a: &str, b: &str, c: &str) -> (r: String)
    ensures
        r@ == a@ + b@ + c@,
{
    let mut r = owned(a);
    r.append(b);
    r.append(c);
    r
}

fn text4(a: &str, b: &str, c: &str, d: &str) -> (r: String)
    ensures
        r@ == a@ + b@ + c@ + d@,
{
    let mut r = owned(a);
    r.append(b);
    r.append(c);
    r.append(d);
    r
}


/// Errors for required names `0..k` that a fixture directory lacks.
pub open spec fn missing_input_errors(fid: Seq<char>, files: FixtureFiles, k: int) -> Seq<Seq<char>>
    decreases k,
{
    if k <= 0 {
        seq![]
    } else {
        missing_input_errors(fid, files, k - 1) + if !files.present.has(
            required_input_name(k - 1),
        ) {
            seq![fid + ": missing required file "@ + required_input_name(k - 1)]
        } else {
            seq![]
        }
    }
}

/// Errors for the expected-result names `0..k` that an allowed fixture lacks.
pub open spec fn missing_allow_errors(fid: Seq<char>, files: FixtureFiles, k: int) -> Seq<Seq<char>>
    decreases k,
{
    if k <= 0 {
        seq![]
    } else {
        missing_allow_errors(fid, files, k - 1) + if !files.present.has(
            expected_allow_name(k - 1),
        ) {
            seq![fid + ": missing required file "@ + expected_allow_name(k - 1)]
        } else {
            seq![]
        }
    }
}

/// Errors that a denied fixture's rejection proof earns.
pub open spec fn rejection_errors(fid: Seq<char>, r: RejectionFile) -> Seq<Seq<char>> {
    match r {
        RejectionFile::Missing => seq![
            fid + ": missing required file expected/rejection.yaml"@,
        ],
        RejectionFile::Parsed(e) => (if !non_blank(e.stage@) || !non_blank(e.code@) {
            seq![fid + ": rejection stage and code must be non-empty"@]
        } else {
            seq![]
        }) + (if e.executor_calls != 0 {
            seq![fid + ": denied fixture must assert executor_calls: 0"@]
        } else {
            seq![]
        }) + (if e.public_message_contains_hidden_identifier {
            seq![fid + ": denied fixture must forbid hidden identifiers in public errors"@]
        } else {
            seq![]
        }),
        RejectionFile::Invalid(m) => seq![fid + ": "@ + m@],
    }
}

/// Errors about the files of one fixture.
pub open spec fn lint_errors(f: CaseManifest, files: FixtureFiles) -> Seq<Seq<char>> {
    missing_input_errors(f.id@, files, 7) + match f.expected {
        ExpectedDisposition::Allow => missing_allow_errors(f.id@, files, 3),
        ExpectedDisposition::Deny => rejection_errors(f.id@, files.rejection),
    }
}

/// Checks that a fixture directory holds every file its disposition needs and
/// that a denied fixture's rejection proof is complete.
pub fn lint_fixture_files(fixture: &CaseManifest, files: &FixtureFiles, errors: &mut Vec<String>)
    ensures
        texts(final(errors)@) == texts(old(errors)@) + lint_errors(*fixture, *files),
{
    let ghost start = texts(errors@);
    let mut k: usize = 0;
    while k < 7
        invariant
            k <= 7,
            texts(errors@) == start + missing_input_errors(fixture.id@, *files, k as int),
        decreases 7 - k,
    {
        let name = required_input_file(k);
        let ghost before = errors@;
        if !files.present.contains(name) {
            errors.push(text3(fixture.id.as_str(), ": missing required file ", name));
            assert(texts(errors@) =~= texts(before).push(errors@.last()@));
        }
        assert(missing_input_errors(fixture.id@, *files, k + 1) == missing_input_errors(
            fixture.id@,
            *files,
            k as int,
        ) + if !files.present.has(required_input_name(k as int)) {
            seq![fixture.id@ + ": missing required file "@ + required_input_name(k as int)]
        } else {
            seq![]
        });
        k = k + 1;
    }
    let ghost after_inputs = texts(errors@);
    match fixture.expected {
        ExpectedDisposition::Allow => {
            let mut k: usize = 0;
            while k < 3
                invariant
                    k <= 3,
                    texts(errors@) == after_inputs + missing_allow_errors(
                        fixture.id@,
                        *files,
                        k as int,
                    ),
                decreases 3 - k,
            {
                let name = expected_allow_file(k);
                let ghost before = errors@;
                if !files.present.contains(name) {
                    errors.push(text3(fixture.id.as_str(), ": missing required file ", name));
                    assert(texts(errors@) =~= texts(before).push(errors@.last()@));
                }
                assert(missing_allow_errors(fixture.id@, *files, k + 1) == missing_allow_errors(
                    fixture.id@,
                    *files,
                    k as int,
                ) + if !files.present.has(expected_allow_name(k as int)) {
                    seq![fixture.id@ + ": missing required file "@ + expected_allow_name(k as int)]
                } else {
                    seq![]
                });
                k = k + 1;
            }
        },
        ExpectedDisposition::Deny => {
            let ghost before = errors@;
            match &files.rejection {
                RejectionFile::Missing => {
                    errors.push(
                        text2(
                            fixture.id.as_str(),
                            ": missing required file expected/rejection.yaml",
                        ),
                    );
                    assert(texts(errors@) =~= texts(before).push(errors@.last()@));
                },
                RejectionFile::Parsed(expectation) => {
                    let mut found: Vec<String> = Vec::new();
                    if !non_empty(expectation.stage.as_str()) || !non_empty(
                        expectation.code.as_str(),
                    ) {
                        found.push(
                            text2(
                                fixture.id.as_str(),
                                ": rejection stage and code must be non-empty",
                            ),
                        );
                    }
                    let ghost first = texts(found@);
                    if expectation.executor_calls != 0 {
                        found.push(
                            text2(
                                fixture.id.as_str(),
                                ": denied fixture must assert executor_calls: 0",
                            ),
                        );
                    }
                    let ghost second = texts(found@);
                    if expectation.public_message_contains_hidden_identifier {
                        found.push(
                            text2(
                                fixture.id.as_str(),
                                ": denied fixture must forbid hidden identifiers in public errors",
                            ),
                        );
                    }
                    proof {
                        assert(texts(found@) =~= rejection_errors(fixture.id@, files.rejection));
                    }
                    append_all(errors, found);
                },
                RejectionFile::Invalid(message) => {
                    errors.push(text3(fixture.id.as_str(), ": ", message.as_str()));
                    assert(texts(errors@) =~= texts(before).push(errors@.last()@));
                },
            }
        },
    }
}

/// Appends every string of `more`, in order.
fn append_all(errors: &mut Vec<String>, more: Vec<String>)
    ensures
        texts(final(errors)@) == texts(old(errors)@) + texts(more@),
{
    let total = more.len();
    let mut more = more;
    let ghost all = more@;
    let ghost start = texts(errors@);
    let mut k: usize = 0;
    while more.len() > 0
        invariant
            k + more@.len() == all.len(),
            all.len() == total,
            more@ =~= all.skip(k as int),
            texts(errors@) == start + texts(all.take(k as int)),
        decreases more.len(),
    {
        let x = more.remove(0);
        let ghost before = errors@;
        errors.push(x);
        assert(texts(all.take(k + 1)) =~= texts(all.take(k as int)).push(all[k as int]@));
        assert(texts(errors@) =~= texts(before).push(all[k as int]@));
        k = k + 1;
    }
    assert(all.take(k as int) =~= all);
}


/// The leaves of all surface documents, in document order.
pub open spec fn all_leaves(docs: Seq<(String, SurfaceDocument)>) -> Seq<SurfaceLeaf>
    decreases docs.len(),
{
    if docs.len() == 0 {
        seq![]
    } else {
        all_leaves(docs.drop_last()) + docs.last().1.leaves@
    }
}

pub open spec fn leaf_ids(ls: Seq<SurfaceLeaf>) -> Seq<Seq<char>> {
    ls.map_values(|l: SurfaceLeaf| l.id@)
}

/// The leaf that the report files under `id`: the last one declared with it.
pub open spec fn latest_leaf(ls: Seq<SurfaceLeaf>, id: Seq<char>) -> Option<SurfaceLeaf>
    decreases ls.len(),
{
    if ls.len() == 0 {
        None
    } else if ls.last().id@ == id {
        Some(ls.last())
    } else {
        latest_leaf(ls.drop_last(), id)
    }
}

pub proof fn lemma_latest_leaf(ls: Seq<SurfaceLeaf>, id: Seq<char>)
    ensures
        latest_leaf(ls, id) is Some == leaf_ids(ls).contains(id),
        latest_leaf(ls, id) matches Some(l) ==> l.id@ == id,
    decreases ls.len(),
{
    if ls.len() > 0 {
        lemma_latest_leaf(ls.drop_last(), id);
        if ls.last().id@ == id {
            assert(leaf_ids(ls)[ls.len() - 1] == id);
        } else {
            if leaf_ids(ls).contains(id) {
                let j = choose|j: int| 0 <= j < leaf_ids(ls).len() && leaf_ids(ls)[j] == id;
                assert(j != ls.len() - 1);
                assert(leaf_ids(ls.drop_last())[j] == id);
            }
            if leaf_ids(ls.drop_last()).contains(id) {
                let j = choose|j: int|
                    0 <= j < leaf_ids(ls.drop_last()).len() && leaf_ids(ls.drop_last())[j] == id;
                assert(leaf_ids(ls)[j] == id);
            }
        }
    }
}

/// Errors for the leaves `ls` of one document at `path` whose profile is
/// `profile`, after the leaves `prior` of earlier documents.
pub open spec fn leaf_errors(
    path: Seq<char>,
    profile: Seq<char>,
    prior: Seq<SurfaceLeaf>,
    ls: Seq<SurfaceLeaf>,
) -> Seq<Seq<char>>
    decreases ls.len(),
{
    if ls.len() == 0 {
        seq![]
    } else {
        let l = ls.last();
        leaf_errors(path, profile, prior, ls.drop_last()) + (if l.profile@ != profile
            && l.profile@ != "common"@ {
            seq![path + ": leaf "@ + l.id@ + " profile does not match document profile"@]
        } else {
            seq![]
        }) + (if leaf_ids(prior + ls.drop_last()).contains(l.id@) {
            seq!["duplicate coverage ID: "@ + l.id@]
        } else {
            seq![]
        })
    }
}

/// Errors of the surface documents, in document and leaf order.
pub open spec fn surface_errors(docs: Seq<(String, SurfaceDocument)>) -> Seq<Seq<char>>
    decreases docs.len(),
{
    if docs.len() == 0 {
        seq![]
    } else {
        let path = docs.last().0@;
        let doc = docs.last().1;
        surface_errors(docs.drop_last()) + (if doc.version != 1 {
            seq![path + ": unsupported surface document version "@ + decimal(doc.version as nat)]
        } else {
            seq![]
        }) + leaf_errors(path, doc.profile@, all_leaves(docs.drop_last()), doc.leaves@)
    }
}

/// Leaves filed by id, as a text map: each key is its leaf's id, and the leaf
/// under a key is the last leaf of `ls` declared with it.
pub open spec fn files_leaves(m: TextMap<SurfaceLeaf>, ls: Seq<SurfaceLeaf>) -> bool {
    &&& m.wf()
    &&& forall|k: Seq<char>| #[trigger] m.spec_get(k) == latest_leaf(ls, k)
    &&& forall|i: int| 0 <= i < m.entries().len() ==> (#[trigger] m.entries()[i]).0
        == m.entries()[i].1.id@
}

proof fn lemma_files_leaves_has_key(m: TextMap<SurfaceLeaf>, ls: Seq<SurfaceLeaf>, k: Seq<char>)
    requires
        files_leaves(m, ls),
    ensures
        m.has_key(k) == leaf_ids(ls).contains(k),
{
    lemma_latest_leaf(ls, k);
    assert(m.spec_get(k) == latest_leaf(ls, k));
}

fn push_error(errors: &mut Vec<String>, e: String)
    ensures
        texts(final(errors)@) == texts(old(errors)@).push(e@),
{
    let ghost before = errors@;
    errors.push(e);
    assert(texts(errors@) =~= texts(before).push(e@));
}

/// Files every leaf of every surface document by id, recording version,
/// profile and duplicate errors.
#[verifier::rlimit(40)]
fn collect_leaves(surfaces: Vec<(String, SurfaceDocument)>, errors: &mut Vec<String>) -> (r:
    TextMap<SurfaceLeaf>)
    ensures
        files_leaves(r, all_leaves(surfaces@)),
        texts(final(errors)@) == texts(old(errors)@) + surface_errors(surfaces@),
{
    let ghost input = surfaces@;
    let ghost start = texts(errors@);
    let total = surfaces.len();
    let mut pending = surfaces;
    let mut leaves: TextMap<SurfaceLeaf> = TextMap::new();
    let mut d: usize = 0;
    while pending.len() > 0
        invariant
            d + pending@.len() == total,
            total == input.len(),
            pending@ =~= input.skip(d as int),
            files_leaves(leaves, all_leaves(input.take(d as int))),
            texts(errors@) == start + surface_errors(input.take(d as int)),
        decreases pending.len(),
    {
        let (path, document) = pending.remove(0);
        assert(input[d as int] == (path, document));
        assert(input.take(d + 1).drop_last() =~= input.take(d as int));
        assert(input.take(d + 1).last() == (path, document));
        let ghost prior = all_leaves(input.take(d as int));
        let ghost doc_leaves = document.leaves@;
        if document.version != 1 {
            let mut e = text2(path.as_str(), ": unsupported surface document version ");
            let v = decimal_text(document.version as u64);
            e.append(v.as_str());
            push_error(errors, e);
        }
        let ghost after_version = texts(errors@);
        let mut rest = document.leaves;
        let doc_total = rest.len();
        let mut j: usize = 0;
        while rest.len() > 0
            invariant
                j + rest@.len() == doc_total,
                doc_total == doc_leaves.len(),
                rest@ =~= doc_leaves.skip(j as int),
                files_leaves(leaves, prior + doc_leaves.take(j as int)),
                texts(errors@) == after_version + leaf_errors(
                    path@,
                    document.profile@,
                    prior,
                    doc_leaves.take(j as int),
                ),
            decreases rest.len(),
        {
            let leaf = rest.remove(0);
            assert(doc_leaves[j as int] == leaf);
            let ghost seen = prior + doc_leaves.take(j as int);
            assert(doc_leaves.take(j + 1).drop_last() =~= doc_leaves.take(j as int));
            assert(doc_leaves.take(j + 1).last() == leaf);
            assert((prior + doc_leaves.take(j + 1)).drop_last() =~= seen);
            assert((prior + doc_leaves.take(j + 1)).last() == leaf);
            let ghost before_errors = texts(errors@);
            if !text_eq(leaf.profile.as_str(), document.profile.as_str()) && !text_eq(
                leaf.profile.as_str(),
                "common",
            ) {
                push_error(
                    errors,
                    text4(
                        path.as_str(),
                        ": leaf ",
                        leaf.id.as_str(),
                        " profile does not match document profile",
                    ),
                );
            }
            let key = leaf.id.clone();
            let message = text2("duplicate coverage ID: ", leaf.id.as_str());
            let ghost leaf_view = leaf;
            let ghost old_leaves = leaves;
            proof {
                lemma_files_leaves_has_key(leaves, seen, leaf.id@);
            }
            let replaced = leaves.insert(key, leaf);
            if replaced.is_some() {
                push_error(errors, message);
            }
            proof {
                let now = prior + doc_leaves.take(j + 1);
                assert forall|k: Seq<char>| #[trigger] leaves.spec_get(k) == latest_leaf(now, k) by {
                }
                assert forall|i: int| 0 <= i < leaves.entries().len() implies (
                #[trigger] leaves.entries()[i]).0 == leaves.entries()[i].1.id@ by {
                    let k = leaves.entries()[i].0;
                    leaves.lemma_wf();
                    lemma_entries_get_at(leaves.entries(), i);
                    assert(leaves.entries()[i].0 == k);
                    assert(leaves.has_key(k));
                    if k != leaf_view.id@ {
                        assert(old_leaves.has_key(k));
                        let p = key_index(old_leaves.entries(), k);
                        old_leaves.lemma_wf();
                        lemma_entries_get_at(old_leaves.entries(), p);
                        assert(old_leaves.entries()[p].0 == k);
                        assert(old_leaves.entries()[p].0 == old_leaves.entries()[p].1.id@);
                        assert(old_leaves.spec_get(k) == leaves.spec_get(k));
                    } else {
                        assert(leaves.spec_get(k) == Some(leaf_view));
                    }
                }
                assert(leaf_errors(path@, document.profile@, prior, doc_leaves.take(j + 1))
                    == leaf_errors(path@, document.profile@, prior, doc_leaves.take(j as int)) + (
                if leaf_view.profile@ != document.profile@ && leaf_view.profile@ != "common"@ {
                    seq![path@ + ": leaf "@ + leaf_view.id@ + " profile does not match document profile"@]
                } else {
                    seq![]
                }) + (if leaf_ids(seen).contains(leaf_view.id@) {
                    seq!["duplicate coverage ID: "@ + leaf_view.id@]
                } else {
                    seq![]
                }));
                assert(texts(errors@) =~= after_version + leaf_errors(
                    path@,
                    document.profile@,
                    prior,
                    doc_leaves.take(j + 1),
                ));
            }
            j = j + 1;
        }
        proof {
            assert(doc_leaves.take(j as int) =~= doc_leaves);
            assert(all_leaves(input.take(d + 1)) =~= prior + doc_leaves);
            assert(texts(errors@) =~= start + surface_errors(input.take(d + 1)));
        }
        d = d + 1;
    }
    assert(input.take(d as int) =~= input);
    leaves
}


/// Some covered id names a threat (`threat.` prefix).
pub open spec fn has_threat_cover(covers: Seq<Seq<char>>) -> bool {
    exists|i: int| 0 <= i < covers.len() && "threat."@.is_prefix_of(#[trigger] covers[i])
}

/// Errors for the coverage ids `covers` that fixture `fid` of profile
/// `profile` claims, against the filed leaves `table`.
pub open spec fn cover_errors(
    fid: Seq<char>,
    profile: Seq<char>,
    covers: Seq<Seq<char>>,
    table: Seq<SurfaceLeaf>,
) -> Seq<Seq<char>>
    decreases covers.len(),
{
    if covers.len() == 0 {
        seq![]
    } else {
        let cid = covers.last();
        cover_errors(fid, profile, covers.drop_last(), table) + match latest_leaf(table, cid) {
            None => seq![fid + ": unknown coverage ID "@ + cid],
            Some(l) => if l.profile@ != "common"@ && l.profile@ != profile {
                seq![fid + ": coverage ID "@ + cid + " belongs to profile "@ + l.profile@]
            } else {
                seq![]
            },
        }
    }
}

/// Errors of fixture `i`.
pub open spec fn fixture_errors(
    fixtures: Seq<CaseManifest>,
    files: Seq<FixtureFiles>,
    i: int,
    table: Seq<SurfaceLeaf>,
) -> Seq<Seq<char>> {
    let f = fixtures[i];
    (if exists|j: int| 0 <= j < i && #[trigger] fixtures[j].id@ == f.id@ {
        seq!["duplicate fixture ID: "@ + f.id@]
    } else {
        seq![]
    }) + lint_errors(f, files[i]) + cover_errors(f.id@, f.profile@, f.covers.items(), table) + (
    if f.tests.has(TestClass::Bypass) && !has_threat_cover(f.covers.items()) {
        seq![f.id@ + ": bypass fixture must cover a threat.* ID"@]
    } else {
        seq![]
    }) + (if f.tests.has(TestClass::Differential) && !files[i].present.has("seed.sql"@) {
        seq![f.id@ + ": differential fixture requires seed.sql"@]
    } else {
        seq![]
    })
}

/// Errors of fixtures `0..n`, in order.
pub open spec fn fixtures_errors(
    fixtures: Seq<CaseManifest>,
    files: Seq<FixtureFiles>,
    n: int,
    table: Seq<SurfaceLeaf>,
) -> Seq<Seq<char>>
    decreases n,
{
    if n <= 0 {
        seq![]
    } else {
        fixtures_errors(fixtures, files, n - 1, table) + fixture_errors(fixtures, files, n - 1, table)
    }
}

/// Class `c` is covered for leaf `id`: the leaf is filed and one of the
/// fixtures `0..n` claims it with a test of class `c`.
pub open spec fn covered_by(
    fixtures: Seq<CaseManifest>,
    n: int,
    table: Seq<SurfaceLeaf>,
    id: Seq<char>,
    c: TestClass,
) -> bool {
    latest_leaf(table, id) is Some && exists|j: int|
        0 <= j < n && (#[trigger] fixtures[j]).covers.has(id) && fixtures[j].tests.has(c)
}

/// Fixture `x` is recorded for leaf `id`: the leaf is filed and one of the
/// fixtures `0..n` with id `x` claims it.
pub open spec fn claimed_by(
    fixtures: Seq<CaseManifest>,
    n: int,
    table: Seq<SurfaceLeaf>,
    id: Seq<char>,
    x: Seq<char>,
) -> bool {
    latest_leaf(table, id) is Some && exists|j: int|
        0 <= j < n && (#[trigger] fixtures[j]).covers.has(id) && fixtures[j].id@ == x
}

pub open spec fn class_set_has(s: Option<TestClassSet>, c: TestClass) -> bool {
    match s {
        Some(s) => s.has(c),
        None => false,
    }
}

pub open spec fn text_set_has(s: Option<TextSet>, x: Seq<char>) -> bool {
    match s {
        Some(s) => s.has(x),
        None => false,
    }
}

/// Whether some item of `covers` has the `threat.` prefix.
fn covers_threat(covers: &TextSet) -> (r: bool)
    ensures
        r == has_threat_cover(covers.items()),
{
    let n = covers.len();
    let mut k: usize = 0;
    while k < n
        invariant
            n == covers.items().len(),
            k <= n,
            forall|j: int| 0 <= j < k ==> !"threat."@.is_prefix_of(#[trigger] covers.items()[j]),
        decreases n - k,
    {
        if starts_with(covers.at(k), "threat.") {
            return true;
        }
        k = k + 1;
    }
    false
}

/// The per-leaf tallies after fixtures `0..n`.
pub open spec fn tallies(
    covered: TextMap<TestClassSet>,
    claims: TextMap<TextSet>,
    fixtures: Seq<CaseManifest>,
    n: int,
    table: Seq<SurfaceLeaf>,
) -> bool {
    &&& covered.wf()
    &&& claims.wf()
    &&& forall|id: Seq<char>, c: TestClass| #[trigger]
        class_set_has(covered.spec_get(id), c) == covered_by(fixtures, n, table, id, c)
    &&& forall|id: Seq<char>, x: Seq<char>| #[trigger]
        text_set_has(claims.spec_get(id), x) == claimed_by(fixtures, n, table, id, x)
}

/// The per-leaf tallies after fixtures `0..i` and the first `k` coverage ids
/// of fixture `i`.
pub open spec fn partial_tallies(
    covered: TextMap<TestClassSet>,
    claims: TextMap<TextSet>,
    fixtures: Seq<CaseManifest>,
    i: int,
    k: int,
    table: Seq<SurfaceLeaf>,
) -> bool {
    let f = fixtures[i];
    &&& covered.wf()
    &&& claims.wf()
    &&& forall|id: Seq<char>, c: TestClass| #[trigger]
        class_set_has(covered.spec_get(id), c) == (covered_by(fixtures, i, table, id, c) || (
        latest_leaf(table, id) is Some && f.covers.items().take(k).contains(id) && f.tests.has(c)))
    &&& forall|id: Seq<char>, x: Seq<char>| #[trigger]
        text_set_has(claims.spec_get(id), x) == (claimed_by(fixtures, i, table, id, x) || (
        latest_leaf(table, id) is Some && f.covers.items().take(k).contains(id) && f.id@ == x))
}

/// Records one coverage id of fixture `i` as covered by it.
#[verifier::rlimit(40)]
fn record_cover(
    fixture: &CaseManifest,
    cid: &str,
    Ghost(fixtures): Ghost<Seq<CaseManifest>>,
    Ghost(i): Ghost<int>,
    Ghost(k): Ghost<int>,
    Ghost(table): Ghost<Seq<SurfaceLeaf>>,
    covered: &mut TextMap<TestClassSet>,
    claims: &mut TextMap<TextSet>,
)
    requires
        0 <= i < fixtures.len(),
        fixtures[i] == *fixture,
        0 <= k < fixture.covers.items().len(),
        fixture.covers.items()[k] == cid@,
        latest_leaf(table, cid@) is Some,
        partial_tallies(*old(covered), *old(claims), fixtures, i, k, table),
    ensures
        partial_tallies(*final(covered), *final(claims), fixtures, i, k + 1, table),
{
    let ghost items = fixture.covers.items();
    let ghost old_covered = *covered;
    let ghost old_claims = *claims;
    let previous = covered.remove(cid);
    let updated = match previous {
        Some(set) => set.union(&fixture.tests),
        None => TestClassSet::new().union(&fixture.tests),
    };
    covered.insert(owned(cid), updated);
    let previous_claims = claims.remove(cid);
    let mut claimants = match previous_claims {
        Some(set) => set,
        None => TextSet::new(),
    };
    claimants.insert(fixture.id.clone());
    claims.insert(owned(cid), claimants);
    proof {
        assert forall|id: Seq<char>, c: TestClass| #[trigger]
            class_set_has(covered.spec_get(id), c) == (covered_by(fixtures, i, table, id, c) || (
            latest_leaf(table, id) is Some && items.take(k + 1).contains(id)
                && fixture.tests.has(c))) by {
            crate::catalog::lemma_take_one_more_text(items, k, id);
            if id != cid@ {
                assert(covered.spec_get(id) == old_covered.spec_get(id));
            } else {
                assert(covered.spec_get(id) == Some(updated));
                assert(class_set_has(old_covered.spec_get(id), c) == class_set_has(previous, c));
            }
        }
        assert forall|id: Seq<char>, x: Seq<char>| #[trigger]
            text_set_has(claims.spec_get(id), x) == (claimed_by(fixtures, i, table, id, x) || (
            latest_leaf(table, id) is Some && items.take(k + 1).contains(id) && fixture.id@
                == x)) by {
            crate::catalog::lemma_take_one_more_text(items, k, id);
            if id != cid@ {
                assert(claims.spec_get(id) == old_claims.spec_get(id));
            } else {
                assert(claims.spec_get(id) == Some(claimants));
                assert(text_set_has(old_claims.spec_get(id), x) == text_set_has(
                    previous_claims,
                    x,
                ));
            }
        }
    }
}

/// Checks the coverage ids that fixture `i` claims and records them.
#[verifier::rlimit(40)]
fn check_covers(
    fixture: &CaseManifest,
    leaves: &TextMap<SurfaceLeaf>,
    Ghost(fixtures): Ghost<Seq<CaseManifest>>,
    Ghost(i): Ghost<int>,
    Ghost(table): Ghost<Seq<SurfaceLeaf>>,
    covered: &mut TextMap<TestClassSet>,
    claims: &mut TextMap<TextSet>,
    errors: &mut Vec<String>,
)
    requires
        0 <= i < fixtures.len(),
        fixtures[i] == *fixture,
        files_leaves(*leaves, table),
        tallies(*old(covered), *old(claims), fixtures, i, table),
    ensures
        tallies(*final(covered), *final(claims), fixtures, i + 1, table),
        texts(final(errors)@) == texts(old(errors)@) + cover_errors(
            fixture.id@,
            fixture.profile@,
            fixture.covers.items(),
            table,
        ),
{
    let ghost start = texts(errors@);
    let ghost items = fixture.covers.items();
    assert(items.take(0) =~= Seq::<Seq<char>>::empty());
    let m = fixture.covers.len();
    let mut k: usize = 0;
    while k < m
        invariant
            0 <= i < fixtures.len(),
            fixtures[i] == *fixture,
            items == fixture.covers.items(),
            m == items.len(),
            k <= m,
            files_leaves(*leaves, table),
            partial_tallies(*covered, *claims, fixtures, i, k as int, table),
            texts(errors@) == start + cover_errors(
                fixture.id@,
                fixture.profile@,
                items.take(k as int),
                table,
            ),
        decreases m - k,
    {
        let cid = fixture.covers.at(k);
        assert(items.take(k + 1).drop_last() =~= items.take(k as int));
        assert(items.take(k + 1).last() == cid@);
        proof {
            leaves.lemma_wf();
        }
        match leaves.get(cid) {
            None => {
                push_error(errors, text3(fixture.id.as_str(), ": unknown coverage ID ", cid));
                proof {
                    assert(latest_leaf(table, cid@) is None);
                    assert forall|id: Seq<char>, c: TestClass| #[trigger]
                        class_set_has(covered.spec_get(id), c) == (covered_by(
                            fixtures,
                            i,
                            table,
                            id,
                            c,
                        ) || (latest_leaf(table, id) is Some && items.take(k + 1).contains(id)
                            && fixture.tests.has(c))) by {
                        crate::catalog::lemma_take_one_more_text(items, k as int, id);
                    }
                    assert forall|id: Seq<char>, x: Seq<char>| #[trigger]
                        text_set_has(claims.spec_get(id), x) == (claimed_by(
                            fixtures,
                            i,
                            table,
                            id,
                            x,
                        ) || (latest_leaf(table, id) is Some && items.take(k + 1).contains(id)
                            && fixture.id@ == x)) by {
                        crate::catalog::lemma_take_one_more_text(items, k as int, id);
                    }
                }
            },
            Some(leaf) => {
                assert(latest_leaf(table, cid@) == Some(*leaf));
                if !text_eq(leaf.profile.as_str(), "common") && !text_eq(
                    leaf.profile.as_str(),
                    fixture.profile.as_str(),
                ) {
                    let mut message = text4(
                        fixture.id.as_str(),
                        ": coverage ID ",
                        cid,
                        " belongs to profile ",
                    );
                    message.append(leaf.profile.as_str());
                    push_error(errors, message);
                }
                record_cover(
                    fixture,
                    cid,
                    Ghost(fixtures),
                    Ghost(i),
                    Ghost(k as int),
                    Ghost(table),
                    covered,
                    claims,
                );
            },
        }
        k = k + 1;
    }
    proof {
        assert(items.take(m as int) =~= items);
        assert forall|id: Seq<char>, c: TestClass| #[trigger]
            class_set_has(covered.spec_get(id), c) == covered_by(fixtures, i + 1, table, id, c) by {
            if fixture.covers.has(id) && fixture.tests.has(c) && latest_leaf(table, id) is Some {
                assert(fixtures[i].covers.has(id));
            }
            if covered_by(fixtures, i + 1, table, id, c) {
                let j = choose|j: int|
                    0 <= j < i + 1 && (#[trigger] fixtures[j]).covers.has(id)
                        && fixtures[j].tests.has(c);
                if j < i {
                    assert(covered_by(fixtures, i, table, id, c));
                }
            }
        }
        assert forall|id: Seq<char>, x: Seq<char>| #[trigger]
            text_set_has(claims.spec_get(id), x) == claimed_by(fixtures, i + 1, table, id, x) by {
            if fixture.covers.has(id) && fixture.id@ == x && latest_leaf(table, id) is Some {
                assert(fixtures[i].covers.has(id));
            }
            if claimed_by(fixtures, i + 1, table, id, x) {
                let j = choose|j: int|
                    0 <= j < i + 1 && (#[trigger] fixtures[j]).covers.has(id) && fixtures[j].id@
                        == x;
                if j < i {
                    assert(claimed_by(fixtures, i, table, id, x));
                }
            }
        }
    }
}

/// Checks every fixture against the filed leaves and gathers, per leaf id,
/// the covered test classes and the claiming fixture ids.
#[verifier::rlimit(80)]
#[verifier::spinoff_prover]
fn check_fixtures(
    fixtures: &[CaseManifest],
    files: &[FixtureFiles],
    leaves: &TextMap<SurfaceLeaf>,
    Ghost(table): Ghost<Seq<SurfaceLeaf>>,
    errors: &mut Vec<String>,
) -> (r: (TextMap<TestClassSet>, TextMap<TextSet>))
    requires
        files@.len() == fixtures@.len(),
        files_leaves(*leaves, table),
    ensures
        tallies(r.0, r.1, fixtures@, fixtures@.len() as int, table),
        texts(final(errors)@) == texts(old(errors)@) + fixtures_errors(
            fixtures@,
            files@,
            fixtures@.len() as int,
            table,
        ),
{
    let ghost start = texts(errors@);
    let mut case_ids = TextSet::new();
    let mut covered: TextMap<TestClassSet> = TextMap::new();
    let mut claims: TextMap<TextSet> = TextMap::new();
    let n = fixtures.len();
    let mut i: usize = 0;
    while i < n
        invariant
            n == fixtures@.len(),
            files@.len() == n,
            i <= n,
            files_leaves(*leaves, table),
            tallies(covered, claims, fixtures@, i as int, table),
            forall|x: Seq<char>| #[trigger]
                case_ids.has(x) == exists|j: int| 0 <= j < i && fixtures@[j].id@ == x,
            texts(errors@) == start + fixtures_errors(fixtures@, files@, i as int, table),
        decreases n - i,
    {
        let fixture = &fixtures[i];
        let ghost f = fixtures@[i as int];
        let ghost before_fixture = texts(errors@);
        let fresh = case_ids.insert(fixture.id.clone());
        if !fresh {
            push_error(errors, text2("duplicate fixture ID: ", fixture.id.as_str()));
        }
        lint_fixture_files(fixture, &files[i], errors);
        check_covers(
            fixture,
            leaves,
            Ghost(fixtures@),
            Ghost(i as int),
            Ghost(table),
            &mut covered,
            &mut claims,
            errors,
        );
        if fixture.tests.contains(TestClass::Bypass) && !covers_threat(&fixture.covers) {
            push_error(
                errors,
                text2(fixture.id.as_str(), ": bypass fixture must cover a threat.* ID"),
            );
        }
        if fixture.tests.contains(TestClass::Differential) && !files[i].present.contains(
            "seed.sql",
        ) {
            push_error(
                errors,
                text2(fixture.id.as_str(), ": differential fixture requires seed.sql"),
            );
        }
        proof {
            assert forall|x: Seq<char>| #[trigger] case_ids.has(x) == exists|j: int|
                0 <= j < i + 1 && fixtures@[j].id@ == x by {
                if x == f.id@ {
                    assert(fixtures@[i as int].id@ == x);
                }
                if exists|j: int| 0 <= j < i + 1 && fixtures@[j].id@ == x {
                    let j = choose|j: int| 0 <= j < i + 1 && fixtures@[j].id@ == x;
                    if j < i {
                        assert(exists|j: int| 0 <= j < i && fixtures@[j].id@ == x);
                    }
                }
            }
            assert(texts(errors@) =~= start + fixtures_errors(fixtures@, files@, i + 1, table));
        }
        i = i + 1;
    }
    (covered, claims)
}


/// The required classes of a row that no fixture covers, in class order.
pub open spec fn missing_classes(required: TestClassSet, covered: TestClassSet) -> Seq<TestClass> {
    class_order().filter(|c: TestClass| required.has(c) && !covered.has(c))
}

/// One error per class in `missing` for the advertised leaf `id`.
pub open spec fn missing_class_errors(id: Seq<char>, missing: Seq<TestClass>) -> Seq<Seq<char>> {
    missing.map_values(|c: TestClass| "advertised coverage "@ + id + " is missing "@ + class_name(c))
}

/// The errors that one row earns: an advertised leaf must be covered by
/// every class it requires.
pub open spec fn row_errors(row: CoverageRow) -> Seq<Seq<char>> {
    if row.status == SurfaceStatus::Advertised {
        missing_class_errors(row.coverage_id@, missing_classes(row.required, row.covered))
    } else {
        seq![]
    }
}

/// The errors of rows `rows`, in row order.
pub open spec fn rows_errors(rows: Seq<CoverageRow>) -> Seq<Seq<char>>
    decreases rows.len(),
{
    if rows.len() == 0 {
        seq![]
    } else {
        rows_errors(rows.drop_last()) + row_errors(rows.last())
    }
}

/// `row` reports leaf `leaf` with the classes and fixtures that the
/// fixtures claim for it.
pub open spec fn row_reports(
    row: CoverageRow,
    leaf: SurfaceLeaf,
    fixtures: Seq<CaseManifest>,
    table: Seq<SurfaceLeaf>,
) -> bool {
    &&& row.coverage_id@ == leaf.id@
    &&& row.profile@ == leaf.profile@
    &&& row.status == leaf.status
    &&& row.required == leaf.required_tests
    &&& forall|c: TestClass| #[trigger]
        row.covered.has(c) == covered_by(fixtures, fixtures.len() as int, table, leaf.id@, c)
    &&& forall|x: Seq<char>| #[trigger]
        row.fixtures.has(x) == claimed_by(fixtures, fixtures.len() as int, table, leaf.id@, x)
}

/// The report on `surfaces` and `fixtures`, where fixture `i` has the files
/// `files[i]`: one row per coverage id in ascending id order, each filed
/// from the last leaf declared with that id.
pub open spec fn reports(
    r: CoverageReport,
    surfaces: Seq<(String, SurfaceDocument)>,
    fixtures: Seq<CaseManifest>,
    files: Seq<FixtureFiles>,
) -> bool {
    let table = all_leaves(surfaces);
    &&& r.fixture_count == fixtures.len()
    &&& forall|i: int, j: int|
        0 <= i < j < r.rows@.len() ==> lex_lt(
            #[trigger] r.rows@[i].coverage_id@,
            #[trigger] r.rows@[j].coverage_id@,
        )
    &&& forall|id: Seq<char>|
        leaf_ids(table).contains(id) <==> exists|i: int|
            0 <= i < r.rows@.len() && #[trigger] r.rows@[i].coverage_id@ == id
    &&& forall|i: int|
        0 <= i < r.rows@.len() ==> (latest_leaf(table, (#[trigger] r.rows@[i]).coverage_id@) matches Some(
            leaf,
        ) && row_reports(r.rows@[i], leaf, fixtures, table))
    &&& texts(r.errors@) == surface_errors(surfaces) + fixtures_errors(
        fixtures,
        files,
        fixtures.len() as int,
        table,
    ) + rows_errors(r.rows@)
}

/// Validates all surface documents and fixtures and builds the traceable
/// report. Fixture `i` has the files `files[i]`.
#[verifier::rlimit(40)]
pub fn build_report(
    surfaces: Vec<(String, SurfaceDocument)>,
    fixtures: &[CaseManifest],
    files: &[FixtureFiles],
) -> (r: CoverageReport)
    requires
        files@.len() == fixtures@.len(),
    ensures
        reports(r, surfaces@, fixtures@, files@),
{
    let ghost input = surfaces@;
    let ghost table = all_leaves(surfaces@);
    let mut errors: Vec<String> = Vec::new();
    let leaves = collect_leaves(surfaces, &mut errors);
    let (covered, claims) = check_fixtures(fixtures, files, &leaves, Ghost(table), &mut errors);
    let ghost after = texts(errors@);
    let mut rows: Vec<CoverageRow> = Vec::new();
    let n = leaves.len();
    let mut i: usize = 0;
    while i < n
        invariant
            n == leaves.entries().len(),
            i <= n,
            files_leaves(leaves, table),
            tallies(covered, claims, fixtures@, fixtures@.len() as int, table),
            rows@.len() == i,
            forall|j: int|
                0 <= j < i ==> (#[trigger] rows@[j]).coverage_id@ == leaves.entries()[j].0,
            forall|j: int|
                0 <= j < i ==> row_reports(
                    #[trigger] rows@[j],
                    leaves.entries()[j].1,
                    fixtures@,
                    table,
                ),
            texts(errors@) == after + rows_errors(rows@),
        decreases n - i,
    {
        let id = leaves.key_at(i);
        let leaf = leaves.value_at(i);
        proof {
            leaves.lemma_wf();
            lemma_entries_get_at(leaves.entries(), i as int);
            assert(leaves.entries()[i as int].0 == leaf.id@);
        }
        let actual = match covered.get(id) {
            Some(set) => *set,
            None => TestClassSet::new(),
        };
        let claimed = match claims.get(id) {
            Some(set) => set.clone(),
            None => TextSet::new(),
        };
        let row = CoverageRow {
            coverage_id: owned(id),
            profile: leaf.profile.clone(),
            status: leaf.status,
            required: leaf.required_tests,
            covered: actual,
            fixtures: claimed,
        };
        proof {
            assert forall|c: TestClass| #[trigger] row.covered.has(c) == covered_by(
                fixtures@,
                fixtures@.len() as int,
                table,
                leaf.id@,
                c,
            ) by {
                assert(class_set_has(covered.spec_get(id@), c) == covered_by(
                    fixtures@,
                    fixtures@.len() as int,
                    table,
                    id@,
                    c,
                ));
            }
            assert forall|x: Seq<char>| #[trigger] row.fixtures.has(x) == claimed_by(
                fixtures@,
                fixtures@.len() as int,
                table,
                leaf.id@,
                x,
            ) by {
                assert(text_set_has(claims.spec_get(id@), x) == claimed_by(
                    fixtures@,
                    fixtures@.len() as int,
                    table,
                    id@,
                    x,
                ));
            }
        }
        let ghost before = texts(errors@);
        if leaf.status == SurfaceStatus::Advertised {
            let diff = leaf.required_tests.difference(&actual);
            let missing = diff.classes();
            proof {
                assert((|c: TestClass| leaf.required_tests.has(c) && !actual.has(c)) =~= (|
                    c: TestClass,
                | diff.has(c)));
            }
            let m = missing.len();
            let mut k: usize = 0;
            while k < m
                invariant
                    m == missing@.len(),
                    k <= m,
                    texts(errors@) == before + missing_class_errors(
                        id@,
                        missing@.take(k as int),
                    ),
                decreases m - k,
            {
                let mut message = text2("advertised coverage ", id);
                message.append(" is missing ");
                message.append(test_class_name(missing[k]));
                push_error(&mut errors, message);
                proof {
                    assert(missing@.take(k + 1) =~= missing@.take(k as int).push(missing@[k as int]));
                    assert(missing_class_errors(id@, missing@.take(k + 1)) =~= missing_class_errors(
                        id@,
                        missing@.take(k as int),
                    ).push(
                        "advertised coverage "@ + id@ + " is missing "@ + class_name(
                            missing@[k as int],
                        ),
                    ));
                }
                k = k + 1;
            }
            assert(missing@.take(m as int) =~= missing@);
        }
        let ghost prior = rows@;
        rows.push(row);
        proof {
            assert(rows@.drop_last() =~= prior);
            assert(texts(errors@) =~= after + rows_errors(rows@));
        }
        i = i + 1;
    }
    let r = CoverageReport { rows, fixture_count: fixtures.len(), errors };
    proof {
        leaves.lemma_wf();
        assert forall|a: int, b: int| 0 <= a < b < r.rows@.len() implies lex_lt(
            #[trigger] r.rows@[a].coverage_id@,
            #[trigger] r.rows@[b].coverage_id@,
        ) by {
            assert(r.rows@[a].coverage_id@ == leaves.entries()[a].0);
            assert(r.rows@[b].coverage_id@ == leaves.entries()[b].0);
        }
        assert forall|id: Seq<char>| leaf_ids(table).contains(id) <==> exists|i: int|
            0 <= i < r.rows@.len() && #[trigger] r.rows@[i].coverage_id@ == id by {
            lemma_files_leaves_has_key(leaves, table, id);
            if leaves.has_key(id) {
                let p = key_index(leaves.entries(), id);
                assert(r.rows@[p].coverage_id@ == id);
            }
            if exists|i: int| 0 <= i < r.rows@.len() && #[trigger] r.rows@[i].coverage_id@ == id {
                let i = choose|i: int| 0 <= i < r.rows@.len() && #[trigger] r.rows@[i].coverage_id@ == id;
                assert(leaves.entries()[i].0 == id);
            }
        }
        assert forall|i: int| 0 <= i < r.rows@.len() implies (latest_leaf(
            table,
            (#[trigger] r.rows@[i]).coverage_id@,
        ) matches Some(leaf) && row_reports(r.rows@[i], leaf, fixtures@, table)) by {
            lemma_entries_get_at(leaves.entries(), i);
            let k = leaves.entries()[i].0;
            assert(leaves.spec_get(k) == latest_leaf(table, k));
            assert(leaves.spec_get(k) == Some(leaves.entries()[i].1));
        }
    }
    r
}

/// A SQL fixture file, and the file of its expected output where there is
/// one.
#[derive(Clone, Debug, PartialEq, Eq)]
pub struct SqlFixture {
    pub input_path: String,
    pub expected_path: Option<String>,
}

/// Some fixture of `fixtures` has the input path `x`.
pub open spec fn fixture_listed(fixtures: Seq<SqlFixture>, x: Seq<char>) -> bool {
    exists|i: int| 0 <= i < fixtures.len() && #[trigger] fixtures[i].input_path@ == x
}

/// Some text of `paths` is `x`.
pub open spec fn path_given(paths: Seq<String>, x: Seq<char>) -> bool {
    exists|j: int| 0 <= j < paths.len() && #[trigger] paths[j]@ == x
}

/// The fixtures of the given SQL files, each path once, in ascending order
/// of path.
pub fn sql_fixtures(paths: &Vec<String>) -> (r: Vec<SqlFixture>)
    ensures
        forall|i: int| 0 <= i < r@.len() ==> (#[trigger] r@[i]).expected_path is None,
        forall|i: int, j: int|
            0 <= i < j < r@.len() ==> lex_lt(#[trigger] r@[i].input_path@, #[trigger] r@[j].input_path@),
        forall|x: Seq<char>|
            #![trigger fixture_listed(r@, x)]
            #![trigger path_given(paths@, x)]
            fixture_listed(r@, x) == path_given(paths@, x),
{
    let mut set = TextSet::new();
    let mut j: usize = 0;
    while j < paths.len()
        invariant
            j <= paths@.len(),
            forall|x: Seq<char>| #[trigger] set.has(x) == exists|k: int| 0 <= k < j && #[trigger] paths@[k]@ == x,
        decreases paths.len() - j,
    {
        let ghost before = set;
        set.insert(owned(paths[j].as_str()));
        proof {
            assert forall|x: Seq<char>| #[trigger] set.has(x) == exists|k: int| 0 <= k < j + 1 && #[trigger] paths@[k]@ == x by {
                if x == paths@[j as int]@ {
                    assert(paths@[j as int]@ == x);
                }
                if exists|k: int| 0 <= k < j + 1 && #[trigger] paths@[k]@ == x {
                    let k = choose|k: int| 0 <= k < j + 1 && #[trigger] paths@[k]@ == x;
                    if k < j {
                        assert(before.has(x));
                    }
                }
            }
        }
        j = j + 1;
    }
    set.ascending();
    let mut out: Vec<SqlFixture> = Vec::new();
    let mut i: usize = 0;
    while i < set.len()
        invariant
            i <= set.items().len(),
            out@.len() == i,
            forall|k: int| 0 <= k < i ==> (#[trigger] out@[k]).input_path@ == set.items()[k],
            forall|k: int| 0 <= k < i ==> (#[trigger] out@[k]).expected_path is None,
        decreases set.items().len() - i,
    {
        out.push(SqlFixture { input_path: owned(set.at(i)), expected_path: None });
        i = i + 1;
    }
    proof {
        assert forall|x: Seq<char>| fixture_listed(out@, x) == path_given(paths@, x) by {
            if exists|i: int| 0 <= i < out@.len() && #[trigger] out@[i].input_path@ == x {
                let i = choose|i: int| 0 <= i < out@.len() && #[trigger] out@[i].input_path@ == x;
                assert(set.items()[i] == x);
                assert(set.has(x));
            }
            if set.has(x) {
                let i = choose|i: int| 0 <= i < set.items().len() && set.items()[i] == x;
                assert(out@[i].input_path@ == x);
            }
        }
    }
    out
}


/// A row is uncovered: its surface is advertised, yet some class it
/// requires is not covered.
pub open spec fn row_uncovered(row: CoverageRow) -> bool {
    row.status == SurfaceStatus::Advertised && exists|c: TestClass| row.required.has(c) && !row.covered.has(c)
}

/// The positions of the uncovered rows among the first `n` rows, ascending.
pub open spec fn uncovered_upto(rows: Seq<CoverageRow>, n: int) -> Seq<usize>
    decreases n,
{
    if n <= 0 {
        seq![]
    } else {
        uncovered_upto(rows, n - 1) + if row_uncovered(rows[n - 1]) {
            seq![(n - 1) as usize]
        } else {
            seq![]
        }
    }
}

/// The positions of the report's uncovered rows, in report order.
pub fn uncovered_rows(report: &CoverageReport) -> (r: Vec<usize>)
    ensures
        r@ == uncovered_upto(report.rows@, report.rows@.len() as int),
{
    let mut out: Vec<usize> = Vec::new();
    let mut i: usize = 0;
    while i < report.rows.len()
        invariant
            i <= report.rows@.len(),
            out@ == uncovered_upto(report.rows@, i as int),
        decreases report.rows.len() - i,
    {
        let row = &report.rows[i];
        let missing = row.required.difference(&row.covered);
        let advertised = match row.status {
            SurfaceStatus::Advertised => true,
            _ => false,
        };
        let empty = missing.is_empty();
        proof {
            if !empty {
                let c = choose|c: TestClass| missing.has(c);
                assert(row.required.has(c) && !row.covered.has(c));
            }
            if empty {
                assert forall|c: TestClass| !(row.required.has(c) && !row.covered.has(c)) by {
                    assert(!missing.has(c));
                }
            }
        }
        if advertised && !empty {
            out.push(i);
        }
        proof {
            assert(row_uncovered(report.rows@[i as int]) == (advertised && !empty));
        }
        i = i + 1;
    }
    out
}

} // verus!
