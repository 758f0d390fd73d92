//! The Markdown rendering of a coverage report.
use vstd::prelude::*;
use crate::coverage::{
    CoverageReport, CoverageRow, TestClass, TestClassSet, class_name, status_name,
    surface_status_name, test_class_name,
};
use crate::text::{decimal, decimal_text, owned};

verus! {

/// The classes `cs`, each in backquotes, separated by `, `.
pub open spec fn quoted_classes(cs: Seq<TestClass>) -> Seq<char>
    decreases cs.len(),
{
    if cs.len() == 0 {
        seq![]
    } else if cs.len() == 1 {
        "`"@ + class_name(cs[0]) + "`"@
    } else {
        quoted_classes(cs.drop_last()) + ", `"@ + class_name(cs.last()) + "`"@
    }
}

/// The texts `ts` separated by `, `.
pub open spec fn comma_joined(ts: Seq<Seq<char>>) -> Seq<char>
    decreases ts.len(),
{
    if ts.len() == 0 {
        seq![]
    } else if ts.len() == 1 {
        ts[0]
    } else {
        comma_joined(ts.drop_last()) + ", "@ + ts.last()
    }
}

/// The table line of one row.
pub open spec fn row_line(row: CoverageRow) -> Seq<char> {
    "| `"@ + row.coverage_id@ + "` | `"@ + row.profile@ + "` | `"@ + status_name(row.status)
        + "` | "@ + quoted_classes(row.required.members()) + " | "@ + quoted_classes(
        row.covered.members(),
    ) + " | "@ + comma_joined(row.fixtures.items()) + " |\n"@
}

/// The table lines of `rows`, in order.
pub open spec fn row_lines(rows: Seq<CoverageRow>) -> Seq<char>
    decreases rows.len(),
{
    if rows.len() == 0 {
        seq![]
    } else {
        row_lines(rows.drop_last()) + row_line(rows.last())
    }
}

/// One list item per error, in order.
pub open spec fn error_lines(errors: Seq<Seq<char>>) -> Seq<char>
    decreases errors.len(),
{
    if errors.len() == 0 {
        seq![]
    } else {
        error_lines(errors.drop_last()) + "- "@ + errors.last() + "\n"@
    }
}

pub open spec fn markdown_header() -> Seq<char> {
    "# PolicySQL SQL surface coverage\n\n| Coverage ID | Profile | Status | Required | Covered | Fixtures |\n| --- | --- | --- | --- | --- | --- |\n"@
}

/// The Markdown document for a report.
pub open spec fn markdown(r: CoverageReport) -> Seq<char> {
    let errors = r.errors@.map_values(|e: String| e@);
    markdown_header() + row_lines(r.rows@) + "\nFixtures: "@ + decimal(r.fixture_count as nat)
        + "\n"@ + if errors.len() == 0 {
        "\nResult: PASS\n"@
    } else {
        "\n## Errors\n\n"@ + error_lines(errors)
    }
}

/// The members of `values` in class order, each in backquotes, separated by `, `.
pub fn join_debug(values: &TestClassSet) -> (r: String)
    ensures
        r@ == quoted_classes(values.members()),
{
    let cs = values.classes();
    let mut out = String::new();
    let mut k: usize = 0;
    assert(cs@.take(0) =~= Seq::<TestClass>::empty());
    assert(out@ =~= Seq::<char>::empty());
    while k < cs.len()
        invariant
            k <= cs@.len(),
            cs@ == values.members(),
            out@ == quoted_classes(cs@.take(k as int)),
        decreases cs.len() - k,
    {
        assert(cs@.take(k + 1).drop_last() =~= cs@.take(k as int));
        if k == 0 {
            out.append("`");
        } else {
            out.append(", `");
        }
        out.append(test_class_name(cs[k]));
        out.append("`");
        proof {
            if k == 0 {
                assert(cs@.take(1)[0] == cs@[0]);
            }
        }
        k = k + 1;
    }
    assert(cs@.take(cs@.len() as int) =~= cs@);
    out
}

/// The fixture ids of a row, separated by `, `.
fn join_fixtures(row: &CoverageRow) -> (r: String)
    ensures
        r@ == comma_joined(row.fixtures.items()),
{
    let ghost items = row.fixtures.items();
    let n = row.fixtures.len();
    let mut out = String::new();
    let mut k: usize = 0;
    assert(items.take(0) =~= Seq::<Seq<char>>::empty());
    assert(out@ =~= Seq::<char>::empty());
    while k < n
        invariant
            n == items.len(),
            items == row.fixtures.items(),
            k <= n,
            out@ == comma_joined(items.take(k as int)),
        decreases n - k,
    {
        assert(items.take(k + 1).drop_last() =~= items.take(k as int));
        if k > 0 {
            out.append(", ");
        }
        out.append(row.fixtures.at(k));
        proof {
            if k == 0 {
                assert(items.take(1)[0] == items[0]);
                assert(out@ =~= items[0]);
            }
        }
        k = k + 1;
    }
    assert(items.take(n as int) =~= items);
    out
}

/// Appends the table line of `row`.
fn push_row(output: &mut String, row: &CoverageRow)
    ensures
        final(output)@ == old(output)@ + row_line(*row),
{
    let required = join_debug(&row.required);
    let covered = join_debug(&row.covered);
    let fixtures = join_fixtures(row);
    let mut line = owned("| `");
    line.append(row.coverage_id.as_str());
    line.append("` | `");
    line.append(row.profile.as_str());
    line.append("` | `");
    line.append(surface_status_name(row.status));
    line.append("` | ");
    line.append(required.as_str());
    line.append(" | ");
    line.append(covered.as_str());
    line.append(" | ");
    line.append(fixtures.as_str());
    line.append(" |\n");
    assert(line@ =~= row_line(*row));
    output.append(line.as_str());
}

impl CoverageReport {
    /// No check failed.
    pub fn is_success(&self) -> (r: bool)
        ensures
            r == (self.errors@.len() == 0),
    {
        self.errors.len() == 0
    }

    /// The report as a Markdown document: the coverage table, the fixture
    /// count, then either the passing result or the list of errors.
    pub fn to_markdown(&self) -> (r: String)
        ensures
            r@ == markdown(*self),
    {
        let mut output = owned(
            "# PolicySQL SQL surface coverage\n\n| Coverage ID | Profile | Status | Required | Covered | Fixtures |\n| --- | --- | --- | --- | --- | --- |\n",
        );
        let n = self.rows.len();
        let mut i: usize = 0;
        assert(self.rows@.take(0) =~= Seq::<CoverageRow>::empty());
        while i < n
            invariant
                n == self.rows@.len(),
                i <= n,
                output@ == markdown_header() + row_lines(self.rows@.take(i as int)),
            decreases n - i,
        {
            let row = &self.rows[i];
            assert(self.rows@.take(i + 1).drop_last() =~= self.rows@.take(i as int));
            let ghost before = output@;
            push_row(&mut output, row);
            proof {
                assert(row_lines(self.rows@.take(i + 1)) == row_lines(self.rows@.take(i as int))
                    + row_line(self.rows@[i as int]));
                assert(output@ =~= markdown_header() + row_lines(self.rows@.take(i + 1)));
            }
            i = i + 1;
        }
        assert(self.rows@.take(n as int) =~= self.rows@);
        output.append("\nFixtures: ");
        let count = decimal_text(self.fixture_count as u64);
        output.append(count.as_str());
        output.append("\n");
        let ghost errors = self.errors@.map_values(|e: String| e@);
        if self.errors.len() == 0 {
            output.append("\nResult: PASS\n");
        } else {
            output.append("\n## Errors\n\n");
            let ghost base = output@;
            let m = self.errors.len();
            let mut k: usize = 0;
            assert(errors.take(0) =~= Seq::<Seq<char>>::empty());
            while k < m
                invariant
                    m == errors.len(),
                    errors == self.errors@.map_values(|e: String| e@),
                    k <= m,
                    output@ == base + error_lines(errors.take(k as int)),
                decreases m - k,
            {
                assert(errors.take(k + 1).drop_last() =~= errors.take(k as int));
                output.append("- ");
                output.append(self.errors[k].as_str());
                output.append("\n");
                proof {
                    assert(output@ =~= base + error_lines(errors.take(k + 1)));
                }
                k = k + 1;
            }
            assert(errors.take(m as int) =~= errors);
        }
        output
    }
}

} // verus!
