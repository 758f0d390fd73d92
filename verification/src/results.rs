//! What the database hands back, checked against what its sealed plan
//! promised before anything of it reaches the caller.
use vstd::prelude::*;
use crate::adapter::AdapterError;
use crate::contract::{
    comparer, constraints_hold, constraints_hold_exec, contract_holds, format_accepts,
    format_accepts_spec, NumericOrder,
};
use crate::emit::SqliteProfile;
use crate::execution::{ExecutionLimits, ResultColumnDescriptor, VerifiedExecutionPlan};
use crate::describe::representation_of;
use crate::identity::{LogicalType, LogicalValue, OperationKind, ValueDescriptor, ValueRepresentation};
use crate::params::value_fits;
use vstd::utf8::encode_utf8;

verus! {

/// A result as the database transport returned it.
#[derive(Clone, Debug, PartialEq, Eq)]
pub struct ExecuteResult {
    pub columns: Vec<String>,
    pub rows: Vec<Vec<LogicalValue>>,
    pub redactions: Vec<Vec<bool>>,
    pub affected_rows: u64,
}

/// The IEEE-754 bits of a finite double.
pub open spec fn finite_bits(bits: u64) -> bool {
    (bits >> 52u64) & 0x7ffu64 != 0x7ffu64
}

/// A value of `v`'s kind may stand for type `t`.
pub open spec fn kind_fits(v: LogicalValue, t: LogicalType) -> bool {
    match v {
        LogicalValue::String(_) => t == LogicalType::String || t == LogicalType::Date || t == LogicalType::DateTime
            || t == LogicalType::Instant,
        LogicalValue::Boolean(_) => t == LogicalType::Boolean,
        LogicalValue::Int64(_) => t == LogicalType::Integer || t == LogicalType::Int64,
        LogicalValue::Bytes(_) => t == LogicalType::Bytes,
        LogicalValue::Json(_) => t == LogicalType::Json,
        LogicalValue::Number(bits) => t == LogicalType::Number && finite_bits(bits),
        LogicalValue::Null => false,
    }
}

/// A result value is accepted at a type exactly where the same value would
/// be accepted as a parameter of that type, with two differences that
/// results check elsewhere or more strictly: an integer result stands for
/// an `Integer` column whatever its size (its exactness is checked against
/// the column), and a double result must be finite.
pub proof fn law_results_fit_as_parameters(v: LogicalValue, t: LogicalType)
    ensures
        !(v is Number) && !(v is Int64 && t == LogicalType::Integer) ==> (kind_fits(v, t) <==> value_fits(v, t)),
        v matches LogicalValue::Number(bits) ==> (kind_fits(v, t) <==> value_fits(v, t) && finite_bits(bits)),
        v is Int64 && t == LogicalType::Integer ==> kind_fits(v, t),
{
}

/// Text results fit every text-carried type, string, date, datetime and
/// instant alike, and only types whose results travel as strings.
pub proof fn law_text_results_fit_text_types(s: String, t: LogicalType)
    ensures
        kind_fits(LogicalValue::String(s), LogicalType::String),
        kind_fits(LogicalValue::String(s), LogicalType::Date),
        kind_fits(LogicalValue::String(s), LogicalType::DateTime),
        kind_fits(LogicalValue::String(s), LogicalType::Instant),
        kind_fits(LogicalValue::String(s), t) ==> representation_of(t) == ValueRepresentation::String,
{
}

/// An integer column holds only what a double holds exactly.
pub open spec fn exact_integer(v: LogicalValue, d: ValueDescriptor) -> bool {
    match v {
        LogicalValue::Int64(i) => d.logical_type != LogicalType::Integer || (-9_007_199_254_740_991 <= i
            <= 9_007_199_254_740_991),
        _ => true,
    }
}

/// A result value meets its column's descriptor: null only where the
/// column is nullable; otherwise of one of the column's possible types,
/// an integer a double holds exactly, in the declared format, and within
/// the declared constraints.
pub open spec fn value_accepted<F: Fn(&LogicalValue, &String) -> Option<NumericOrder>>(
    f: F,
    v: LogicalValue,
    d: ValueDescriptor,
    types: Seq<LogicalType>,
) -> bool {
    match v {
        LogicalValue::Null => d.nullable,
        _ => {
            &&& exists|i: int| 0 <= i < types.len() && #[trigger] kind_fits(v, types[i])
            &&& exact_integer(v, d)
            &&& format_accepts_spec(
                v,
                match d.format {
                    Some(s) => Some(s@),
                    None => None,
                },
            )
            &&& match d.constraints {
                None => true,
                Some(c) => constraints_hold(f, v, c),
            }
        },
    }
}

/// A result value that its column accepts meets the column's Catalog
/// contract: the same contract that the caller's values are held to.
pub proof fn law_accepted_results_meet_contracts<F: Fn(&LogicalValue, &String) -> Option<NumericOrder>>(
    f: F,
    v: LogicalValue,
    d: ValueDescriptor,
    types: Seq<LogicalType>,
)
    requires
        value_accepted(f, v, d, types),
    ensures
        contract_holds(f, v, d),
{
}

fn kind_fits_exec(v: &LogicalValue, t: LogicalType) -> (r: bool)
    ensures
        r == kind_fits(*v, t),
{
    match v {
        LogicalValue::String(_) => t == LogicalType::String || t == LogicalType::Date || t == LogicalType::DateTime
            || t == LogicalType::Instant,
        LogicalValue::Boolean(_) => t == LogicalType::Boolean,
        LogicalValue::Int64(_) => t == LogicalType::Integer || t == LogicalType::Int64,
        LogicalValue::Bytes(_) => t == LogicalType::Bytes,
        LogicalValue::Json(_) => t == LogicalType::Json,
        LogicalValue::Number(bits) => t == LogicalType::Number && (*bits >> 52u64) & 0x7ffu64 != 0x7ffu64,
        LogicalValue::Null => false,
    }
}

/// Checks one result value against its column's descriptor and possible
/// types; `numbers` compares numbers with the decimal bounds of the
/// constraints.
pub fn validate_value<F: Fn(&LogicalValue, &String) -> Option<NumericOrder>>(
    value: &LogicalValue,
    descriptor: &ValueDescriptor,
    possible_types: &[LogicalType],
    numbers: &F,
) -> (r: Result<(), AdapterError>)
    requires
        comparer(*numbers),
    ensures
        r is Ok == value_accepted(*numbers, *value, *descriptor, possible_types@),
        r is Err ==> r == Err::<(), AdapterError>(AdapterError::InvalidResult),
{
    if let LogicalValue::Null = value {
        return if descriptor.nullable {
            Ok(())
        } else {
            Err(AdapterError::InvalidResult)
        };
    }
    let mut fits = false;
    let mut i: usize = 0;
    while i < possible_types.len()
        invariant
            i <= possible_types@.len(),
            fits == exists|j: int| 0 <= j < i && #[trigger] kind_fits(*value, possible_types@[j]),
        decreases possible_types.len() - i,
    {
        let this = kind_fits_exec(value, possible_types[i]);
        fits = fits || this;
        i = i + 1;
    }
    if !fits {
        return Err(AdapterError::InvalidResult);
    }
    if let LogicalValue::Int64(n) = value {
        if descriptor.logical_type == LogicalType::Integer && (*n > 9_007_199_254_740_991 || *n
            < -9_007_199_254_740_991) {
            return Err(AdapterError::InvalidResult);
        }
    }
    let format = match &descriptor.format {
        Some(s) => Some(s.as_str()),
        None => None,
    };
    if !format_accepts(value, format) {
        return Err(AdapterError::InvalidResult);
    }
    match &descriptor.constraints {
        None => Ok(()),
        Some(c) => if constraints_hold_exec(numbers, value, c) {
            Ok(())
        } else {
            Err(AdapterError::InvalidResult)
        },
    }
}

/// The bytes a value counts toward a result's size limit.
pub open spec fn value_size_spec(v: LogicalValue) -> int {
    match v {
        LogicalValue::Null => 0,
        LogicalValue::String(s) => encode_utf8(s@).len() as int,
        LogicalValue::Json(s) => encode_utf8(s@).len() as int,
        LogicalValue::Boolean(_) => 1,
        LogicalValue::Int64(_) => 8,
        LogicalValue::Number(_) => 8,
        LogicalValue::Bytes(b) => b@.len() as int,
    }
}

pub fn value_size(value: &LogicalValue) -> (r: u64)
    ensures
        r == value_size_spec(*value),
{
    match value {
        LogicalValue::Null => 0,
        LogicalValue::String(s) => s.as_str().as_bytes().len() as u64,
        LogicalValue::Json(s) => s.as_str().as_bytes().len() as u64,
        LogicalValue::Boolean(_) => 1,
        LogicalValue::Int64(_) => 8,
        LogicalValue::Number(_) => 8,
        LogicalValue::Bytes(b) => b.len() as u64,
    }
}


/// The texts of a result's column names.
pub open spec fn names_of(columns: Seq<String>) -> Seq<Seq<char>> {
    columns.map_values(|c: String| c@)
}

/// The values of a result's rows.
pub open spec fn rows_of(rows: Seq<Vec<LogicalValue>>) -> Seq<Seq<LogicalValue>> {
    rows.map_values(|r: Vec<LogicalValue>| r@)
}

/// The redaction flags of a result's rows.
pub open spec fn flags_of(flags: Seq<Vec<bool>>) -> Seq<Seq<bool>> {
    flags.map_values(|f: Vec<bool>| f@)
}

/// How many physical columns a public column takes: two where a
/// visibility companion follows it.
pub open spec fn width(d: ResultColumnDescriptor) -> int {
    match d.visibility_column {
        Some(_) => 2,
        None => 1,
    }
}

/// Where the `k`-th public column starts among the physical columns.
pub open spec fn offset(ds: Seq<ResultColumnDescriptor>, k: int) -> int
    decreases k,
{
    if k <= 0 {
        0
    } else {
        offset(ds, k - 1) + width(ds[k - 1])
    }
}

/// How many physical columns a result with columns `ds` has.
pub open spec fn physical_width(ds: Seq<ResultColumnDescriptor>) -> int {
    offset(ds, ds.len() as int)
}

proof fn lemma_offset_nonneg(ds: Seq<ResultColumnDescriptor>, k: int)
    ensures
        offset(ds, k) >= 0,
    decreases k,
{
    if k > 0 {
        lemma_offset_nonneg(ds, k - 1);
    }
}

proof fn lemma_offset_grows(ds: Seq<ResultColumnDescriptor>, j: int, k: int)
    requires
        0 <= j <= k,
    ensures
        0 <= offset(ds, j) <= offset(ds, k),
        j < k ==> offset(ds, j) + width(ds[j]) <= offset(ds, k),
    decreases k - j,
{
    lemma_offset_nonneg(ds, j);
    if j < k {
        lemma_offset_grows(ds, j + 1, k);
    }
}

/// The physical columns of `ds`: each public name, each followed by its
/// visibility companion where it has one.
pub open spec fn physical_names(ds: Seq<ResultColumnDescriptor>) -> Seq<Seq<char>>
    decreases ds.len(),
{
    if ds.len() == 0 {
        seq![]
    } else {
        physical_names(ds.drop_last()) + match ds.last().visibility_column {
            Some(v) => seq![ds.last().name@, v@],
            None => seq![ds.last().name@],
        }
    }
}

/// The companion at `p + 1` is a boolean, and a hidden value is null.
pub open spec fn companion_ok(row: Seq<LogicalValue>, p: int) -> bool {
    match row[p + 1] {
        LogicalValue::Boolean(visible) => visible || row[p] is Null,
        _ => false,
    }
}

/// A physical row has one value per physical column and a well-formed
/// companion for each conditional column.
pub open spec fn strip_ok(row: Seq<LogicalValue>, ds: Seq<ResultColumnDescriptor>) -> bool {
    &&& row.len() == physical_width(ds)
    &&& forall|k: int|
        0 <= k < ds.len() && (#[trigger] ds[k]).visibility_column is Some ==> companion_ok(row, offset(ds, k))
}

/// The public values of a physical row.
pub open spec fn public_row(row: Seq<LogicalValue>, ds: Seq<ResultColumnDescriptor>) -> Seq<LogicalValue> {
    Seq::new(ds.len(), |k: int| row[offset(ds, k)])
}

/// Which public values of a physical row were redacted.
pub open spec fn row_flags(row: Seq<LogicalValue>, ds: Seq<ResultColumnDescriptor>) -> Seq<bool> {
    Seq::new(
        ds.len(),
        |k: int| ds[k].visibility_column is Some && row[offset(ds, k) + 1] == LogicalValue::Boolean(false),
    )
}

/// The public names of `ds`.
pub open spec fn public_names(ds: Seq<ResultColumnDescriptor>) -> Seq<Seq<char>> {
    Seq::new(ds.len(), |k: int| ds[k].name@)
}

/// The physical columns that a sealed plan's result has.
pub fn physical_result_columns(plan: &VerifiedExecutionPlan<SqliteProfile>) -> (r: Vec<String>)
    ensures
        names_of(r@) == physical_names(plan.candidate_spec().result_spec()),
{
    let ds = plan.result();
    let ghost d = ds@;
    let mut out: Vec<String> = Vec::new();
    let mut k: usize = 0;
    while k < ds.len()
        invariant
            d == ds@,
            k <= d.len(),
            names_of(out@) == physical_names(d.take(k as int)),
        decreases ds.len() - k,
    {
        proof {
            assert(d.take(k as int + 1).drop_last() =~= d.take(k as int));
        }
        out.push(crate::text::owned(ds[k].name.as_str()));
        match &ds[k].visibility_column {
            Some(v) => out.push(crate::text::owned(v.as_str())),
            None => {},
        }
        k = k + 1;
        proof {
            assert(names_of(out@) =~= physical_names(d.take(k as int)));
        }
    }
    proof {
        assert(d.take(d.len() as int) =~= d);
    }
    out
}

/// The public names of a sealed plan's result.
fn public_result_columns(plan: &VerifiedExecutionPlan<SqliteProfile>) -> (r: Vec<String>)
    ensures
        names_of(r@) == public_names(plan.candidate_spec().result_spec()),
{
    let ds = plan.result();
    let mut out: Vec<String> = Vec::new();
    let mut k: usize = 0;
    while k < ds.len()
        invariant
            k <= ds@.len(),
            out@.len() == k,
            forall|j: int| 0 <= j < k ==> out@[j]@ == ds@[j].name@,
        decreases ds.len() - k,
    {
        out.push(crate::text::owned(ds[k].name.as_str()));
        k = k + 1;
    }
    proof {
        assert(names_of(out@) =~= public_names(ds@));
    }
    out
}

/// Whether two lists of texts are the same.
fn same_texts(a: &Vec<String>, b: &Vec<String>) -> (r: bool)
    ensures
        r == (names_of(a@) == names_of(b@)),
{
    if a.len() != b.len() {
        proof {
            assert(names_of(a@).len() != names_of(b@).len());
        }
        return false;
    }
    let mut i: usize = 0;
    while i < a.len()
        invariant
            a@.len() == b@.len(),
            i <= a@.len(),
            forall|j: int| 0 <= j < i ==> a@[j]@ == b@[j]@,
        decreases a.len() - i,
    {
        if !crate::text::text_eq(a[i].as_str(), b[i].as_str()) {
            proof {
                assert(names_of(a@)[i as int] != names_of(b@)[i as int]);
            }
            return false;
        }
        i = i + 1;
    }
    proof {
        assert(names_of(a@) =~= names_of(b@));
    }
    true
}

/// Takes the public values and redaction flags out of one physical row,
/// or `None` where the row does not have the plan's physical shape.
fn strip_row(row: &mut Vec<LogicalValue>, ds: &[ResultColumnDescriptor]) -> (r: Option<(Vec<LogicalValue>, Vec<bool>)>)
    ensures
        r is Some == strip_ok(old(row)@, ds@),
        r matches Some((vs, fs)) ==> vs@ == public_row(old(row)@, ds@) && fs@ == row_flags(old(row)@, ds@),
{
    let ghost orig = row@;
    let ghost d = ds@;
    let mut values: Vec<LogicalValue> = Vec::new();
    let mut flags: Vec<bool> = Vec::new();
    let mut position: usize = 0;
    let mut k: usize = 0;
    while k < ds.len()
        invariant
            d == ds@,
            orig == old(row)@,
            k <= d.len(),
            row@.len() == orig.len(),
            position == offset(d, k as int),
            forall|p: int| position <= p < orig.len() ==> row@[p] == orig[p],
            values@.len() == k,
            flags@.len() == k,
            forall|j: int| 0 <= j < k ==> values@[j] == orig[offset(d, j)],
            forall|j: int|
                0 <= j < k ==> flags@[j] == ((#[trigger] d[j]).visibility_column is Some && orig[offset(d, j) + 1]
                    == LogicalValue::Boolean(false)),
            forall|j: int| 0 <= j < k && (#[trigger] d[j]).visibility_column is Some ==> companion_ok(orig, offset(d, j)),
        decreases ds.len() - k,
    {
        proof {
            lemma_offset_grows(d, k as int, d.len() as int);
        }
        if position >= row.len() {
            return None;
        }
        let mut value = LogicalValue::Null;
        std::mem::swap(&mut value, &mut row[position]);
        let hidden = match &ds[k].visibility_column {
            Some(_) => {
                if position + 1 >= row.len() {
                    return None;
                }
                let visible = match &row[position + 1] {
                    LogicalValue::Boolean(b) => *b,
                    _ => {
                        proof {
                            assert(!companion_ok(orig, offset(d, k as int)));
                        }
                        return None;
                    },
                };
                let null = match &value {
                    LogicalValue::Null => true,
                    _ => false,
                };
                if !visible && !null {
                    proof {
                        assert(!companion_ok(orig, offset(d, k as int)));
                    }
                    return None;
                }
                position = position + 2;
                !visible
            },
            None => {
                position = position + 1;
                false
            },
        };
        values.push(value);
        flags.push(hidden);
        k = k + 1;
    }
    if position != row.len() {
        return None;
    }
    proof {
        assert(values@ =~= public_row(orig, d));
        assert(flags@ =~= row_flags(orig, d));
    }
    Some((values, flags))
}


/// Every physical row has the plan's physical shape.
pub open spec fn rows_strip(rows: Seq<Seq<LogicalValue>>, ds: Seq<ResultColumnDescriptor>) -> bool {
    forall|i: int| 0 <= i < rows.len() ==> strip_ok(#[trigger] rows[i], ds)
}

/// The public values of physical rows.
pub open spec fn public_rows(rows: Seq<Seq<LogicalValue>>, ds: Seq<ResultColumnDescriptor>) -> Seq<Seq<LogicalValue>> {
    Seq::new(rows.len(), |i: int| public_row(rows[i], ds))
}

/// The redaction flags of physical rows.
pub open spec fn all_flags(rows: Seq<Seq<LogicalValue>>, ds: Seq<ResultColumnDescriptor>) -> Seq<Seq<bool>> {
    Seq::new(rows.len(), |i: int| row_flags(rows[i], ds))
}

/// Replaces a physical result by its public columns, values and redaction
/// flags; refuses a result whose columns or rows are not the plan's
/// physical ones, or whose companion of a hidden value is not false with a
/// null value.
pub fn strip_visibility_columns(plan: &VerifiedExecutionPlan<SqliteProfile>, result: &mut ExecuteResult) -> (r:
    Result<(), AdapterError>)
    ensures
        r is Ok == (names_of(old(result).columns@) == physical_names(plan.candidate_spec().result_spec()) && rows_strip(
            rows_of(old(result).rows@),
            plan.candidate_spec().result_spec(),
        )),
        r is Err ==> r == Err::<(), AdapterError>(AdapterError::InvalidResult),
        r is Ok ==> {
            &&& names_of(final(result).columns@) == public_names(plan.candidate_spec().result_spec())
            &&& rows_of(final(result).rows@) == public_rows(rows_of(old(result).rows@), plan.candidate_spec().result_spec())
            &&& flags_of(final(result).redactions@) == all_flags(rows_of(old(result).rows@), plan.candidate_spec().result_spec())
            &&& final(result).affected_rows == old(result).affected_rows
        },
{
    let ds = plan.result();
    let ghost d = ds@;
    let physical = physical_result_columns(plan);
    if !same_texts(&result.columns, &physical) {
        return Err(AdapterError::InvalidResult);
    }
    let mut physical_rows: Vec<Vec<LogicalValue>> = Vec::new();
    std::mem::swap(&mut physical_rows, &mut result.rows);
    let ghost orig = rows_of(physical_rows@);
    assert(orig == rows_of(old(result).rows@));
    let mut values: Vec<Vec<LogicalValue>> = Vec::new();
    let mut flags: Vec<Vec<bool>> = Vec::new();
    let mut i: usize = 0;
    while i < physical_rows.len()
        invariant
            d == ds@,
            d == plan.candidate_spec().result_spec(),
            orig == rows_of(old(result).rows@),
            physical_rows@.len() == orig.len(),
            i <= orig.len(),
            forall|j: int| i <= j < orig.len() ==> (#[trigger] physical_rows@[j])@ == orig[j],
            values@.len() == i,
            flags@.len() == i,
            forall|j: int| 0 <= j < i ==> (#[trigger] values@[j])@ == public_row(orig[j], d),
            forall|j: int| 0 <= j < i ==> (#[trigger] flags@[j])@ == row_flags(orig[j], d),
            forall|j: int| 0 <= j < i ==> strip_ok(#[trigger] orig[j], d),
        decreases physical_rows.len() - i,
    {
        let mut row: Vec<LogicalValue> = Vec::new();
        std::mem::swap(&mut row, &mut physical_rows[i]);
        assert(row@ == orig[i as int]);
        match strip_row(&mut row, ds) {
            Some((vs, fs)) => {
                values.push(vs);
                flags.push(fs);
            },
            None => {
                return Err(AdapterError::InvalidResult);
            },
        }
        i = i + 1;
    }
    result.columns = public_result_columns(plan);
    result.rows = values;
    result.redactions = flags;
    proof {
        assert(rows_of(result.rows@) =~= public_rows(orig, d));
        assert(flags_of(result.redactions@) =~= all_flags(orig, d));
    }
    Ok(())
}

/// The bytes counted after the first `j` values of `row`, starting from
/// `b0`, or the refusal met on the way: a value that its column does not
/// accept, or a total above `max`.
pub open spec fn scan_cells<F: Fn(&LogicalValue, &String) -> Option<NumericOrder>>(
    f: F,
    row: Seq<LogicalValue>,
    ds: Seq<ResultColumnDescriptor>,
    max: int,
    b0: int,
    j: int,
) -> Result<int, AdapterError>
    decreases j,
{
    if j <= 0 {
        Ok(b0)
    } else {
        match scan_cells(f, row, ds, max, b0, j - 1) {
            Err(e) => Err(e),
            Ok(b) => if !value_accepted(f, row[j - 1], ds[j - 1].value, ds[j - 1].possible_types@) {
                Err(AdapterError::InvalidResult)
            } else if b + value_size_spec(row[j - 1]) > max {
                Err(AdapterError::LimitExceeded)
            } else {
                Ok(b + value_size_spec(row[j - 1]))
            },
        }
    }
}

/// A row redacts a value only where its column may be redacted.
pub open spec fn flags_allowed(flags: Seq<bool>, ds: Seq<ResultColumnDescriptor>) -> bool {
    forall|k: int| 0 <= k < ds.len() && #[trigger] flags[k] ==> ds[k].redacted_on_null
}

/// The bytes counted after the first `i` public rows, or the refusal met
/// on the way.
pub open spec fn scan_rows<F: Fn(&LogicalValue, &String) -> Option<NumericOrder>>(
    f: F,
    rows: Seq<Seq<LogicalValue>>,
    flags: Seq<Seq<bool>>,
    ds: Seq<ResultColumnDescriptor>,
    max: int,
    i: int,
) -> Result<int, AdapterError>
    decreases i,
{
    if i <= 0 {
        Ok(0)
    } else {
        match scan_rows(f, rows, flags, ds, max, i - 1) {
            Err(e) => Err(e),
            Ok(b) => match scan_cells(f, rows[i - 1], ds, max, b, ds.len() as int) {
                Err(e) => Err(e),
                Ok(b2) => if !flags_allowed(flags[i - 1], ds) {
                    Err(AdapterError::InvalidResult)
                } else {
                    Ok(b2)
                },
            },
        }
    }
}

proof fn lemma_cells_fault_stays<F: Fn(&LogicalValue, &String) -> Option<NumericOrder>>(
    f: F,
    row: Seq<LogicalValue>,
    ds: Seq<ResultColumnDescriptor>,
    max: int,
    b0: int,
    j: int,
    n: int,
)
    requires
        0 <= j <= n,
        scan_cells(f, row, ds, max, b0, j) is Err,
    ensures
        scan_cells(f, row, ds, max, b0, n) == scan_cells(f, row, ds, max, b0, j),
    decreases n - j,
{
    if j < n {
        lemma_cells_fault_stays(f, row, ds, max, b0, j, n - 1);
    }
}

proof fn lemma_rows_fault_stays<F: Fn(&LogicalValue, &String) -> Option<NumericOrder>>(
    f: F,
    rows: Seq<Seq<LogicalValue>>,
    flags: Seq<Seq<bool>>,
    ds: Seq<ResultColumnDescriptor>,
    max: int,
    i: int,
    n: int,
)
    requires
        0 <= i <= n,
        scan_rows(f, rows, flags, ds, max, i) is Err,
    ensures
        scan_rows(f, rows, flags, ds, max, n) == scan_rows(f, rows, flags, ds, max, i),
    decreases n - i,
{
    if i < n {
        lemma_rows_fault_stays(f, rows, flags, ds, max, i, n - 1);
    }
}

/// What refuses a physical result of a sealed read: redaction flags sent
/// by the database, columns or rows not of the plan's physical shape, more
/// rows than the limit, a value its column does not accept, more bytes than
/// the limit, a redaction where the column may not be redacted, or a row
/// count other than the one expected.
pub open spec fn public_fault<F: Fn(&LogicalValue, &String) -> Option<NumericOrder>>(
    f: F,
    columns: Seq<Seq<char>>,
    rows: Seq<Seq<LogicalValue>>,
    no_flags: bool,
    ds: Seq<ResultColumnDescriptor>,
    limits: ExecutionLimits,
    expected_rows: Option<u64>,
) -> Option<AdapterError> {
    if !no_flags {
        Some(AdapterError::InvalidResult)
    } else if !(columns == physical_names(ds) && rows_strip(rows, ds)) {
        Some(AdapterError::InvalidResult)
    } else if rows.len() > limits.max_rows {
        Some(AdapterError::LimitExceeded)
    } else {
        match scan_rows(
            f,
            public_rows(rows, ds),
            all_flags(rows, ds),
            ds,
            limits.max_result_bytes as int,
            rows.len() as int,
        ) {
            Err(e) => Some(e),
            Ok(_) => match expected_rows {
                Some(e) => if rows.len() != e {
                    Some(AdapterError::ExpectationFailed)
                } else {
                    None
                },
                None => None,
            },
        }
    }
}

/// The plan's result columns.
pub open spec fn plan_columns(plan: VerifiedExecutionPlan<SqliteProfile>) -> Seq<ResultColumnDescriptor> {
    plan.candidate_spec().result_spec()
}

/// `after` is the public form of the physical result `before`.
pub open spec fn made_public(after: ExecuteResult, before: ExecuteResult, ds: Seq<ResultColumnDescriptor>) -> bool {
    &&& names_of(after.columns@) == public_names(ds)
    &&& rows_of(after.rows@) == public_rows(rows_of(before.rows@), ds)
    &&& flags_of(after.redactions@) == all_flags(rows_of(before.rows@), ds)
    &&& after.affected_rows == before.affected_rows
}

fn validate_public_result<F: Fn(&LogicalValue, &String) -> Option<NumericOrder>>(
    plan: &VerifiedExecutionPlan<SqliteProfile>,
    result: &mut ExecuteResult,
    numbers: &F,
) -> (r: Result<(), AdapterError>)
    requires
        comparer(*numbers),
    ensures
        r == match public_fault(
            *numbers,
            names_of(old(result).columns@),
            rows_of(old(result).rows@),
            old(result).redactions@.len() == 0,
            plan_columns(*plan),
            plan.candidate_spec().limits_spec(),
            plan.candidate_spec().expected_result_rows_spec(),
        ) {
            Some(e) => Err::<(), AdapterError>(e),
            None => Ok(()),
        },
        r is Ok ==> made_public(*final(result), *old(result), plan_columns(*plan)),
{
    if result.redactions.len() > 0 {
        return Err(AdapterError::InvalidResult);
    }
    match strip_visibility_columns(plan, result) {
        Ok(()) => {},
        Err(e) => return Err(e),
    }
    let ds = plan.result();
    let ghost d = ds@;
    let ghost p = public_rows(rows_of(old(result).rows@), d);
    let ghost fl = all_flags(rows_of(old(result).rows@), d);
    let limits = plan.limits();
    let max = limits.max_result_bytes;
    assert(result.rows@.len() == p.len());
    assert(p.len() == old(result).rows@.len());
    if result.rows.len() as u64 > limits.max_rows {
        return Err(AdapterError::LimitExceeded);
    }
    let mut bytes: u64 = 0;
    let mut i: usize = 0;
    while i < result.rows.len()
        invariant
            d == ds@,
            d == plan_columns(*plan),
            comparer(*numbers),
            rows_of(result.rows@) == p,
            flags_of(result.redactions@) == fl,
            p.len() == fl.len(),
            i <= p.len(),
            p == public_rows(rows_of(old(result).rows@), d),
            fl == all_flags(rows_of(old(result).rows@), d),
            old(result).redactions@.len() == 0,
            names_of(old(result).columns@) == physical_names(d),
            rows_strip(rows_of(old(result).rows@), d),
            limits == plan.candidate_spec().limits_spec(),
            max == limits.max_result_bytes,
            p.len() <= limits.max_rows,
            bytes <= max,
            scan_rows(*numbers, p, fl, d, max as int, i as int) == Ok::<int, AdapterError>(bytes as int),
        decreases result.rows.len() - i,
    {
        let ghost start = bytes as int;
        let row = &result.rows[i];
        assert(row@ == p[i as int]);
        assert(p[i as int].len() == d.len());
        let mut k: usize = 0;
        while k < ds.len()
            invariant
                d == ds@,
                comparer(*numbers),
                row@ == p[i as int],
                row@.len() == d.len(),
                k <= d.len(),
                bytes <= max,
                p == public_rows(rows_of(old(result).rows@), d),
                fl == all_flags(rows_of(old(result).rows@), d),
                old(result).redactions@.len() == 0,
                names_of(old(result).columns@) == physical_names(d),
                rows_strip(rows_of(old(result).rows@), d),
                limits == plan.candidate_spec().limits_spec(),
                max == limits.max_result_bytes,
                p.len() <= limits.max_rows,
                d == plan_columns(*plan),
                0 <= i < p.len(),
                scan_rows(*numbers, p, fl, d, max as int, i as int) == Ok::<int, AdapterError>(start),
                scan_cells(*numbers, p[i as int], d, max as int, start, k as int) == Ok::<int, AdapterError>(bytes as int),
            decreases ds.len() - k,
        {
            match validate_value(&row[k], &ds[k].value, ds[k].possible_types.as_slice(), numbers) {
                Ok(()) => {},
                Err(e) => {
                    proof {
                        lemma_cells_fault_stays(*numbers, p[i as int], d, max as int, start, k as int + 1, d.len() as int);
                        lemma_rows_fault_stays(*numbers, p, fl, d, max as int, i as int + 1, p.len() as int);
                    }
                    return Err(e);
                },
            }
            let size = value_size(&row[k]);
            if size > max - bytes {
                proof {
                    lemma_cells_fault_stays(*numbers, p[i as int], d, max as int, start, k as int + 1, d.len() as int);
                    lemma_rows_fault_stays(*numbers, p, fl, d, max as int, i as int + 1, p.len() as int);
                }
                return Err(AdapterError::LimitExceeded);
            }
            bytes = bytes + size;
            k = k + 1;
        }
        let flags = &result.redactions[i];
        assert(flags@ == fl[i as int]);
        let mut k: usize = 0;
        while k < ds.len()
            invariant
                d == ds@,
                flags@ == fl[i as int],
                fl[i as int].len() == d.len(),
                k <= d.len(),
                p == public_rows(rows_of(old(result).rows@), d),
                fl == all_flags(rows_of(old(result).rows@), d),
                old(result).redactions@.len() == 0,
                names_of(old(result).columns@) == physical_names(d),
                rows_strip(rows_of(old(result).rows@), d),
                limits == plan.candidate_spec().limits_spec(),
                max == limits.max_result_bytes,
                p.len() <= limits.max_rows,
                d == plan_columns(*plan),
                0 <= i < p.len(),
                scan_rows(*numbers, p, fl, d, max as int, i as int) == Ok::<int, AdapterError>(start),
                scan_cells(*numbers, p[i as int], d, max as int, start, d.len() as int) == Ok::<int, AdapterError>(bytes as int),
                forall|j: int| 0 <= j < k && #[trigger] flags@[j] ==> d[j].redacted_on_null,
            decreases ds.len() - k,
        {
            if flags[k] && !ds[k].redacted_on_null {
                proof {
                    assert(!flags_allowed(fl[i as int], d));
                    lemma_rows_fault_stays(*numbers, p, fl, d, max as int, i as int + 1, p.len() as int);
                }
                return Err(AdapterError::InvalidResult);
            }
            k = k + 1;
        }
        i = i + 1;
    }
    match plan.expected_result_rows() {
        Some(e) => if result.rows.len() as u64 != e {
            return Err(AdapterError::ExpectationFailed);
        },
        None => {},
    }
    Ok(())
}


/// What refuses a physical result of a sealed read: rows reported as
/// affected, then what `public_fault` refuses.
pub open spec fn read_fault<F: Fn(&LogicalValue, &String) -> Option<NumericOrder>>(
    f: F,
    result: ExecuteResult,
    plan: VerifiedExecutionPlan<SqliteProfile>,
) -> Option<AdapterError> {
    if result.affected_rows != 0 {
        Some(AdapterError::InvalidResult)
    } else {
        public_fault(
            f,
            names_of(result.columns@),
            rows_of(result.rows@),
            result.redactions@.len() == 0,
            plan_columns(plan),
            plan.candidate_spec().limits_spec(),
            plan.candidate_spec().expected_result_rows_spec(),
        )
    }
}

/// Checks the physical result of a sealed read and turns it into its
/// public form.
pub fn validate_result<F: Fn(&LogicalValue, &String) -> Option<NumericOrder>>(
    plan: &VerifiedExecutionPlan<SqliteProfile>,
    result: &mut ExecuteResult,
    numbers: &F,
) -> (r: Result<(), AdapterError>)
    requires
        comparer(*numbers),
    ensures
        r == match read_fault(*numbers, *old(result), *plan) {
            Some(e) => Err::<(), AdapterError>(e),
            None => Ok(()),
        },
        r is Ok ==> made_public(*final(result), *old(result), plan_columns(*plan)),
{
    if result.affected_rows != 0 {
        return Err(AdapterError::InvalidResult);
    }
    validate_public_result(plan, result, numbers)
}

/// The physical columns of a mutation whose post-state check column is
/// `check`.
pub open spec fn checked_names(ds: Seq<ResultColumnDescriptor>, check: Option<Seq<char>>) -> Seq<Seq<char>> {
    match check {
        Some(c) => physical_names(ds).push(c),
        None => physical_names(ds),
    }
}

/// What refuses a mutation's physical result before its check column is
/// read: redaction flags, an affected row count other than the expected
/// one, columns other than the plan's, or a row count other than the
/// affected count where rows are returned.
pub open spec fn mutation_shape_fault(result: ExecuteResult, plan: VerifiedExecutionPlan<SqliteProfile>) -> Option<
    AdapterError,
> {
    let c = plan.candidate_spec();
    if result.redactions@.len() != 0 {
        Some(AdapterError::InvalidResult)
    } else if c.expected_affected_rows_spec() matches Some(e) && result.affected_rows != e {
        Some(AdapterError::ExpectationFailed)
    } else if names_of(result.columns@) != checked_names(c.result_spec(), c.check_column_spec()) {
        Some(AdapterError::InvalidResult)
    } else if (c.check_column_spec() is Some || c.result_spec().len() > 0) && result.rows@.len()
        != result.affected_rows {
        Some(AdapterError::InvalidResult)
    } else {
        None
    }
}

/// A row passed the mutation's post-state check: its last value is true.
pub open spec fn check_passed(row: Seq<LogicalValue>) -> bool {
    row.len() > 0 && row.last() == LogicalValue::Boolean(true)
}

/// The mutation's post-state check failed on some row.
pub open spec fn check_rejects(result: ExecuteResult, plan: VerifiedExecutionPlan<SqliteProfile>) -> bool {
    plan.candidate_spec().check_column_spec() is Some && exists|i: int|
        0 <= i < result.rows@.len() && !check_passed(#[trigger] result.rows@[i]@)
}

/// The rows left once the check column is dropped: none where the
/// mutation returns no columns.
pub open spec fn checked_rows(result: ExecuteResult, plan: VerifiedExecutionPlan<SqliteProfile>) -> Seq<
    Seq<LogicalValue>,
> {
    if plan.candidate_spec().check_column_spec() is None {
        rows_of(result.rows@)
    } else if plan_columns(plan).len() == 0 {
        seq![]
    } else {
        rows_of(result.rows@).map_values(|r: Seq<LogicalValue>| r.drop_last())
    }
}

/// The refusal of the public part of a mutation's result.
pub open spec fn mutation_public_fault<F: Fn(&LogicalValue, &String) -> Option<NumericOrder>>(
    f: F,
    result: ExecuteResult,
    plan: VerifiedExecutionPlan<SqliteProfile>,
) -> Option<AdapterError> {
    public_fault(
        f,
        physical_names(plan_columns(plan)),
        checked_rows(result, plan),
        true,
        plan_columns(plan),
        plan.candidate_spec().limits_spec(),
        plan.candidate_spec().expected_result_rows_spec(),
    )
}

/// Checks the physical result of a sealed mutation: its affected row
/// count, its shape, and the post-state check of every row, which it then
/// drops; the rest is checked as a read's result is, and the affected row
/// count is kept.
pub fn validate_mutation_result<F: Fn(&LogicalValue, &String) -> Option<NumericOrder>>(
    plan: &VerifiedExecutionPlan<SqliteProfile>,
    result: &mut ExecuteResult,
    numbers: &F,
) -> (r: Result<(), AdapterError>)
    requires
        comparer(*numbers),
    ensures
        match mutation_shape_fault(*old(result), *plan) {
            Some(e) => r == Err::<(), AdapterError>(e),
            None => if check_rejects(*old(result), *plan) {
                r matches Err(AdapterError::Rejected(m)) && m@ == "mutation post-state check failed"@
            } else {
                r == match mutation_public_fault(*numbers, *old(result), *plan) {
                    Some(e) => Err::<(), AdapterError>(e),
                    None => Ok(()),
                }
            },
        },
        r is Ok ==> {
            &&& names_of(final(result).columns@) == public_names(plan_columns(*plan))
            &&& rows_of(final(result).rows@) == public_rows(checked_rows(*old(result), *plan), plan_columns(*plan))
            &&& flags_of(final(result).redactions@) == all_flags(checked_rows(*old(result), *plan), plan_columns(*plan))
            &&& final(result).affected_rows == old(result).affected_rows
        },
{
    let ghost before = *result;
    let ds = plan.result();
    if result.redactions.len() > 0 {
        return Err(AdapterError::InvalidResult);
    }
    match plan.expected_affected_rows() {
        Some(e) => if result.affected_rows != e {
            return Err(AdapterError::ExpectationFailed);
        },
        None => {},
    }
    let mut expected = physical_result_columns(plan);
    match plan.operation_check_column() {
        Some(check) => {
            expected.push(crate::text::owned(check.as_str()));
            proof {
                assert(names_of(expected@) =~= checked_names(ds@, plan.candidate_spec().check_column_spec()));
            }
            if !same_texts(&result.columns, &expected) || result.rows.len() as u64 != result.affected_rows {
                return Err(AdapterError::InvalidResult);
            }
            let mut rows: Vec<Vec<LogicalValue>> = Vec::new();
            std::mem::swap(&mut rows, &mut result.rows);
            let ghost orig = rows@;
            let mut kept: Vec<Vec<LogicalValue>> = Vec::new();
            let mut i: usize = 0;
            while i < rows.len()
                invariant
                    orig == before.rows@,
                    before == *old(result),
                    mutation_shape_fault(before, *plan) is None,
                    plan.candidate_spec().check_column_spec() is Some,
                    ds@ == plan_columns(*plan),
                    names_of(result.columns@) == checked_names(ds@, plan.candidate_spec().check_column_spec()),
                    result.redactions@.len() == 0,
                    result.affected_rows == before.affected_rows,
                    rows@.len() == orig.len(),
                    i <= orig.len(),
                    forall|j: int| i <= j < orig.len() ==> (#[trigger] rows@[j])@ == orig[j]@,
                    kept@.len() == i,
                    forall|j: int| 0 <= j < i ==> (#[trigger] kept@[j])@ == orig[j]@.drop_last(),
                    forall|j: int| 0 <= j < i ==> check_passed(#[trigger] orig[j]@),
                decreases rows.len() - i,
            {
                let mut row: Vec<LogicalValue> = Vec::new();
                std::mem::swap(&mut row, &mut rows[i]);
                let passed = match row.pop() {
                    Some(LogicalValue::Boolean(b)) => b,
                    _ => false,
                };
                if !passed {
                    proof {
                        assert(!check_passed(orig[i as int]@));
                        assert(!check_passed(before.rows@[i as int]@));
                    }
                    return Err(AdapterError::Rejected(crate::text::owned("mutation post-state check failed")));
                }
                kept.push(row);
                i = i + 1;
            }
            let ghost names_before = result.columns@;
            result.columns.pop();
            proof {
                assert(result.columns@ =~= names_before.drop_last());
                let c = plan.candidate_spec().check_column_spec()->0;
                assert(names_of(names_before) == physical_names(ds@).push(c));
                assert(names_of(result.columns@) =~= names_of(names_before).drop_last());
                assert(physical_names(ds@).push(c).drop_last() =~= physical_names(ds@));
            }
            if ds.len() == 0 {
                result.rows = Vec::new();
            } else {
                result.rows = kept;
            }
            proof {
                assert(names_of(result.columns@) =~= physical_names(ds@));
                assert(rows_of(result.rows@) =~= checked_rows(before, *plan));
            }
        },
        None => {
            proof {
                assert(names_of(expected@) =~= checked_names(ds@, plan.candidate_spec().check_column_spec()));
            }
            if !same_texts(&result.columns, &expected) {
                return Err(AdapterError::InvalidResult);
            }
            if ds.len() > 0 && result.rows.len() as u64 != result.affected_rows {
                return Err(AdapterError::InvalidResult);
            }
        },
    }
    let affected_rows = result.affected_rows;
    result.affected_rows = 0;
    let checked = validate_public_result(plan, result, numbers);
    result.affected_rows = affected_rows;
    checked
}


/// `out` is what the check of a sealed plan's physical result `raw` gives
/// back when it accepts `raw`.
pub open spec fn sealed_output<F: Fn(&LogicalValue, &String) -> Option<NumericOrder>>(
    f: F,
    raw: ExecuteResult,
    plan: VerifiedExecutionPlan<SqliteProfile>,
    out: ExecuteResult,
) -> bool {
    if plan.candidate_spec().operation_spec() == OperationKind::Select {
        read_fault(f, raw, plan) is None && made_public(out, raw, plan_columns(plan))
    } else {
        &&& mutation_shape_fault(raw, plan) is None
        &&& !check_rejects(raw, plan)
        &&& mutation_public_fault(f, raw, plan) is None
        &&& names_of(out.columns@) == public_names(plan_columns(plan))
        &&& rows_of(out.rows@) == public_rows(checked_rows(raw, plan), plan_columns(plan))
        &&& flags_of(out.redactions@) == all_flags(checked_rows(raw, plan), plan_columns(plan))
        &&& out.affected_rows == raw.affected_rows
    }
}

/// Checks a sealed plan's physical result: a read's as a read's, any
/// other as a mutation's.
pub fn validate_sealed_result<F: Fn(&LogicalValue, &String) -> Option<NumericOrder>>(
    plan: &VerifiedExecutionPlan<SqliteProfile>,
    result: &mut ExecuteResult,
    numbers: &F,
) -> (r: Result<(), AdapterError>)
    requires
        comparer(*numbers),
    ensures
        plan.candidate_spec().operation_spec() == OperationKind::Select ==> r == match read_fault(
            *numbers,
            *old(result),
            *plan,
        ) {
            Some(e) => Err::<(), AdapterError>(e),
            None => Ok(()),
        },
        plan.candidate_spec().operation_spec() != OperationKind::Select ==> match mutation_shape_fault(
            *old(result),
            *plan,
        ) {
            Some(e) => r == Err::<(), AdapterError>(e),
            None => if check_rejects(*old(result), *plan) {
                r matches Err(AdapterError::Rejected(m)) && m@ == "mutation post-state check failed"@
            } else {
                r == match mutation_public_fault(*numbers, *old(result), *plan) {
                    Some(e) => Err::<(), AdapterError>(e),
                    None => Ok(()),
                }
            },
        },
        r is Ok ==> sealed_output(*numbers, *old(result), *plan, *final(result)),
{
    if plan.operation() == OperationKind::Select {
        validate_result(plan, result, numbers)
    } else {
        validate_mutation_result(plan, result, numbers)
    }
}

} // verus!
