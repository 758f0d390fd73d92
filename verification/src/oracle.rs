//! Reference semantics used to test the compiler independently: SQL
//! three-valued logic, `LIKE` matching, and an executor spy.
use vstd::prelude::*;
use vstd::string::StringSliceAdditionalSpecFns;

verus! {

/// SQL's three truth values.
#[derive(Clone, Copy, Debug, PartialEq, Eq, Structural)]
pub enum TruthValue {
    True,
    False,
    Unknown,
}

impl TruthValue {
    pub open spec fn spec_and(self, other: Self) -> Self {
        match (self, other) {
            (TruthValue::False, _) | (_, TruthValue::False) => TruthValue::False,
            (TruthValue::True, TruthValue::True) => TruthValue::True,
            _ => TruthValue::Unknown,
        }
    }

    pub open spec fn spec_or(self, other: Self) -> Self {
        match (self, other) {
            (TruthValue::True, _) | (_, TruthValue::True) => TruthValue::True,
            (TruthValue::False, TruthValue::False) => TruthValue::False,
            _ => TruthValue::Unknown,
        }
    }

    pub open spec fn spec_not(self) -> Self {
        match self {
            TruthValue::True => TruthValue::False,
            TruthValue::False => TruthValue::True,
            TruthValue::Unknown => TruthValue::Unknown,
        }
    }

    /// Three-valued conjunction: false wins, then unknown.
    pub fn and(self, other: Self) -> (r: Self)
        ensures
            r == self.spec_and(other),
    {
        match (self, other) {
            (TruthValue::False, _) | (_, TruthValue::False) => TruthValue::False,
            (TruthValue::True, TruthValue::True) => TruthValue::True,
            _ => TruthValue::Unknown,
        }
    }

    /// Three-valued disjunction: true wins, then unknown.
    pub fn or(self, other: Self) -> (r: Self)
        ensures
            r == self.spec_or(other),
    {
        match (self, other) {
            (TruthValue::True, _) | (_, TruthValue::True) => TruthValue::True,
            (TruthValue::False, TruthValue::False) => TruthValue::False,
            _ => TruthValue::Unknown,
        }
    }

    /// Three-valued negation: unknown stays unknown.
    pub fn not(self) -> (r: Self)
        ensures
            r == self.spec_not(),
    {
        match self {
            TruthValue::True => TruthValue::False,
            TruthValue::False => TruthValue::True,
            TruthValue::Unknown => TruthValue::Unknown,
        }
    }
}

/// The truth value of a definite boolean.
pub open spec fn spec_bool_truth(value: bool) -> TruthValue {
    if value {
        TruthValue::True
    } else {
        TruthValue::False
    }
}

pub fn bool_truth(value: bool) -> (r: TruthValue)
    ensures
        r == spec_bool_truth(value),
{
    if value {
        TruthValue::True
    } else {
        TruthValue::False
    }
}

/// On definite values the three-valued connectives are the boolean ones.
pub proof fn law_truth_agrees_with_bool(a: bool, b: bool)
    ensures
        spec_bool_truth(a).spec_and(spec_bool_truth(b)) == spec_bool_truth(a && b),
        spec_bool_truth(a).spec_or(spec_bool_truth(b)) == spec_bool_truth(a || b),
        spec_bool_truth(a).spec_not() == spec_bool_truth(!a),
{
}

/// Negation is an involution, and De Morgan's laws hold in three-valued logic.
pub proof fn law_truth_negation(a: TruthValue, b: TruthValue)
    ensures
        a.spec_not().spec_not() == a,
        a.spec_and(b).spec_not() == a.spec_not().spec_or(b.spec_not()),
        a.spec_or(b).spec_not() == a.spec_not().spec_and(b.spec_not()),
{
}

/// Conjunction and disjunction are commutative and associative, with `True`
/// and `False` as their identities and `False` and `True` as their zeros.
pub proof fn law_truth_algebra(a: TruthValue, b: TruthValue, c: TruthValue)
    ensures
        a.spec_and(b) == b.spec_and(a),
        a.spec_or(b) == b.spec_or(a),
        a.spec_and(b).spec_and(c) == a.spec_and(b.spec_and(c)),
        a.spec_or(b).spec_or(c) == a.spec_or(b.spec_or(c)),
        a.spec_and(TruthValue::True) == a,
        a.spec_or(TruthValue::False) == a,
        a.spec_and(TruthValue::False) == TruthValue::False,
        a.spec_or(TruthValue::True) == TruthValue::True,
{
}

/// ASCII case folding of one byte.
pub open spec fn lower_byte(b: u8) -> u8 {
    if 65 <= b <= 90 {
        (b + 32) as u8
    } else {
        b
    }
}

pub open spec fn lower_bytes(s: Seq<u8>) -> Seq<u8> {
    s.map_values(|b: u8| lower_byte(b))
}

/// Whether the first `i` bytes of `value` match the first `j` bytes of
/// `pattern`, where `%` matches any run of bytes and `_` exactly one byte.
pub open spec fn like_prefix(value: Seq<u8>, pattern: Seq<u8>, i: int, j: int) -> bool
    decreases i + j,
{
    if i < 0 || j < 0 {
        false
    } else if j == 0 {
        i == 0
    } else if pattern[j - 1] == 37u8 {
        like_prefix(value, pattern, i, j - 1) || (i > 0 && like_prefix(value, pattern, i - 1, j))
    } else if i == 0 {
        false
    } else if pattern[j - 1] == 95u8 {
        like_prefix(value, pattern, i - 1, j - 1)
    } else {
        pattern[j - 1] == value[i - 1] && like_prefix(value, pattern, i - 1, j - 1)
    }
}

/// `value LIKE pattern` as SQLite evaluates it for ASCII: case-insensitive
/// for ASCII letters, `%` and `_` wildcards, no escape character.
pub open spec fn like_matches(value: Seq<u8>, pattern: Seq<u8>) -> bool {
    let v = lower_bytes(value);
    let p = lower_bytes(pattern);
    like_prefix(v, p, v.len() as int, p.len() as int)
}

fn lowered(s: &[u8]) -> (r: Vec<u8>)
    ensures
        r@ == lower_bytes(s@),
{
    let mut out: Vec<u8> = Vec::new();
    let mut i: usize = 0;
    while i < s.len()
        invariant
            i <= s@.len(),
            out@ =~= lower_bytes(s@.take(i as int)),
        decreases s.len() - i,
    {
        let b = s[i];
        let l: u8 = if 65u8 <= b && b <= 90u8 {
            b + 32
        } else {
            b
        };
        out.push(l);
        assert(lower_bytes(s@.take(i + 1)) =~= lower_bytes(s@.take(i as int)).push(l));
        i = i + 1;
    }
    assert(s@.take(s@.len() as int) =~= s@);
    out
}

/// Evaluates `value LIKE pattern` row by row over the matching table.
pub fn sqlite_like(value: &str, pattern: &str) -> (r: bool)
    ensures
        r == like_matches(value.spec_bytes(), pattern.spec_bytes()),
{
    let v = lowered(value.as_bytes());
    let p = lowered(pattern.as_bytes());
    let n = v.len();
    let m = p.len();
    // row for the empty value prefix
    let mut prev: Vec<bool> = Vec::new();
    prev.push(true);
    let mut j: usize = 0;
    while j < m
        invariant
            m == p@.len(),
            0 <= j <= m,
            prev@.len() == j + 1,
            forall|k: int| 0 <= k <= j ==> #[trigger] prev@[k] == like_prefix(v@, p@, 0, k),
        decreases m - j,
    {
        let x = p[j] == 37u8 && prev[j];
        prev.push(x);
        j = j + 1;
    }
    let mut i: usize = 0;
    while i < n
        invariant
            n == v@.len(),
            m == p@.len(),
            0 <= i <= n,
            prev@.len() == m + 1,
            forall|k: int| 0 <= k <= m ==> #[trigger] prev@[k] == like_prefix(v@, p@, i as int, k),
        decreases n - i,
    {
        let mut cur: Vec<bool> = Vec::new();
        cur.push(false);
        let mut j: usize = 0;
        while j < m
            invariant
                n == v@.len(),
                m == p@.len(),
                0 <= i < n,
                0 <= j <= m,
                prev@.len() == m + 1,
                cur@.len() == j + 1,
                forall|k: int| 0 <= k <= m ==> #[trigger] prev@[k] == like_prefix(v@, p@, i as int, k),
                forall|k: int|
                    0 <= k <= j ==> #[trigger] cur@[k] == like_prefix(v@, p@, i + 1, k),
            decreases m - j,
        {
            let c = p[j];
            let x = if c == 37u8 {
                cur[j] || prev[j + 1]
            } else if c == 95u8 {
                prev[j]
            } else {
                c == v[i] && prev[j]
            };
            cur.push(x);
            j = j + 1;
        }
        prev = cur;
        i = i + 1;
    }
    prev[m]
}

/// In-memory executor spy used to show that rejected requests never reach an
/// adapter.
#[derive(Clone, Debug, PartialEq, Eq)]
pub struct RecordingExecutor<Request> {
    calls: Vec<Request>,
}

impl<Request> RecordingExecutor<Request> {
    /// The requests received so far, oldest first.
    pub closed spec fn recorded(&self) -> Seq<Request> {
        self.calls@
    }

    pub fn new() -> (r: Self)
        ensures
            r.recorded() == Seq::<Request>::empty(),
    {
        RecordingExecutor { calls: Vec::new() }
    }

    /// Records one request.
    pub fn execute(&mut self, request: Request)
        ensures
            final(self).recorded() == old(self).recorded().push(request),
    {
        self.calls.push(request);
    }

    pub fn call_count(&self) -> (r: usize)
        ensures
            r == self.recorded().len(),
    {
        self.calls.len()
    }

    pub fn calls(&self) -> (r: &[Request])
        ensures
            r@ == self.recorded(),
    {
        self.calls.as_slice()
    }
}

impl<Request> Default for RecordingExecutor<Request> {
    fn default() -> (r: Self)
        ensures
            r.recorded() == Seq::<Request>::empty(),
    {
        RecordingExecutor { calls: Vec::new() }
    }
}


/// Why the reference database could not answer.
#[derive(Debug)]
pub enum ReferenceError {
    Database,
    MissingParameter(String),
    UnsupportedValue,
    InvalidResult,
    RowLimit,
    ByteLimit,
}

/// Why the independent filter oracle could not evaluate a row.
#[derive(Clone, Debug, PartialEq, Eq)]
pub enum OracleError {
    InvalidPolicy,
    MissingResource,
    MissingRole,
    MissingColumn,
    MissingSession,
    IncompatibleValues,
    UnsupportedOperator,
}
} // verus!
