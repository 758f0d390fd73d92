//! Text formats that Catalog columns may declare: calendar dates, date-times,
//! UUIDs and e-mail addresses. All checks read the UTF-8 bytes of the text.
use vstd::prelude::*;
use vstd::utf8::is_continuation_byte;
use vstd::string::StringSliceAdditionalSpecFns;

verus! {

pub open spec fn is_ascii_digit(b: u8) -> bool {
    48 <= b <= 57
}

pub open spec fn is_ascii_hexdigit(b: u8) -> bool {
    (48 <= b <= 57) || (65 <= b <= 70) || (97 <= b <= 102)
}

/// Value of a run of decimal digits, most significant first.
pub open spec fn digits_value(s: Seq<u8>) -> nat
    decreases s.len(),
{
    if s.len() == 0 {
        0
    } else {
        digits_value(s.drop_last()) * 10 + (s.last() - 48) as nat
    }
}

pub open spec fn all_digits(s: Seq<u8>) -> bool {
    forall|i: int| 0 <= i < s.len() ==> is_ascii_digit(#[trigger] s[i])
}

/// What `str::parse` gives for an unsigned integer: an optional `+`, then one
/// or more decimal digits.
pub open spec fn parse_unsigned(s: Seq<u8>) -> Option<nat> {
    if s.len() > 0 && s[0] == 43u8 {
        if s.len() > 1 && all_digits(s.drop_first()) {
            Some(digits_value(s.drop_first()))
        } else {
            None
        }
    } else if s.len() > 0 && all_digits(s) {
        Some(digits_value(s))
    } else {
        None
    }
}

proof fn lemma_digits_value_bound(s: Seq<u8>)
    requires
        all_digits(s),
    ensures
        digits_value(s) < pow10(s.len()),
    decreases s.len(),
{
    if s.len() > 0 {
        assert(all_digits(s.drop_last())) by {
            assert forall|i: int| 0 <= i < s.drop_last().len() implies is_ascii_digit(
                #[trigger] s.drop_last()[i],
            ) by {
                assert(s.drop_last()[i] == s[i]);
            }
        }
        lemma_digits_value_bound(s.drop_last());
        assert(is_ascii_digit(s[s.len() - 1]));
    }
}

pub open spec fn pow10(n: nat) -> nat
    decreases n,
{
    if n == 0 {
        1
    } else {
        10 * pow10((n - 1) as nat)
    }
}

/// Parses `b[start..end]` as an unsigned decimal, as `str::parse` does, for
/// a span of at most four bytes.
fn parse_span(b: &[u8], start: usize, end: usize) -> (r: Option<u32>)
    requires
        start <= end <= b@.len(),
        end - start <= 4,
    ensures
        match parse_unsigned(b@.subrange(start as int, end as int)) {
            Some(v) => r == Some(v as u32) && v < 10000,
            None => r is None,
        },
{
    let ghost s = b@.subrange(start as int, end as int);
    if start == end {
        return None;
    }
    let mut i: usize = start;
    if b[start] == 43u8 {
        if end - start == 1 {
            return None;
        }
        i = start + 1;
    }
    let ghost digits = b@.subrange(i as int, end as int);
    assert(b[start as int] == 43u8 ==> digits =~= s.drop_first());
    assert(b[start as int] != 43u8 ==> digits =~= s);
    let mut value: u32 = 0;
    let mut j: usize = i;
    while j < end
        invariant
            start <= i <= j <= end <= b@.len(),
            end - start <= 4,
            digits == b@.subrange(i as int, end as int),
            s == b@.subrange(start as int, end as int),
            s.len() > 0,
            b@[start as int] == 43u8 ==> digits =~= s.drop_first(),
            b@[start as int] != 43u8 ==> digits =~= s,
            all_digits(b@.subrange(i as int, j as int)),
            value == digits_value(b@.subrange(i as int, j as int)),
            value < pow10((j - i) as nat),
        decreases end - j,
    {
        if !(48u8 <= b[j] && b[j] <= 57u8) {
            proof {
                assert(!is_ascii_digit(digits[j - i]));
                assert(!all_digits(digits));
                assert(s.len() > 0);
                if s[0] == 43u8 {
                    assert(digits =~= s.drop_first());
                } else {
                    assert(digits =~= s);
                }
            }
            return None;
        }
        let ghost prefix = b@.subrange(i as int, j as int);
        assert(b@.subrange(i as int, j + 1) =~= prefix.push(b[j as int]));
        assert(b@.subrange(i as int, j + 1).drop_last() =~= prefix);
        proof {
            assert(pow10((j + 1 - i) as nat) == 10 * pow10((j - i) as nat));
            assert(pow10(0) == 1);
            assert(pow10(1) == 10);
            assert(pow10(2) == 100);
            assert(pow10(3) == 1000);
            assert(pow10(4) == 10000);
            assert(j - i < 4);
            assert(value < 1000);
        }
        value = value * 10 + (b[j] - 48u8) as u32;
        j = j + 1;
    }
    assert(b@.subrange(i as int, end as int) =~= digits);
    proof {
        assert(pow10(0) == 1);
        assert(pow10(1) == 10);
        assert(pow10(2) == 100);
        assert(pow10(3) == 1000);
        assert(pow10(4) == 10000);
    }
    Some(value)
}

/// Days in `month` of `year` in the proleptic Gregorian calendar, or zero for
/// a month outside 1..=12.
pub open spec fn days_in_month(year: nat, month: nat) -> nat {
    if month == 1 || month == 3 || month == 5 || month == 7 || month == 8 || month == 10 || month
        == 12 {
        31
    } else if month == 4 || month == 6 || month == 9 || month == 11 {
        30
    } else if month == 2 {
        if year % 4 == 0 && (year % 100 != 0 || year % 400 == 0) {
            29
        } else {
            28
        }
    } else {
        0
    }
}

/// `YYYY-MM-DD` with a real calendar day. Each field is read the way
/// `str::parse` reads an unsigned integer.
pub open spec fn is_date(b: Seq<u8>) -> bool {
    &&& b.len() == 10
    &&& b[4] == 45u8
    &&& b[7] == 45u8
    &&& parse_unsigned(b.subrange(0, 4)) is Some
    &&& parse_unsigned(b.subrange(5, 7)) is Some
    &&& parse_unsigned(b.subrange(8, 10)) is Some
    &&& {
        let year = parse_unsigned(b.subrange(0, 4))->0;
        let month = parse_unsigned(b.subrange(5, 7))->0;
        let day = parse_unsigned(b.subrange(8, 10))->0;
        1 <= day <= days_in_month(year, month)
    }
}

fn month_days(year: u32, month: u32) -> (r: u32)
    ensures
        r == days_in_month(year as nat, month as nat),
{
    if month == 1 || month == 3 || month == 5 || month == 7 || month == 8 || month == 10 || month
        == 12 {
        31
    } else if month == 4 || month == 6 || month == 9 || month == 11 {
        30
    } else if month == 2 {
        if year % 4 == 0 && (year % 100 != 0 || year % 400 == 0) {
            29
        } else {
            28
        }
    } else {
        0
    }
}

fn date_bytes(b: &[u8]) -> (r: bool)
    ensures
        r == is_date(b@),
{
    if b.len() != 10 || b[4] != 45u8 || b[7] != 45u8 {
        return false;
    }
    let year = parse_span(b, 0, 4);
    let month = parse_span(b, 5, 7);
    let day = parse_span(b, 8, 10);
    match (year, month, day) {
        (Some(year), Some(month), Some(day)) => {
            let maximum: u32 = month_days(year, month);
            1 <= day && day <= maximum
        },
        _ => false,
    }
}

/// The core Catalog's `iso-date` check.
pub fn basic_date(value: &str) -> (r: bool)
    ensures
        r == is_date(value.spec_bytes()),
{
    date_bytes(value.as_bytes())
}

/// The Turso adapter's `iso-date` check.
pub fn valid_date(value: &str) -> (r: bool)
    ensures
        r == is_date(value.spec_bytes()),
{
    date_bytes(value.as_bytes())
}

/// `HH:MM:SS` starting at byte 11, with hour below 24 and minute and second
/// below 60.
pub open spec fn is_clock(b: Seq<u8>) -> bool {
    &&& b.len() >= 19
    &&& b[13] == 58u8
    &&& b[16] == 58u8
    &&& parse_unsigned(b.subrange(11, 13)) matches Some(h) && h < 24
    &&& parse_unsigned(b.subrange(14, 16)) matches Some(m) && m < 60
    &&& parse_unsigned(b.subrange(17, 19)) matches Some(s) && s < 60
}

/// Number of ASCII digits at the start of `s`.
pub open spec fn leading_digits(s: Seq<u8>) -> nat
    decreases s.len(),
{
    if s.len() > 0 && is_ascii_digit(s[0]) {
        1 + leading_digits(s.drop_first())
    } else {
        0
    }
}

/// What follows the seconds once an optional `.digits` fraction is removed,
/// or `None` when a `.` is not followed by a digit.
pub open spec fn after_fraction(suffix: Seq<u8>) -> Option<Seq<u8>> {
    if suffix.len() > 0 && suffix[0] == 46u8 {
        let digits = leading_digits(suffix.drop_first());
        if digits == 0 {
            None
        } else {
            Some(suffix.skip(digits as int + 1))
        }
    } else {
        Some(suffix)
    }
}

/// A `+HH:MM` or `-HH:MM` offset, or the letter `Z`; `lower_z` also admits `z`.
pub open spec fn is_offset(s: Seq<u8>, lower_z: bool) -> bool {
    ||| (s.len() == 1 && s[0] == 90u8)
    ||| (lower_z && s.len() == 1 && s[0] == 122u8)
    ||| {
        &&& s.len() == 6
        &&& (s[0] == 43u8 || s[0] == 45u8)
        &&& s[3] == 58u8
        &&& parse_unsigned(s.subrange(1, 3)) matches Some(h) && h < 24
        &&& parse_unsigned(s.subrange(4, 6)) matches Some(m) && m < 60
    }
}

/// A date, `T` or a space, a clock time, an optional fraction, and then
/// nothing (`require_offset` false) or an offset (`require_offset` true).
pub open spec fn is_datetime(b: Seq<u8>, require_offset: bool, lower_z: bool) -> bool {
    &&& b.len() >= 19
    &&& is_date(b.subrange(0, 10))
    &&& (b[10] == 84u8 || b[10] == 32u8)
    &&& is_clock(b)
    &&& match after_fraction(b.skip(19)) {
        Some(rest) => if require_offset {
            is_offset(rest, lower_z)
        } else {
            rest.len() == 0
        },
        None => false,
    }
}

fn clock_bytes(b: &[u8]) -> (r: bool)
    requires
        b@.len() >= 19,
    ensures
        r == is_clock(b@),
{
    if b[13] != 58u8 || b[16] != 58u8 {
        return false;
    }
    let hour = parse_span(b, 11, 13);
    let minute = parse_span(b, 14, 16);
    let second = parse_span(b, 17, 19);
    match (hour, minute, second) {
        (Some(h), Some(m), Some(s)) => h < 24 && m < 60 && s < 60,
        _ => false,
    }
}

fn offset_bytes(b: &[u8], start: usize, lower_z: bool) -> (r: bool)
    requires
        start <= b@.len(),
    ensures
        r == is_offset(b@.skip(start as int), lower_z),
{
    let n: usize = b.len() - start;
    let ghost s = b@.skip(start as int);
    if n == 1 && b[start] == 90u8 {
        return true;
    }
    if n == 1 && lower_z && b[start] == 122u8 {
        return true;
    }
    if n != 6 {
        return false;
    }
    if !(b[start] == 43u8 || b[start] == 45u8) || b[start + 3] != 58u8 {
        return false;
    }
    let hour = parse_span(b, start + 1, start + 3);
    let minute = parse_span(b, start + 4, start + 6);
    assert(s.subrange(1, 3) =~= b@.subrange(start + 1, start + 3));
    assert(s.subrange(4, 6) =~= b@.subrange(start + 4, start + 6));
    match (hour, minute) {
        (Some(h), Some(m)) => h < 24 && m < 60,
        _ => false,
    }
}

proof fn lemma_leading_digits(s: Seq<u8>, k: int)
    requires
        0 <= k <= s.len(),
        forall|i: int| 0 <= i < k ==> is_ascii_digit(#[trigger] s[i]),
        k == s.len() || !is_ascii_digit(s[k]),
    ensures
        leading_digits(s) == k,
    decreases k,
{
    if k > 0 {
        assert forall|i: int| 0 <= i < k - 1 implies is_ascii_digit(#[trigger] s.drop_first()[i]) by {
            assert(s.drop_first()[i] == s[i + 1]);
        }
        if k < s.len() {
            assert(s.drop_first()[k - 1] == s[k]);
        }
        lemma_leading_digits(s.drop_first(), k - 1);
    }
}

fn datetime_bytes(b: &[u8], require_offset: bool, lower_z: bool) -> (r: bool)
    ensures
        r == is_datetime(b@, require_offset, lower_z),
{
    if b.len() < 19 {
        return false;
    }
    let mut date: Vec<u8> = Vec::new();
    let mut k: usize = 0;
    while k < 10
        invariant
            k <= 10,
            b@.len() >= 19,
            date@ =~= b@.subrange(0, k as int),
        decreases 10 - k,
    {
        date.push(b[k]);
        k = k + 1;
    }
    if !date_bytes(date.as_slice()) {
        return false;
    }
    if !(b[10] == 84u8 || b[10] == 32u8) {
        return false;
    }
    if !clock_bytes(b) {
        return false;
    }
    let mut start: usize = 19;
    let ghost suffix = b@.skip(19);
    if b.len() > 19 && b[19] == 46u8 {
        let mut end: usize = 20;
        while end < b.len() && 48u8 <= b[end] && b[end] <= 57u8
            invariant
                20 <= end <= b@.len(),
                forall|i: int| 20 <= i < end ==> is_ascii_digit(#[trigger] b@[i]),
            decreases b.len() - end,
        {
            end = end + 1;
        }
        proof {
            let t = suffix.drop_first();
            assert forall|i: int| 0 <= i < end - 20 implies is_ascii_digit(#[trigger] t[i]) by {
                assert(t[i] == b@[i + 20]);
            }
            if end < b.len() {
                assert(t[end - 20] == b@[end as int]);
            }
            lemma_leading_digits(t, end - 20);
        }
        if end == 20 {
            return false;
        }
        start = end;
        assert(suffix.skip(end - 19) =~= b@.skip(end as int));
    } else {
        assert(suffix =~= b@.skip(19));
    }
    if !require_offset {
        return start == b.len();
    }
    offset_bytes(b, start, lower_z)
}

/// The core Catalog's `sqlite-datetime` (no offset) and `rfc3339` (offset
/// required) check.
pub fn basic_datetime(value: &str, require_offset: bool) -> (r: bool)
    ensures
        r == is_datetime(value.spec_bytes(), require_offset, false),
{
    datetime_bytes(value.as_bytes(), require_offset, false)
}

/// Byte `i` starts a scalar value (or is the end of the text).
pub open spec fn at_boundary(b: Seq<u8>, i: int) -> bool {
    i == b.len() || (0 <= i < b.len() && !is_continuation_byte(b[i]))
}

/// The inputs on which the Turso adapter's date-time check slices inside a
/// scalar value and panics.
pub open spec fn datetime_slices_split_scalar(b: Seq<u8>) -> bool {
    b.len() >= 19 && (!at_boundary(b, 10) || (is_date(b.subrange(0, 10)) && (b[10] == 84u8
        || b[10] == 32u8) && !at_boundary(b, 19)))
}

/// The Turso adapter's `sqlite-datetime` and `rfc3339` check, which also
/// accepts a lower-case `z` offset.
pub fn valid_datetime(value: &str, require_offset: bool) -> (r: bool)
    requires
        !datetime_slices_split_scalar(value.spec_bytes()),
    ensures
        r == is_datetime(value.spec_bytes(), require_offset, true),
{
    datetime_bytes(value.as_bytes(), require_offset, true)
}

/// `8-4-4-4-12` hexadecimal digits.
pub open spec fn is_uuid(b: Seq<u8>) -> bool {
    &&& b.len() == 36
    &&& forall|i: int|
        0 <= i < 36 ==> if i == 8 || i == 13 || i == 18 || i == 23 {
            #[trigger] b[i] == 45u8
        } else {
            is_ascii_hexdigit(b[i])
        }
}

fn uuid_bytes(b: &[u8]) -> (r: bool)
    ensures
        r == is_uuid(b@),
{
    if b.len() != 36 {
        return false;
    }
    let mut i: usize = 0;
    while i < 36
        invariant
            b@.len() == 36,
            i <= 36,
            forall|j: int|
                0 <= j < i ==> if j == 8 || j == 13 || j == 18 || j == 23 {
                    #[trigger] b@[j] == 45u8
                } else {
                    is_ascii_hexdigit(b@[j])
                },
        decreases 36 - i,
    {
        let c: u8 = b[i];
        if i == 8 || i == 13 || i == 18 || i == 23 {
            if c != 45u8 {
                return false;
            }
        } else if !((48u8 <= c && c <= 57u8) || (65u8 <= c && c <= 70u8) || (97u8 <= c && c
            <= 102u8)) {
            return false;
        }
        i = i + 1;
    }
    true
}

/// The core Catalog's `uuid` check.
pub fn basic_uuid(value: &str) -> (r: bool)
    ensures
        r == is_uuid(value.spec_bytes()),
{
    uuid_bytes(value.as_bytes())
}

/// The Turso adapter's `uuid` check.
pub fn valid_uuid(value: &str) -> (r: bool)
    ensures
        r == is_uuid(value.spec_bytes()),
{
    uuid_bytes(value.as_bytes())
}

/// Byte `p` holds the first `@` of `b`.
pub open spec fn is_first_at(b: Seq<u8>, p: int) -> bool {
    0 <= p < b.len() && b[p] == 64u8 && forall|j: int| 0 <= j < p ==> #[trigger] b[j] != 64u8
}

proof fn lemma_first_at_unique(b: Seq<u8>, p: int, q: int)
    requires
        is_first_at(b, p),
        is_first_at(b, q),
    ensures
        p == q,
{
    if p < q {
        assert(b[p] != 64u8);
    } else if q < p {
        assert(b[q] != 64u8);
    }
}

pub open spec fn contains_byte(b: Seq<u8>, c: u8) -> bool {
    exists|i: int| 0 <= i < b.len() && #[trigger] b[i] == c
}

/// The core Catalog's `email` rule: text before the first `@` is non-empty
/// and the text after it holds a `.`.
pub open spec fn is_basic_email(b: Seq<u8>) -> bool {
    exists|p: int| #[trigger] is_first_at(b, p) && p > 0 && contains_byte(b.skip(p + 1), 46u8)
}

pub open spec fn is_ascii_whitespace(c: u8) -> bool {
    c == 32u8 || c == 9u8 || c == 10u8 || c == 12u8 || c == 13u8
}

pub open spec fn is_ascii_control(c: u8) -> bool {
    c <= 31u8 || c == 127u8
}

/// The Turso adapter's `email` rule: a non-empty local part of at most 64
/// bytes, a domain of at most 253 bytes that holds a `.` and neither starts
/// nor ends with one, and no ASCII white space or control byte anywhere.
pub open spec fn is_email(b: Seq<u8>) -> bool {
    exists|p: int| #[trigger] is_first_at(b, p) && email_parts(b, p)
}

/// The Turso adapter's conditions on an address split at byte `p`.
pub open spec fn email_parts(b: Seq<u8>, p: int) -> bool {
    let domain = b.skip(p + 1);
    &&& p > 0
    &&& p <= 64
    &&& domain.len() <= 253
    &&& !(domain.len() > 0 && domain[0] == 46u8)
    &&& !(domain.len() > 0 && domain.last() == 46u8)
    &&& contains_byte(domain, 46u8)
    &&& forall|i: int|
        0 <= i < b.len() ==> !is_ascii_whitespace(#[trigger] b[i]) && !is_ascii_control(b[i])
}

fn find_at(b: &[u8]) -> (r: Option<usize>)
    ensures
        r matches Some(i) ==> is_first_at(b@, i as int),
        r is None ==> forall|p: int| !is_first_at(b@, p),
{
    let mut i: usize = 0;
    while i < b.len()
        invariant
            i <= b@.len(),
            forall|j: int| 0 <= j < i ==> #[trigger] b@[j] != 64u8,
        decreases b.len() - i,
    {
        if b[i] == 64u8 {
            return Some(i);
        }
        i = i + 1;
    }
    proof {
        assert forall|p: int| !is_first_at(b@, p) by {
            if 0 <= p < b@.len() {
                assert(b@[p] != 64u8);
            }
        }
    }
    None
}

fn has_byte_from(b: &[u8], start: usize, c: u8) -> (r: bool)
    requires
        start <= b@.len(),
    ensures
        r == contains_byte(b@.skip(start as int), c),
{
    let mut i: usize = start;
    while i < b.len()
        invariant
            start <= i <= b@.len(),
            forall|j: int| start <= j < i ==> b@[j] != c,
        decreases b.len() - i,
    {
        if b[i] == c {
            assert(b@.skip(start as int)[i - start] == c);
            return true;
        }
        i = i + 1;
    }
    proof {
        if contains_byte(b@.skip(start as int), c) {
            let j = choose|j: int|
                0 <= j < b@.skip(start as int).len() && b@.skip(start as int)[j] == c;
            assert(b@[start + j] == c);
        }
    }
    false
}

/// The core Catalog's `email` check.
pub fn basic_email(value: &str) -> (r: bool)
    ensures
        r == is_basic_email(value.spec_bytes()),
{
    let b = value.as_bytes();
    match find_at(b) {
        Some(p) => {
            assert(p < b.len());
            let r = p > 0 && has_byte_from(b, p + 1, 46u8);
            proof {
                if is_basic_email(b@) {
                    let q = choose|q: int|
                        #[trigger] is_first_at(b@, q) && q > 0 && contains_byte(
                            b@.skip(q + 1),
                            46u8,
                        );
                    lemma_first_at_unique(b@, p as int, q);
                }
            }
            r
        },
        None => false,
    }
}

/// The Turso adapter's `email` check.
pub fn valid_email(value: &str) -> (r: bool)
    ensures
        r == is_email(value.spec_bytes()),
{
    let b = value.as_bytes();
    let p: usize = match find_at(b) {
        Some(p) => p,
        None => {
            return false;
        },
    };
    let n: usize = b.len();
    proof {
        if is_email(b@) {
            let q = choose|q: int| #[trigger] is_first_at(b@, q) && email_parts(b@, q);
            lemma_first_at_unique(b@, p as int, q);
        }
    }
    assert(is_email(b@) == email_parts(b@, p as int));
    let domain_len: usize = n - (p + 1);
    let ghost domain = b@.skip(p + 1);
    if p == 0 || p > 64 || domain_len > 253 {
        return false;
    }
    if domain_len > 0 && b[p + 1] == 46u8 {
        return false;
    }
    if domain_len > 0 && b[n - 1] == 46u8 {
        assert(domain.last() == b@[n - 1]);
        return false;
    }
    if !has_byte_from(b, p + 1, 46u8) {
        return false;
    }
    let mut i: usize = 0;
    while i < n
        invariant
            n == b@.len(),
            b@ == value.spec_bytes(),
            i <= n,
            is_email(b@) == email_parts(b@, p as int),
            forall|j: int|
                0 <= j < i ==> !is_ascii_whitespace(#[trigger] b@[j]) && !is_ascii_control(b@[j]),
        decreases n - i,
    {
        let c: u8 = b[i];
        if c == 32u8 || c == 9u8 || c == 10u8 || c == 12u8 || c == 13u8 || c <= 31u8 || c == 127u8 {
            assert(is_ascii_whitespace(b@[i as int]) || is_ascii_control(b@[i as int]));
            assert(!email_parts(b@, p as int));
            return false;
        }
        i = i + 1;
    }
    proof {
        if domain_len > 0 {
            assert(domain.last() == b@[n - 1]);
            assert(domain[0] == b@[p + 1]);
        }
    }
    true
}

} // verus!
