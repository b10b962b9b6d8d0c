//! Proleptic Gregorian calendar arithmetic on UTC day indices (days since
//! 1970-01-01): Howard Hinnant's `civil_from_days` / `days_from_civil`, month
//! lengths, weekdays, the "MM-DD" plan-date format and the month grid of the
//! date picker.
use vstd::prelude::*;
use crate::text::{chars_of, parse_unsigned, parse_unsigned_chars, string_of, trim, trim_chars, two_digit_string, two_digits};

verus! {

/// Integer division rounding toward zero, as Rust's `/` on signed integers.
pub open spec fn trunc_div(a: int, b: int) -> int {
    if a >= 0 {
        a / b
    } else {
        -((-a) / b)
    }
}

/// Hinnant's `civil_from_days`: the (year, month, day) that lies `z` days
/// after 1970-01-01.
pub open spec fn civil_of(z: int) -> (int, int, int) {
    let z1 = z + 719468;
    let era = trunc_div(if z1 >= 0 { z1 } else { z1 - 146096 }, 146097);
    let doe = z1 - era * 146097;
    let yoe = (doe - doe / 1460 + doe / 36524 - doe / 146096) / 365;
    let y = yoe + era * 400;
    let doy = doe - (365 * yoe + yoe / 4 - yoe / 100);
    let mp = trunc_div(5 * doy + 2, 153);
    let d = doy - trunc_div(153 * mp + 2, 5) + 1;
    let m = if mp < 10 { mp + 3 } else { mp - 9 };
    (if m <= 2 { y + 1 } else { y }, m, d)
}

/// The era (400-year cycle) of a shifted day index, rounding down.
proof fn lemma_era_bounds(z: int, era: int)
    requires
        era == trunc_div(if z >= 0 { z } else { z - 146096 }, 146097),
    ensures
        0 <= z - era * 146097 <= 146096,
{
    if z >= 0 {
        assert(0 <= z - era * 146097 <= 146096) by (nonlinear_arith)
            requires era == z / 146097, z >= 0;
    } else {
        let a = 146096 - z;
        assert(era == -(a / 146097));
        assert(0 <= z - era * 146097 <= 146096) by (nonlinear_arith)
            requires era == -(a / 146097), a == 146096 - z, z < 0;
    }
}

/// Hinnant's `days_from_civil`: days from 1970-01-01 to (y, m, d).
pub open spec fn days_of(y: int, m: int, d: int) -> int {
    let y1 = if m <= 2 { y - 1 } else { y };
    let era = trunc_div(if y1 >= 0 { y1 } else { y1 - 399 }, 400);
    let yoe = y1 - era * 400;
    let mp = if m > 2 { m - 3 } else { m + 9 };
    let doy = (153 * mp + 2) / 5 + d - 1;
    let doe = yoe * 365 + trunc_div(yoe, 4) - trunc_div(yoe, 100) + doy;
    era * 146097 + doe - 719468
}

pub open spec fn is_leap(y: int) -> bool {
    (y % 4 == 0 && y % 100 != 0) || y % 400 == 0
}

/// Number of days in month `m` of year `y`; 0 for a month outside 1..=12.
pub open spec fn month_len(y: int, m: int) -> int {
    if m == 1 || m == 3 || m == 5 || m == 7 || m == 8 || m == 10 || m == 12 {
        31
    } else if m == 4 || m == 6 || m == 9 || m == 11 {
        30
    } else if m == 2 {
        if is_leap(y) { 29 } else { 28 }
    } else {
        0
    }
}

/// Weekday of day index `z`: 0 = Sunday .. 6 = Saturday (1970-01-01 was a
/// Thursday).
pub open spec fn weekday_of(z: int) -> int {
    (z + 4) % 7
}

/// `(days_from_civil(y, m, 1) + 4).rem_euclid(7)`.
pub open spec fn first_weekday_spec(y: int, m: int) -> int {
    weekday_of(days_of(y, m, 1))
}

/// The (year, month, day) of `civil_of`, narrowed as the todo panel keeps it.
pub open spec fn civil_i64(z: int) -> (i64, u32, u32) {
    let (y, m, d) = civil_of(z);
    (y as i64, m as u32, d as u32)
}

/// Largest day index whose shift by the era offset stays inside `i64`.
pub open spec fn civil_in_range(z: int) -> bool {
    i64::MIN + 146096 - 719468 <= z && z <= i64::MAX - 719468
}

/// The day index of a UNIX millisecond timestamp (UTC, no time zone).
pub open spec fn day_of_ms(ms: int) -> int {
    ms / 86_400_000
}

/// `civil_from_days` as the todo panel uses it: the civil date of day `z`.
pub fn civil_from_days(z: i64) -> (r: (i64, u32, u32))
    requires
        civil_in_range(z as int),
    ensures
        r == civil_i64(z as int),
{
    let z = z + 719468;
    let era = if z >= 0 {
        z
    } else {
        z - 146096
    } / 146097;
    proof {
        lemma_era_bounds(z as int, era as int);
        assert(-100000000000000i64 <= era <= 100000000000000i64) by (nonlinear_arith)
            requires
                0 <= z - era * 146097 <= 146096,
                i64::MIN + 146096 <= z <= i64::MAX,
        ;
    }
    let doe = z - era * 146097;
    let yoe = (doe - doe / 1460 + doe / 36524 - doe / 146096) / 365;
    assert(0 <= yoe <= 400) by (nonlinear_arith)
        requires
            0 <= doe <= 146096,
            yoe == (doe - doe / 1460 + doe / 36524 - doe / 146096) / 365,
    ;
    let y = yoe + era * 400;
    let doy = doe - (365 * yoe + yoe / 4 - yoe / 100);
    let mp = (5 * doy + 2) / 153;
    let d = doy - (153 * mp + 2) / 5 + 1;
    let m = if mp < 10 {
        mp + 3
    } else {
        mp - 9
    };
    (if m <= 2 {
        y + 1
    } else {
        y
    }, m as u32, d as u32)
}

/// `days_from_civil`: the day index of (y, m, d), computed by Hinnant's
/// formula for every input (it is the inverse of `civil_from_days` on real
/// dates).
pub fn days_from_civil(y: i32, m: u32, d: u32) -> (r: i64)
    ensures
        r == days_of(y as int, m as int, d as int),
{
    let y = y as i64;
    let m = m as i64;
    let d = d as i64;
    let y = if m <= 2 {
        y - 1
    } else {
        y
    };
    let era = if y >= 0 {
        y
    } else {
        y - 399
    } / 400;
    assert(era == trunc_div(if y >= 0 { y as int } else { y - 399 }, 400));
    assert(-5368712 <= era <= 5368712) by (nonlinear_arith)
        requires
            era == trunc_div(if y >= 0 { y as int } else { y - 399 }, 400),
            -2147483649 <= y <= 2147483647,
    ;
    let yoe = y - era * 400;
    let mp = if m > 2 {
        m - 3
    } else {
        m + 9
    };
    let doy = (153 * mp + 2) / 5 + d - 1;
    assert(-800 <= yoe <= 800) by (nonlinear_arith)
        requires
            era == trunc_div(if y >= 0 { y as int } else { y - 399 }, 400),
            yoe == y - era * 400,
    ;
    let doe = yoe * 365 + yoe / 4 - yoe / 100 + doy;
    era * 146097 + doe - 719468
}

proof fn lemma_neg_divisible(a: int, b: int)
    requires
        b > 0,
    ensures
        ((-a) % b == 0) == (a % b == 0),
{
    vstd::arithmetic::div_mod::lemma_fundamental_div_mod(a, b);
    vstd::arithmetic::div_mod::lemma_fundamental_div_mod(-a, b);
    if a % b == 0 {
        assert(-a == (-(a / b)) * b) by (nonlinear_arith)
            requires a == b * (a / b) + 0;
        vstd::arithmetic::div_mod::lemma_mod_multiples_basic(-(a / b), b);
    }
    if (-a) % b == 0 {
        assert(a == (-((-a) / b)) * b) by (nonlinear_arith)
            requires -a == b * ((-a) / b) + 0;
        vstd::arithmetic::div_mod::lemma_mod_multiples_basic(-((-a) / b), b);
    }
}

/// Whether `k` divides `y`.
fn divisible(y: i32, k: i32) -> (r: bool)
    requires
        k > 0,
    ensures
        r == (y as int % k as int == 0),
{
    let a = y as i64;
    let b = k as i64;
    if a >= 0 {
        a % b == 0
    } else {
        let n = -a;
        let q = n % b == 0;
        proof {
            lemma_neg_divisible(a as int, b as int);
        }
        q
    }
}

/// `days_in_month`: 31/30/28/29 by month and leap year, 0 for a month
/// outside 1..=12.
pub fn days_in_month(y: i32, m: u32) -> (r: u32)
    ensures
        r == month_len(y as int, m as int),
{
    if m == 1 || m == 3 || m == 5 || m == 7 || m == 8 || m == 10 || m == 12 {
        31
    } else if m == 4 || m == 6 || m == 9 || m == 11 {
        30
    } else if m == 2 {
        let leap = (divisible(y, 4) && !divisible(y, 100)) || divisible(y, 400);
        if leap {
            29
        } else {
            28
        }
    } else {
        0
    }
}

/// Weekday (0 = Sunday) of the first day of month `m` of year `y`.
pub fn first_weekday_of_month(y: i32, m: u32) -> (r: u32)
    ensures
        r == first_weekday_spec(y as int, m as int),
        r < 7,
{
    let x = days_from_civil(y, m, 1) + 4;
    let t = x / 7;
    let q = x - t * 7;
    let r = if q < 0 {
        q + 7
    } else {
        q
    };
    proof {
        let k = if q < 0 { t - 1 } else { t as int };
        assert(-7 < q < 7) by (nonlinear_arith)
            requires t == trunc_div(x as int, 7), q == x - t * 7;
        assert(x == k * 7 + r);
        vstd::arithmetic::div_mod::lemma_fundamental_div_mod_converse(x as int, 7, k, r as int);
    }
    r as u32
}

/// Index of the first `c` in `s`.
pub open spec fn first_index(s: Seq<char>, c: char) -> Option<int>
    decreases s.len(),
{
    if s.len() == 0 {
        None
    } else if s[0] == c {
        Some(0)
    } else {
        match first_index(s.drop_first(), c) {
            Some(i) => Some(i + 1),
            None => None,
        }
    }
}

/// What `parse_month_day` returns for the characters `s`: split at the first
/// `-`, both halves trimmed and parsed as `u32`, month within 1..=12.
pub open spec fn month_day_of(s: Seq<char>) -> Option<(u32, u32)> {
    match first_index(s, '-') {
        None => None,
        Some(i) => {
            let mm = parse_unsigned(trim(s.subrange(0, i)), u32::MAX as int);
            let dd = parse_unsigned(trim(s.subrange(i + 1, s.len() as int)), u32::MAX as int);
            match (mm, dd) {
                (Some(m), Some(d)) => if 1 <= m <= 12 {
                    Some((m as u32, d as u32))
                } else {
                    None
                },
                _ => None,
            }
        },
    }
}

/// The first index found is an index of `c` in `s`.
pub proof fn lemma_first_index_range(s: Seq<char>, c: char)
    ensures
        first_index(s, c) matches Some(i) ==> 0 <= i < s.len() && s[i] == c,
    decreases s.len(),
{
    if s.len() > 0 && s[0] != c {
        lemma_first_index_range(s.drop_first(), c);
    }
}

pub proof fn lemma_first_index(s: Seq<char>, c: char, i: int)
    requires
        0 <= i <= s.len(),
        forall|k: int| 0 <= k < i ==> s[k] != c,
    ensures
        i < s.len() && s[i] == c ==> first_index(s, c) == Some(i),
        i == s.len() ==> first_index(s, c) is None,
    decreases i,
{
    if i > 0 {
        assert forall|k: int| 0 <= k < i - 1 implies s.drop_first()[k] != c by {
            assert(s.drop_first()[k] == s[k + 1]);
        }
        lemma_first_index(s.drop_first(), c, i - 1);
        if i < s.len() && s[i] == c {
            assert(s.drop_first()[i - 1] == s[i]);
        }
    }
}

/// Reads a "MM-DD" plan date, tolerating missing leading zeros ("8-3").
/// `None` when there is no `-`, either half is not an unsigned number, or the
/// month is outside 1..=12.
pub fn parse_month_day(s: &str) -> (r: Option<(u32, u32)>)
    ensures
        r == month_day_of(s@),
{
    let cs = chars_of(s);
    let n = cs.len();
    let mut i: usize = 0;
    while i < n && cs[i] != '-'
        invariant
            n == cs.len(),
            i <= n,
            forall|k: int| 0 <= k < i ==> cs@[k] != '-',
        decreases n - i,
    {
        i = i + 1;
    }
    proof {
        lemma_first_index(s@, '-', i as int);
    }
    if i == n {
        return None;
    }
    let mut left: Vec<char> = Vec::new();
    let mut k: usize = 0;
    while k < i
        invariant
            i < n == cs.len(),
            k <= i,
            left@ == cs@.subrange(0, k as int),
        decreases i - k,
    {
        left.push(cs[k]);
        k = k + 1;
        assert(left@ =~= cs@.subrange(0, k as int));
    }
    let mut right: Vec<char> = Vec::new();
    let mut k: usize = i + 1;
    while k < n
        invariant
            i < n == cs.len(),
            i + 1 <= k <= n,
            right@ == cs@.subrange(i + 1, k as int),
        decreases n - k,
    {
        right.push(cs[k]);
        k = k + 1;
        assert(right@ =~= cs@.subrange(i + 1, k as int));
    }
    let lt = trim_chars(&left);
    let rt = trim_chars(&right);
    let m = parse_unsigned_chars(&lt, u32::MAX as u64);
    let d = parse_unsigned_chars(&rt, u32::MAX as u64);
    match (m, d) {
        (Some(m), Some(d)) => {
            if 1 <= m && m <= 12 {
                Some((m as u32, d as u32))
            } else {
                None
            }
        },
        _ => None,
    }
}

/// "MM-DD" of the UTC date of a millisecond timestamp.
pub open spec fn month_day_label(ms: int) -> Seq<char> {
    let (_y, m, d) = civil_i64(ms / 1000 / 86400);
    two_digits(m as nat) + seq!['-'] + two_digits(d as nat)
}

/// `format_todo_month_day`: the "MM-DD" of the UTC date of `ms`.
pub fn format_todo_month_day(ms: u64) -> (r: String)
    ensures
        r@ == month_day_label(ms as int),
{
    let secs = ms / 1000;
    let days = (secs / 86400) as i64;
    let (_y, m, d) = civil_from_days(days);
    let mut cs = chars_of(two_digit_string(m as u64).as_str());
    cs.push('-');
    let mut ds = chars_of(two_digit_string(d as u64).as_str());
    cs.append(&mut ds);
    string_of(&cs)
}

/// Milliseconds since the UNIX epoch read from the system clock (0 when the
/// clock is before the epoch). Calls `SystemTime::now()`; nothing is promised
/// of the value.
#[verifier::external_body]
pub(crate) fn unix_time_millis() -> (r: u64) {
    std::time::SystemTime::now().duration_since(std::time::UNIX_EPOCH).map(|d| d.as_millis() as u64).unwrap_or(0)
}

/// The (year, month, day) of a UNIX time in seconds, UTC.
pub open spec fn ymd_of_secs(secs: int) -> (i32, u32, u32) {
    let (y, m, d) = civil_i64(secs / 86400);
    (y as i32, m, d)
}

/// The UTC civil date of a UNIX time in seconds.
pub fn ymd_from_unix_secs(secs: u64) -> (r: (i32, u32, u32))
    ensures
        r == ymd_of_secs(secs as int),
{
    let days = (secs / 86400) as i64;
    let (y, m, d) = civil_from_days(days);
    (y as i32, m, d)
}

/// Today's UTC date from the system clock; whatever the clock reads, the
/// result is the civil date of some UNIX time.
pub fn today_ymd() -> (r: (i32, u32, u32))
    ensures
        exists|secs: u64| r == ymd_of_secs(secs as int),
{
    let secs = unix_time_millis() / 1000;
    ymd_from_unix_secs(secs)
}

/// One cell of the date-picker grid: `None` for a blank before day 1 or after
/// the last day, else the day number and whether it is the highlighted day.
pub open spec fn grid_cell(first_wd: int, dim: int, m: int, selected: Option<(u32, u32)>, cell: int) -> Option<(u32, bool)> {
    let day = cell - first_wd + 1;
    if cell < first_wd || day > dim {
        None
    } else {
        Some((day as u32, selected == Some((m as u32, day as u32))))
    }
}

/// Number of grid rows shown: rows up to and including the one holding the
/// last day; six blank rows for a month of no days.
pub open spec fn grid_rows(first_wd: int, dim: int) -> int {
    if dim == 0 {
        6
    } else {
        (first_wd + dim - 1) / 7 + 1
    }
}

/// Number of cells in grid row `i`: seven, except that the row holding the
/// last day ends with it.
pub open spec fn grid_row_len(first_wd: int, dim: int, i: int) -> int {
    if dim > 0 && i == (first_wd + dim - 1) / 7 {
        (first_wd + dim - 1) % 7 + 1
    } else {
        7
    }
}

/// The month grid of the date picker for (y, m): weeks starting on Sunday,
/// blanks before day 1, the row of the last day ending with it; a day is
/// highlighted when it equals `selected`.
pub fn calendar_grid(y: i32, m: u32, selected: Option<(u32, u32)>) -> (r: Vec<Vec<Option<(u32, bool)>>>)
    ensures
        r.len() == grid_rows(first_weekday_spec(y as int, m as int), month_len(y as int, m as int)),
        forall|i: int| 0 <= i < r.len() ==> #[trigger] r[i].len() == grid_row_len(
            first_weekday_spec(y as int, m as int),
            month_len(y as int, m as int),
            i,
        ),
        forall|i: int, j: int| 0 <= i < r.len() && 0 <= j < r[i].len() ==> #[trigger] r[i][j]
            == grid_cell(
            first_weekday_spec(y as int, m as int),
            month_len(y as int, m as int),
            m as int,
            selected,
            i * 7 + j,
        ),
{
    let first_wd = first_weekday_of_month(y, m);
    let dim = days_in_month(y, m);
    let ghost fw = first_weekday_spec(y as int, m as int);
    let ghost dl = month_len(y as int, m as int);
    let mut rows: Vec<Vec<Option<(u32, bool)>>> = Vec::new();
    let mut r: u32 = 0;
    let mut done = false;
    while r < 6 && !done
        invariant
            first_wd == fw,
            dim == dl,
            0 <= fw < 7,
            0 <= dl <= 31,
            r <= 6,
            rows.len() == r,
            done ==> dl > 0 && r == grid_rows(fw, dl),
            !done ==> (dl == 0 || (r as int) * 7 <= fw + dl - 1),
            forall|i: int| 0 <= i < rows.len() ==> #[trigger] rows[i].len() == grid_row_len(fw, dl, i),
            forall|i: int, j: int| 0 <= i < rows.len() && 0 <= j < rows[i].len() ==> #[trigger] rows[i][j]
                == grid_cell(fw, dl, m as int, selected, i * 7 + j),
        decreases 6 - r,
    {
        let mut row: Vec<Option<(u32, bool)>> = Vec::new();
        let mut c: u32 = 0;
        let mut last_placed = false;
        while c < 7 && !last_placed
            invariant
                first_wd == fw,
                dim == dl,
                0 <= fw < 7,
                0 <= dl <= 31,
                r < 6,
                dl == 0 || (r as int) * 7 <= fw + dl - 1,
                c <= 7,
                row.len() == c,
                last_placed ==> dl > 0 && r * 7 + c == fw + dl,
                !last_placed ==> dl == 0 || r * 7 + c <= fw + dl - 1,
                forall|j: int| 0 <= j < c ==> #[trigger] row[j] == grid_cell(
                    fw,
                    dl,
                    m as int,
                    selected,
                    r * 7 + j,
                ),
            decreases 7 - c,
        {
            let cell = r * 7 + c;
            if cell < first_wd || cell - first_wd + 1 > dim {
                row.push(None);
            } else {
                let day = cell - first_wd + 1;
                let is_sel = match selected {
                    Some((sm, sd)) => sm == m && sd == day,
                    None => false,
                };
                row.push(Some((day, is_sel)));
                if day == dim {
                    last_placed = true;
                }
            }
            c = c + 1;
        }
        proof {
            if last_placed {
                assert((fw + dl - 1) / 7 == r) by (nonlinear_arith)
                    requires r * 7 + c == fw + dl, 1 <= c <= 7;
                assert((fw + dl - 1) % 7 + 1 == c) by (nonlinear_arith)
                    requires r * 7 + c == fw + dl, 1 <= c <= 7;
            } else if dl > 0 {
                assert((fw + dl - 1) / 7 != r) by (nonlinear_arith)
                    requires r * 7 + 7 <= fw + dl - 1 || r * 7 + c <= fw + dl - 1, c == 7;
            }
        }
        rows.push(row);
        r = r + 1;
        if last_placed {
            done = true;
        }
    }
    proof {
        if !done {
            assert(r == 6);
            if dl > 0 {
                assert(false) by (nonlinear_arith)
                    requires r * 7 <= fw + dl - 1, r == 6, fw < 7, dl <= 31;
            }
        }
    }
    rows
}


/// A real date: a month of 1..=12 and a day of that month.
pub open spec fn valid_date(y: int, m: int, d: int) -> bool {
    1 <= m <= 12 && 1 <= d <= month_len(y, m)
}

/// Rust's `/` on `z` (or `z - (k - 1)` when negative) is floor division.
proof fn lemma_floor_div_shift(z: int, k: int)
    requires
        k > 0,
    ensures
        trunc_div(if z >= 0 { z } else { z - (k - 1) }, k) == z / k,
{
    if z < 0 {
        vstd::arithmetic::div_mod::lemma_fundamental_div_mod(z, k);
        vstd::arithmetic::div_mod::lemma_mod_bound(z, k);
        let q = z / k;
        let r = z % k;
        assert(k - 1 - z == (-q) * k + (k - 1 - r)) by (nonlinear_arith)
            requires z == k * q + r;
        vstd::arithmetic::div_mod::lemma_fundamental_div_mod_converse(k - 1 - z, k, -q, k - 1 - r);
    }
}

/// First day (0-based, from March 1st) of year `a` of a 400-year era.
spec fn start_of_year(a: int) -> int {
    365 * a + a / 4 - a / 100
}

/// Last day of year `a` of an era: 365 when its February has a 29th.
spec fn last_doy(a: int) -> int {
    if a % 4 == 3 && (a % 100 != 99 || a == 399) { 365 } else { 364 }
}

/// Year of the era that day `doe` of the era falls in, as `civil_of` reads it.
spec fn yoe_of(doe: int) -> int {
    (doe - doe / 1460 + doe / 36524 - doe / 146096) / 365
}

#[verifier::spinoff_prover]
#[verifier::rlimit(60)]
proof fn lemma_yoe_step(a: int, doy: int)
    requires
        0 <= a < 400,
        0 <= doy <= last_doy(a),
    ensures
        yoe_of(start_of_year(a) + doy) == a,
{
}

proof fn lemma_month_step(y: int, m: int, d: int)
    requires
        valid_date(y, m, d),
    ensures
        ({
            let mp = if m > 2 { m - 3 } else { m + 9 };
            let doy = (153 * mp + 2) / 5 + d - 1;
            &&& 0 <= doy <= 365
            &&& (doy == 365 ==> m == 2 && d == 29)
            &&& (5 * doy + 2) / 153 == mp
            &&& doy - (153 * mp + 2) / 5 + 1 == d
        }),
{
}

/// In the date-picker grid of month `m` of year `y`, the cell in row `i`,
/// column `j` (weeks from Sunday) shows day `7 i + j - w + 1`, where `w` is
/// the weekday of the 1st, when that is a day of the month; and that day is
/// highlighted exactly when the selection is that month and day, so a
/// selection in another month highlights nothing.
pub proof fn law_grid_highlights_only_the_selected_day(y: int, m: u32, selected: Option<(u32, u32)>, i: int, j: int)
    requires
        1 <= m <= 12,
        0 <= j < 7,
        0 <= i,
    ensures
        ({
            let w = first_weekday_spec(y, m as int);
            let day = 7 * i + j - w + 1;
            let c = grid_cell(w, month_len(y, m as int), m as int, selected, i * 7 + j);
            &&& (1 <= day <= month_len(y, m as int)) <==> c is Some
            &&& c matches Some((d, h)) ==> d == day && (h <==> (selected matches Some((sm, sd)) && sm == m && sd == d))
        }),
{
    let w = first_weekday_spec(y, m as int);
    assert(0 <= w < 7);
}

/// The grid of a month shows all of its days and no blank row: every day of
/// the month falls in a shown cell, every shown row holds a day, and the last
/// shown cell is the last day of the month.
pub proof fn law_grid_shows_the_whole_month(y: int, m: u32, selected: Option<(u32, u32)>)
    requires
        1 <= m <= 12,
    ensures
        ({
            let w = first_weekday_spec(y, m as int);
            let dim = month_len(y, m as int);
            let rows = grid_rows(w, dim);
            &&& forall|d: int| 1 <= d <= dim ==> ({
                let c = #[trigger] (w + d - 1);
                &&& c / 7 < rows
                &&& c % 7 < grid_row_len(w, dim, c / 7)
                &&& grid_cell(w, dim, m as int, selected, c) matches Some((x, _)) && x == d
            })
            &&& forall|i: int| #![trigger grid_row_len(w, dim, i)] 0 <= i < rows ==> exists|j: int| 0 <= j < grid_row_len(w, dim, i)
                && (#[trigger] grid_cell(w, dim, m as int, selected, i * 7 + j)) is Some
            &&& grid_cell(w, dim, m as int, selected, (rows - 1) * 7 + grid_row_len(w, dim, rows - 1) - 1)
                matches Some((x, _)) && x == dim
        }),
{
    let w = first_weekday_spec(y, m as int);
    let dim = month_len(y, m as int);
    let rows = grid_rows(w, dim);
    assert(0 <= w < 7);
    assert(28 <= dim <= 31);
    let last = w + dim - 1;
    assert(rows == last / 7 + 1);
    assert forall|d: int| 1 <= d <= dim implies ({
        let c = #[trigger] (w + d - 1);
        &&& c / 7 < rows
        &&& c % 7 < grid_row_len(w, dim, c / 7)
        &&& grid_cell(w, dim, m as int, selected, c) matches Some((x, _)) && x == d
    }) by {
        let c = w + d - 1;
        assert(c / 7 <= last / 7);
        if c / 7 == last / 7 {
            assert(c % 7 <= last % 7);
        }
    }
    assert forall|i: int| #![trigger grid_row_len(w, dim, i)] 0 <= i < rows implies exists|j: int| 0 <= j < grid_row_len(w, dim, i)
        && (#[trigger] grid_cell(w, dim, m as int, selected, i * 7 + j)) is Some by {
        if i == 0 {
            assert(grid_cell(w, dim, m as int, selected, i * 7 + w) is Some);
        } else {
            assert(grid_cell(w, dim, m as int, selected, i * 7 + 0) is Some);
        }
    }
    assert((rows - 1) * 7 + grid_row_len(w, dim, rows - 1) - 1 == last);
}

/// Reading back the day index of a real date gives that date:
/// `civil_from_days(days_from_civil(y, m, d)) == (y, m, d)`.
#[verifier::spinoff_prover]
pub proof fn law_civil_round_trip(y: int, m: int, d: int)
    requires
        valid_date(y, m, d),
    ensures
        civil_of(days_of(y, m, d)) == (y, m, d),
{
    let y1 = if m <= 2 { y - 1 } else { y };
    lemma_floor_div_shift(y1, 400);
    vstd::arithmetic::div_mod::lemma_fundamental_div_mod(y1, 400);
    vstd::arithmetic::div_mod::lemma_mod_bound(y1, 400);
    let era = y1 / 400;
    let yoe = y1 - era * 400;
    let mp = if m > 2 { m - 3 } else { m + 9 };
    let doy = (153 * mp + 2) / 5 + d - 1;
    lemma_month_step(y, m, d);
    assert(doy <= last_doy(yoe)) by {
        if doy == 365 {
            assert(y == era * 400 + yoe + 1);
            assert(is_leap(y));
        }
    }
    lemma_yoe_step(yoe, doy);
    let doe = start_of_year(yoe) + doy;
    assert(days_of(y, m, d) == era * 146097 + doe - 719468);
    let z1 = era * 146097 + doe;
    lemma_floor_div_shift(z1, 146097);
    vstd::arithmetic::div_mod::lemma_fundamental_div_mod_converse(z1, 146097, era, doe);
}


#[verifier::spinoff_prover]
#[verifier::rlimit(60)]
proof fn lemma_yoe_inverse(doe: int)
    requires
        0 <= doe <= 146096,
    ensures
        0 <= yoe_of(doe) < 400,
        start_of_year(yoe_of(doe)) <= doe <= start_of_year(yoe_of(doe)) + last_doy(yoe_of(doe)),
{
}

proof fn lemma_month_inverse(doy: int, leap: bool)
    requires
        0 <= doy <= if leap { 365int } else { 364int },
    ensures
        ({
            let mp = (5 * doy + 2) / 153;
            let d = doy - (153 * mp + 2) / 5 + 1;
            let m = if mp < 10 { mp + 3 } else { mp - 9 };
            &&& 0 <= mp <= 11
            &&& 1 <= m <= 12
            &&& 1 <= d
            &&& d <= if m == 2 { if leap { 29int } else { 28int } } else { month_len(0, m) }
            &&& (if m > 2 { m - 3 } else { m + 9 }) == mp
            &&& (153 * mp + 2) / 5 + d - 1 == doy
        }),
{
}

/// Every day index names a real date, and that date's day index is the day
/// index: `days_from_civil(civil_from_days(z)) == z`.
proof fn lemma_leap_in_era(era: int, yoe: int)
    requires
        0 <= yoe < 400,
    ensures
        is_leap(era * 400 + yoe + 1) == (last_doy(yoe) == 365),
{
    let y = era * 400 + yoe + 1;
    vstd::arithmetic::div_mod::lemma_fundamental_div_mod_converse(y, 4, era * 100 + (yoe + 1) / 4, (yoe + 1) % 4);
    vstd::arithmetic::div_mod::lemma_fundamental_div_mod_converse(y, 100, era * 4 + (yoe + 1) / 100, (yoe + 1) % 100);
    vstd::arithmetic::div_mod::lemma_fundamental_div_mod_converse(y, 400, era + (yoe + 1) / 400, (yoe + 1) % 400);
}

proof fn lemma_civil_parts(z: int, era: int, doe: int, yoe: int, doy: int)
    requires
        era == (z + 719468) / 146097,
        doe == z + 719468 - era * 146097,
        0 <= doe <= 146096,
        yoe == yoe_of(doe),
        doy == doe - start_of_year(yoe),
        0 <= yoe,
        0 <= doy <= 365,
    ensures
        ({
            let mp = (5 * doy + 2) / 153;
            let m = if mp < 10 { mp + 3 } else { mp - 9 };
            civil_of(z) == (if m <= 2 { yoe + era * 400 + 1 } else { yoe + era * 400 }, m, doy - (153 * mp + 2) / 5 + 1)
        }),
{
    lemma_floor_div_shift(z + 719468, 146097);
}

/// Every day index names a real date, and that date's day index is the day
/// index: `days_from_civil(civil_from_days(z)) == z`.
pub proof fn law_days_round_trip(z: int)
    ensures
        valid_date(civil_of(z).0, civil_of(z).1, civil_of(z).2),
        days_of(civil_of(z).0, civil_of(z).1, civil_of(z).2) == z,
{
    let z1 = z + 719468;
    lemma_floor_div_shift(z1, 146097);
    let era = z1 / 146097;
    lemma_era_bounds(z1, era);
    let doe = z1 - era * 146097;
    lemma_yoe_inverse(doe);
    let yoe = yoe_of(doe);
    let doy = doe - start_of_year(yoe);
    let leap = last_doy(yoe) == 365;
    lemma_month_inverse(doy, leap);
    lemma_civil_parts(z, era, doe, yoe, doy);
    lemma_leap_in_era(era, yoe);
    let mp = (5 * doy + 2) / 153;
    let d = doy - (153 * mp + 2) / 5 + 1;
    let m = if mp < 10 { mp + 3 } else { mp - 9 };
    let y1 = yoe + era * 400;
    let y = if m <= 2 { y1 + 1 } else { y1 };
    assert(civil_of(z) == (y, m, d));
    lemma_floor_div_shift(y1, 400);
    vstd::arithmetic::div_mod::lemma_fundamental_div_mod_converse(y1, 400, era, yoe);
    assert(days_of(y, m, d) == era * 146097 + start_of_year(yoe) + doy - 719468);
}

} // verus!
