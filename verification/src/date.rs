//! Calendar dates for bank-statement rows.
//!
//! A `Date` holds a proleptic-Gregorian calendar date as plain year, month
//! and day values.  Time-of-day plays no role in this pipeline: the source
//! format carries none, so every row is normalized to the calendar date
//! alone, and comparisons go through the day index (days since the first of
//! year 1).
//!
//! `parse_date` accepts the five patterns used by Dutch bank exports:
//! `DD-MM-YYYY`, `DD/MM/YYYY`, `YYYY-MM-DD`, `DD-MM-YY`, and the compact
//! `YYYYMMDD` form, tried in that order.

use vstd::prelude::*;
use crate::text::{
    all_digits, find_byte, find_byte_spec, is_digit_byte, lemma_find_byte_at,
    lemma_num_val_bound, num_val, pow10,
};

verus! {

/// A calendar date (proleptic Gregorian), day precision.
#[derive(Debug, Clone, Copy, PartialEq, Eq, Structural)]
pub struct Date {
    pub year: u16,
    pub month: u8,
    pub day: u8,
}

pub open spec fn is_leap_year(y: int) -> bool {
    y % 4 == 0 && (y % 100 != 0 || y % 400 == 0)
}

pub open spec fn days_in_month(y: int, m: int) -> int {
    if m == 2 {
        if is_leap_year(y) {
            29
        } else {
            28
        }
    } else if m == 4 || m == 6 || m == 9 || m == 11 {
        30
    } else {
        31
    }
}

/// Days in the months before month `m` of year `y`.
pub open spec fn days_before_month(y: int, m: int) -> int {
    let base = if m == 1 {
        0int
    } else if m == 2 {
        31
    } else if m == 3 {
        59
    } else if m == 4 {
        90
    } else if m == 5 {
        120
    } else if m == 6 {
        151
    } else if m == 7 {
        181
    } else if m == 8 {
        212
    } else if m == 9 {
        243
    } else if m == 10 {
        273
    } else if m == 11 {
        304
    } else {
        334
    };
    base + if m >= 3 && is_leap_year(y) {
        1int
    } else {
        0int
    }
}

/// Days since January 1 of year 1 (which has index 0).
pub open spec fn day_index_spec(d: Date) -> int {
    let y = d.year as int - 1;
    y * 365 + y / 4 - y / 100 + y / 400 + days_before_month(d.year as int, d.month as int) + (
    d.day as int - 1)
}

/// Day of week, Monday = 0 .. Sunday = 6.
pub open spec fn weekday_spec(d: Date) -> int {
    day_index_spec(d) % 7
}

impl Date {
    /// A well-formed calendar date in years 1..=9999.
    pub open spec fn valid(self) -> bool {
        &&& 1 <= self.year <= 9999
        &&& 1 <= self.month <= 12
        &&& 1 <= self.day <= days_in_month(self.year as int, self.month as int)
    }

    pub fn new(year: u16, month: u8, day: u8) -> (r: Date)
        ensures
            r.year == year,
            r.month == month,
            r.day == day,
    {
        Date { year, month, day }
    }

    /// Whether the stored fields form a real calendar date.
    pub fn is_valid(&self) -> (r: bool)
        ensures
            r == self.valid(),
    {
        1 <= self.year && self.year <= 9999 && 1 <= self.month && self.month <= 12 && 1 <= self.day
            && (self.day as u32) <= days_in_month_exec(self.year, self.month)
    }

    /// Days since January 1 of year 1.
    pub fn day_number(&self) -> (r: u32)
        requires
            self.valid(),
        ensures
            r == day_index_spec(*self),
    {
        let y: u32 = (self.year - 1) as u32;
        let before: u32 = days_before_month_exec(self.year, self.month);
        y * 365 + y / 4 + y / 400 + before + (self.day - 1) as u32 - y / 100
    }

    /// Day of week, Monday = 0 .. Sunday = 6.
    pub fn weekday_from_monday(&self) -> (r: u8)
        requires
            self.valid(),
        ensures
            r == weekday_spec(*self),
    {
        (self.day_number() % 7) as u8
    }
}

fn is_leap_year_exec(y: u16) -> (r: bool)
    ensures
        r == is_leap_year(y as int),
{
    y % 4 == 0 && (y % 100 != 0 || y % 400 == 0)
}

fn days_in_month_exec(y: u16, m: u8) -> (r: u32)
    ensures
        r == days_in_month(y as int, m as int),
{
    if m == 2 {
        if is_leap_year_exec(y) {
            29
        } else {
            28
        }
    } else if m == 4 || m == 6 || m == 9 || m == 11 {
        30
    } else {
        31
    }
}

fn days_before_month_exec(y: u16, m: u8) -> (r: u32)
    ensures
        r == days_before_month(y as int, m as int),
{
    let base: u32 = if m == 1 {
        0
    } else if m == 2 {
        31
    } else if m == 3 {
        59
    } else if m == 4 {
        90
    } else if m == 5 {
        120
    } else if m == 6 {
        151
    } else if m == 7 {
        181
    } else if m == 8 {
        212
    } else if m == 9 {
        243
    } else if m == 10 {
        273
    } else if m == 11 {
        304
    } else {
        334
    };
    if m >= 3 && is_leap_year_exec(y) {
        base + 1
    } else {
        base
    }
}

// ---------------------------------------------------------------------------
// Parsing
// ---------------------------------------------------------------------------

/// Century rule for two-digit years: 00..=68 map to 2000..=2068,
/// 69..=99 map to 1969..=1999.
pub open spec fn expand_two_digit_year(yy: int) -> int {
    if yy <= 68 {
        2000 + yy
    } else {
        1900 + yy
    }
}

/// Day-month-year pattern with separator `sep`: a 1-2 digit day, a 1-2 digit
/// month, and a year of exactly 4 digits (or exactly 2 when `two_digit_year`,
/// expanded by the century rule).  The result must be a real calendar date.
pub open spec fn parse_dmy_spec(s: Seq<u8>, sep: u8, two_digit_year: bool) -> Option<Date> {
    match find_byte_spec(s, sep) {
        None => None,
        Some(i) => {
            let dpart = s.subrange(0, i);
            let rest = s.subrange(i + 1, s.len() as int);
            match find_byte_spec(rest, sep) {
                None => None,
                Some(j) => {
                    let mpart = rest.subrange(0, j);
                    let ypart = rest.subrange(j + 1, rest.len() as int);
                    parse_dmy_parts(dpart, mpart, ypart, two_digit_year)
                },
            }
        },
    }
}

pub open spec fn parse_dmy_parts(
    dpart: Seq<u8>,
    mpart: Seq<u8>,
    ypart: Seq<u8>,
    two_digit_year: bool,
) -> Option<Date> {
    if 1 <= dpart.len() <= 2 && all_digits(dpart) && 1 <= mpart.len() <= 2 && all_digits(mpart)
        && ypart.len() == (if two_digit_year { 2int } else { 4int }) && all_digits(ypart) {
        let yv = if two_digit_year {
            expand_two_digit_year(num_val(ypart))
        } else {
            num_val(ypart)
        };
        let d = Date { year: yv as u16, month: num_val(mpart) as u8, day: num_val(dpart) as u8 };
        if d.valid() {
            Some(d)
        } else {
            None
        }
    } else {
        None
    }
}

/// Year-month-day pattern with separator `sep`: a year of exactly 4 digits,
/// a 1-2 digit month, and a 1-2 digit day.
pub open spec fn parse_ymd_spec(s: Seq<u8>, sep: u8) -> Option<Date> {
    match find_byte_spec(s, sep) {
        None => None,
        Some(i) => {
            let ypart = s.subrange(0, i);
            let rest = s.subrange(i + 1, s.len() as int);
            match find_byte_spec(rest, sep) {
                None => None,
                Some(j) => {
                    let mpart = rest.subrange(0, j);
                    let dpart = rest.subrange(j + 1, rest.len() as int);
                    if ypart.len() == 4 && all_digits(ypart) && 1 <= mpart.len() <= 2 && all_digits(
                        mpart,
                    ) && 1 <= dpart.len() <= 2 && all_digits(dpart) {
                        let d = Date {
                            year: num_val(ypart) as u16,
                            month: num_val(mpart) as u8,
                            day: num_val(dpart) as u8,
                        };
                        if d.valid() {
                            Some(d)
                        } else {
                            None
                        }
                    } else {
                        None
                    }
                },
            }
        },
    }
}

/// Compact pattern: exactly 8 digits, `YYYYMMDD`.
pub open spec fn parse_ymd8_spec(s: Seq<u8>) -> Option<Date> {
    if s.len() == 8 && all_digits(s) {
        let d = Date {
            year: num_val(s.subrange(0, 4)) as u16,
            month: num_val(s.subrange(4, 6)) as u8,
            day: num_val(s.subrange(6, 8)) as u8,
        };
        if d.valid() {
            Some(d)
        } else {
            None
        }
    } else {
        None
    }
}

/// The five accepted date patterns, tried in order: `DD-MM-YYYY`,
/// `DD/MM/YYYY`, `YYYY-MM-DD`, `DD-MM-YY`, `YYYYMMDD`.
pub open spec fn parse_date_spec(s: Seq<u8>) -> Option<Date> {
    if parse_dmy_spec(s, 45, false).is_some() {
        parse_dmy_spec(s, 45, false)
    } else if parse_dmy_spec(s, 47, false).is_some() {
        parse_dmy_spec(s, 47, false)
    } else if parse_ymd_spec(s, 45).is_some() {
        parse_ymd_spec(s, 45)
    } else if parse_dmy_spec(s, 45, true).is_some() {
        parse_dmy_spec(s, 45, true)
    } else {
        parse_ymd8_spec(s)
    }
}

/// Value of the digit run `s[i..j]`, or `None` if any byte is not a digit.
fn digits_val(s: &[u8], i: usize, j: usize) -> (r: Option<u32>)
    requires
        i <= j <= s@.len(),
        j - i <= 4,
    ensures
        match r {
            Some(v) => all_digits(s@.subrange(i as int, j as int)) && v == num_val(
                s@.subrange(i as int, j as int),
            ),
            None => !all_digits(s@.subrange(i as int, j as int)),
        },
{
    let mut acc: u32 = 0;
    let mut k: usize = i;
    while k < j
        invariant
            i <= k <= j <= s@.len(),
            j - i <= 4,
            all_digits(s@.subrange(i as int, k as int)),
            acc == num_val(s@.subrange(i as int, k as int)),
        decreases j - k,
    {
        let b = s[k];
        if !(48 <= b && b <= 57) {
            proof {
                assert(s@.subrange(i as int, j as int)[k - i] == s@[k as int]);
                assert(!all_digits(s@.subrange(i as int, j as int)));
            }
            return None;
        }
        proof {
            let pre = s@.subrange(i as int, k as int);
            lemma_num_val_bound(pre);
            assert(pow10(pre.len()) <= 1000) by {
                assert(pre.len() <= 3);
                reveal_with_fuel(pow10, 5);
            }
            assert(s@.subrange(i as int, k + 1).drop_last() =~= pre);
            assert(s@.subrange(i as int, k + 1).last() == s@[k as int]);
        }
        acc = acc * 10 + ((b - 48) as u32);
        k = k + 1;
    }
    proof {
        assert(s@.subrange(i as int, j as int) =~= s@.subrange(i as int, k as int));
    }
    Some(acc)
}

fn parse_dmy_parts_exec(
    s: &[u8],
    d_lo: usize,
    d_hi: usize,
    m_lo: usize,
    m_hi: usize,
    y_lo: usize,
    y_hi: usize,
    two_digit_year: bool,
) -> (r: Option<Date>)
    requires
        d_lo <= d_hi <= s@.len(),
        m_lo <= m_hi <= s@.len(),
        y_lo <= y_hi <= s@.len(),
    ensures
        r == parse_dmy_parts(
            s@.subrange(d_lo as int, d_hi as int),
            s@.subrange(m_lo as int, m_hi as int),
            s@.subrange(y_lo as int, y_hi as int),
            two_digit_year,
        ),
{
    let dn: usize = d_hi - d_lo;
    let mn: usize = m_hi - m_lo;
    let yn: usize = y_hi - y_lo;
    if !(1 <= dn && dn <= 2 && 1 <= mn && mn <= 2) {
        return None;
    }
    if two_digit_year {
        if yn != 2 {
            return None;
        }
    } else {
        if yn != 4 {
            return None;
        }
    }
    let dv = match digits_val(s, d_lo, d_hi) {
        Some(v) => v,
        None => {
            return None;
        },
    };
    let mv = match digits_val(s, m_lo, m_hi) {
        Some(v) => v,
        None => {
            return None;
        },
    };
    let yv0 = match digits_val(s, y_lo, y_hi) {
        Some(v) => v,
        None => {
            return None;
        },
    };
    proof {
        lemma_num_val_bound(s@.subrange(d_lo as int, d_hi as int));
        lemma_num_val_bound(s@.subrange(m_lo as int, m_hi as int));
        lemma_num_val_bound(s@.subrange(y_lo as int, y_hi as int));
        reveal_with_fuel(pow10, 5);
    }
    let yv: u32 = if two_digit_year {
        if yv0 <= 68 {
            2000 + yv0
        } else {
            1900 + yv0
        }
    } else {
        yv0
    };
    let d = Date { year: yv as u16, month: mv as u8, day: dv as u8 };
    if d.is_valid() {
        Some(d)
    } else {
        None
    }
}

fn parse_sep_date(s: &[u8], sep: u8, year_first: bool, two_digit_year: bool) -> (r: Option<Date>)
    ensures
        !year_first ==> r == parse_dmy_spec(s@, sep, two_digit_year),
        year_first ==> r == parse_ymd_spec(s@, sep),
{
    let n: usize = s.len();
    let i = match find_byte(s, sep) {
        Some(i) => i,
        None => {
            return None;
        },
    };
    let rest = vstd::slice::slice_subrange(s, i + 1, n);
    let j = match find_byte(rest, sep) {
        Some(j) => j,
        None => {
            return None;
        },
    };
    proof {
        assert(s@.subrange(i + 1, n as int).subrange(0, j as int) =~= s@.subrange(
            i + 1,
            i + 1 + j,
        ));
        assert(s@.subrange(i + 1, n as int).subrange(j + 1, (n - i - 1) as int) =~= s@.subrange(
            i + 1 + j + 1,
            n as int,
        ));
    }
    if year_first {
        let yn: usize = i;
        let mn: usize = j;
        if !(yn == 4 && 1 <= mn && mn <= 2 && 1 <= n - i - 1 - j - 1 && n - i - 1 - j - 1 <= 2) {
            return None;
        }
        let yv = match digits_val(s, 0, i) {
            Some(v) => v,
            None => {
                return None;
            },
        };
        let mv = match digits_val(s, i + 1, i + 1 + j) {
            Some(v) => v,
            None => {
                return None;
            },
        };
        let dv = match digits_val(s, i + 1 + j + 1, n) {
            Some(v) => v,
            None => {
                return None;
            },
        };
        proof {
            lemma_num_val_bound(s@.subrange(0, i as int));
            lemma_num_val_bound(s@.subrange(i + 1, i + 1 + j));
            lemma_num_val_bound(s@.subrange(i + 1 + j + 1, n as int));
            reveal_with_fuel(pow10, 5);
        }
        let d = Date { year: yv as u16, month: mv as u8, day: dv as u8 };
        if d.is_valid() {
            Some(d)
        } else {
            None
        }
    } else {
        parse_dmy_parts_exec(s, 0, i, i + 1, i + 1 + j, i + 1 + j + 1, n, two_digit_year)
    }
}

fn parse_ymd8(s: &[u8]) -> (r: Option<Date>)
    ensures
        r == parse_ymd8_spec(s@),
{
    if s.len() != 8 {
        return None;
    }
    let yv = match digits_val(s, 0, 4) {
        Some(v) => v,
        None => {
            proof {
                assert(!all_digits(s@)) by {
                    let sub = s@.subrange(0, 4);
                    let k = choose|k: int| 0 <= k < sub.len() && !is_digit_byte(sub[k]);
                    assert(s@[k] == sub[k]);
                }
            }
            return None;
        },
    };
    let mv = match digits_val(s, 4, 6) {
        Some(v) => v,
        None => {
            proof {
                assert(!all_digits(s@)) by {
                    let sub = s@.subrange(4, 6);
                    let k = choose|k: int| 0 <= k < sub.len() && !is_digit_byte(sub[k]);
                    assert(s@[k + 4] == sub[k]);
                }
            }
            return None;
        },
    };
    let dv = match digits_val(s, 6, 8) {
        Some(v) => v,
        None => {
            proof {
                assert(!all_digits(s@)) by {
                    let sub = s@.subrange(6, 8);
                    let k = choose|k: int| 0 <= k < sub.len() && !is_digit_byte(sub[k]);
                    assert(s@[k + 6] == sub[k]);
                }
            }
            return None;
        },
    };
    proof {
        assert(all_digits(s@)) by {
            assert forall|k: int| 0 <= k < 8 implies is_digit_byte(s@[k]) by {
                if k < 4 {
                    assert(s@.subrange(0, 4)[k] == s@[k]);
                } else if k < 6 {
                    assert(s@.subrange(4, 6)[k - 4] == s@[k]);
                } else {
                    assert(s@.subrange(6, 8)[k - 6] == s@[k]);
                }
            }
        }
        lemma_num_val_bound(s@.subrange(0, 4));
        lemma_num_val_bound(s@.subrange(4, 6));
        lemma_num_val_bound(s@.subrange(6, 8));
        reveal_with_fuel(pow10, 5);
    }
    let d = Date { year: yv as u16, month: mv as u8, day: dv as u8 };
    if d.is_valid() {
        Some(d)
    } else {
        None
    }
}

// ---------------------------------------------------------------------------
// Pattern renderings and the round-trip law
// ---------------------------------------------------------------------------

/// Two digits, zero-padded.
pub open spec fn fmt2(n: int) -> Seq<u8> {
    seq![(48 + n / 10) as u8, (48 + n % 10) as u8]
}

/// Four digits, zero-padded.
pub open spec fn fmt4(n: int) -> Seq<u8> {
    fmt2(n / 100) + fmt2(n % 100)
}

/// `DD<sep>MM<sep>YYYY`.
pub open spec fn fmt_dmy(d: Date, sep: u8) -> Seq<u8> {
    fmt2(d.day as int) + seq![sep] + fmt2(d.month as int) + seq![sep] + fmt4(d.year as int)
}

/// `YYYY-MM-DD`.
pub open spec fn fmt_ymd(d: Date) -> Seq<u8> {
    fmt4(d.year as int) + seq![45u8] + fmt2(d.month as int) + seq![45u8] + fmt2(d.day as int)
}

/// `DD-MM-YY`.
pub open spec fn fmt_dmy2(d: Date) -> Seq<u8> {
    fmt2(d.day as int) + seq![45u8] + fmt2(d.month as int) + seq![45u8] + fmt2(d.year as int % 100)
}

/// `YYYYMMDD`.
pub open spec fn fmt_ymd8(d: Date) -> Seq<u8> {
    fmt4(d.year as int) + fmt2(d.month as int) + fmt2(d.day as int)
}

proof fn lemma_fmt2(n: int)
    requires
        0 <= n <= 99,
    ensures
        fmt2(n).len() == 2,
        all_digits(fmt2(n)),
        num_val(fmt2(n)) == n,
{
    let s = fmt2(n);
    let a = seq![(48 + n / 10) as u8];
    assert(s.drop_last() =~= a);
    assert(a.drop_last() =~= Seq::<u8>::empty());
    assert(a.last() == (48 + n / 10) as u8);
    assert(num_val(Seq::<u8>::empty()) == 0);
    assert(num_val(a) == num_val(a.drop_last()) * 10 + crate::text::digit_val(a.last()));
    assert(num_val(a) == n / 10);
    assert(s.last() == (48 + n % 10) as u8);
    assert(num_val(s) == num_val(s.drop_last()) * 10 + crate::text::digit_val(s.last()));
}

proof fn lemma_fmt4(n: int)
    requires
        0 <= n <= 9999,
    ensures
        fmt4(n).len() == 4,
        all_digits(fmt4(n)),
        num_val(fmt4(n)) == n,
{
    lemma_fmt2(n / 100);
    lemma_fmt2(n % 100);
    crate::text::lemma_num_val_concat(fmt2(n / 100), fmt2(n % 100));
    assert(pow10(2) == 100) by {
        reveal_with_fuel(pow10, 3);
    }
    assert(all_digits(fmt4(n))) by {
        assert(forall|i: int|
            0 <= i < 4 ==> fmt4(n)[i] == (if i < 2 {
                fmt2(n / 100)[i]
            } else {
                fmt2(n % 100)[i - 2]
            }));
    }
}

proof fn lemma_parse_dmy_of_fmt(d: Date, sep: u8)
    requires
        d.valid(),
        sep == 45 || sep == 47,
    ensures
        parse_dmy_spec(fmt_dmy(d, sep), sep, false) == Some(d),
{
    let s = fmt_dmy(d, sep);
    lemma_fmt2(d.day as int);
    lemma_fmt2(d.month as int);
    lemma_fmt4(d.year as int);
    assert(s.len() == 10);
    assert(s[0] == fmt2(d.day as int)[0] && s[1] == fmt2(d.day as int)[1]);
    assert(s[2] == sep);
    lemma_find_byte_at(s, sep, 2);
    let rest = s.subrange(3, 10);
    assert(rest =~= fmt2(d.month as int) + seq![sep] + fmt4(d.year as int));
    assert(rest[0] == fmt2(d.month as int)[0] && rest[1] == fmt2(d.month as int)[1]);
    assert(rest[2] == sep);
    lemma_find_byte_at(rest, sep, 2);
    assert(s.subrange(0, 2) =~= fmt2(d.day as int));
    assert(rest.subrange(0, 2) =~= fmt2(d.month as int));
    assert(rest.subrange(3, 7) =~= fmt4(d.year as int));
    assert(parse_dmy_parts(
        fmt2(d.day as int),
        fmt2(d.month as int),
        fmt4(d.year as int),
        false,
    ) == Some(d));
}

proof fn lemma_no_byte_in_fmt_dmy(d: Date, sep: u8, b: u8)
    requires
        d.valid(),
        48 > b || b > 57,
        b != sep,
    ensures
        find_byte_spec(fmt_dmy(d, sep), b).is_none(),
{
    let s = fmt_dmy(d, sep);
    lemma_fmt2(d.day as int);
    lemma_fmt2(d.month as int);
    lemma_fmt4(d.year as int);
    assert(forall|i: int| 0 <= i < s.len() ==> s[i] != b);
    crate::text::lemma_find_byte_none(s, b);
}

proof fn lemma_parse_ymd_of_fmt(d: Date)
    requires
        d.valid(),
    ensures
        parse_ymd_spec(fmt_ymd(d), 45) == Some(d),
{
    let s = fmt_ymd(d);
    lemma_fmt2(d.day as int);
    lemma_fmt2(d.month as int);
    lemma_fmt4(d.year as int);
    assert(s.len() == 10);
    assert(forall|i: int| 0 <= i < 4 ==> s[i] == fmt4(d.year as int)[i]);
    assert(s[4] == 45);
    lemma_find_byte_at(s, 45, 4);
    let rest = s.subrange(5, 10);
    assert(rest =~= fmt2(d.month as int) + seq![45u8] + fmt2(d.day as int));
    assert(rest[0] == fmt2(d.month as int)[0] && rest[1] == fmt2(d.month as int)[1]);
    assert(rest[2] == 45);
    lemma_find_byte_at(rest, 45, 2);
    assert(s.subrange(0, 4) =~= fmt4(d.year as int));
    assert(rest.subrange(0, 2) =~= fmt2(d.month as int));
    assert(rest.subrange(3, 5) =~= fmt2(d.day as int));
}

/// Round-trip law for the five supported date patterns: a valid calendar
/// date rendered as `DD-MM-YYYY`, `DD/MM/YYYY`, `YYYY-MM-DD` or
/// `YYYYMMDD` parses back to the identical date; the two-digit
/// `DD-MM-YY` rendering does too for every year the century rule can
/// express (1969 through 2068).
pub proof fn lemma_date_patterns_round_trip(d: Date)
    requires
        d.valid(),
    ensures
        parse_date_spec(fmt_dmy(d, 45)) == Some(d),
        parse_date_spec(fmt_dmy(d, 47)) == Some(d),
        parse_date_spec(fmt_ymd(d)) == Some(d),
        parse_date_spec(fmt_ymd8(d)) == Some(d),
        1969 <= d.year <= 2068 ==> parse_date_spec(fmt_dmy2(d)) == Some(d),
{
    lemma_fmt2(d.day as int);
    lemma_fmt2(d.month as int);
    lemma_fmt2(d.year as int % 100);
    lemma_fmt4(d.year as int);

    // DD-MM-YYYY: the first pattern in the chain accepts it
    lemma_parse_dmy_of_fmt(d, 45);

    // DD/MM/YYYY: no dash anywhere, so only the slash pattern can fire
    lemma_no_byte_in_fmt_dmy(d, 47, 45);
    lemma_parse_dmy_of_fmt(d, 47);

    // YYYY-MM-DD: the day-first dash pattern sees a four-digit first part
    let sy = fmt_ymd(d);
    assert(sy.len() == 10);
    assert(forall|i: int| 0 <= i < 4 ==> sy[i] == fmt4(d.year as int)[i]);
    assert(sy[4] == 45);
    lemma_find_byte_at(sy, 45, 4);
    let resty = sy.subrange(5, 10);
    assert(resty =~= fmt2(d.month as int) + seq![45u8] + fmt2(d.day as int));
    assert(resty[2] == 45);
    assert(resty[0] == fmt2(d.month as int)[0] && resty[1] == fmt2(d.month as int)[1]);
    lemma_find_byte_at(resty, 45, 2);
    assert(sy.subrange(0, 4).len() == 4);
    assert(parse_dmy_spec(sy, 45, false) is None);
    assert(forall|i: int| 0 <= i < sy.len() ==> sy[i] != 47);
    crate::text::lemma_find_byte_none(sy, 47);
    lemma_parse_ymd_of_fmt(d);

    // YYYYMMDD: no separator at all, so only the compact pattern fires
    let s8 = fmt_ymd8(d);
    assert(s8.len() == 8);
    assert(forall|i: int|
        0 <= i < 8 ==> s8[i] == (if i < 4 {
            fmt4(d.year as int)[i]
        } else if i < 6 {
            fmt2(d.month as int)[i - 4]
        } else {
            fmt2(d.day as int)[i - 6]
        }));
    assert(all_digits(s8));
    assert(forall|i: int| 0 <= i < s8.len() ==> s8[i] != 45);
    assert(forall|i: int| 0 <= i < s8.len() ==> s8[i] != 47);
    crate::text::lemma_find_byte_none(s8, 45);
    crate::text::lemma_find_byte_none(s8, 47);
    assert(s8.subrange(0, 4) =~= fmt4(d.year as int));
    assert(s8.subrange(4, 6) =~= fmt2(d.month as int));
    assert(s8.subrange(6, 8) =~= fmt2(d.day as int));
    assert(parse_ymd8_spec(s8) == Some(d));

    // DD-MM-YY: the four-digit-year patterns see a two-digit tail
    if 1969 <= d.year <= 2068 {
        let s2 = fmt_dmy2(d);
        assert(s2.len() == 8);
        assert(s2[0] == fmt2(d.day as int)[0] && s2[1] == fmt2(d.day as int)[1]);
        assert(s2[2] == 45);
        lemma_find_byte_at(s2, 45, 2);
        let rest2 = s2.subrange(3, 8);
        assert(rest2 =~= fmt2(d.month as int) + seq![45u8] + fmt2(d.year as int % 100));
        assert(rest2[0] == fmt2(d.month as int)[0] && rest2[1] == fmt2(d.month as int)[1]);
        assert(rest2[2] == 45);
        lemma_find_byte_at(rest2, 45, 2);
        assert(rest2.subrange(3, 5).len() == 2);
        assert(rest2.subrange(3, 5) =~= fmt2(d.year as int % 100));
        assert(parse_dmy_spec(s2, 45, false) is None);
        assert(forall|i: int| 0 <= i < s2.len() ==> s2[i] != 47);
        crate::text::lemma_find_byte_none(s2, 47);
        assert(s2.subrange(0, 2).len() == 2);
        assert(s2.subrange(0, 2) =~= fmt2(d.day as int));
        assert(rest2.subrange(0, 2) =~= fmt2(d.month as int));
        assert(parse_ymd_spec(s2, 45) is None);
        assert(expand_two_digit_year(d.year as int % 100) == d.year) by {
            if d.year >= 2000 {
                assert(d.year as int / 100 == 20);
            } else {
                assert(d.year as int / 100 == 19);
            }
        }
        assert(parse_dmy_spec(s2, 45, true) == Some(d));
    }
}

/// Parses a calendar date in one of the five accepted patterns, trying
/// `DD-MM-YYYY`, `DD/MM/YYYY`, `YYYY-MM-DD`, `DD-MM-YY` and `YYYYMMDD` in
/// that order; `None` when no pattern yields a real calendar date.
pub fn parse_date(s: &[u8]) -> (r: Option<Date>)
    ensures
        r == parse_date_spec(s@),
        r is Some ==> r.unwrap().valid(),
{
    if let Some(d) = parse_sep_date(s, 45, false, false) {
        return Some(d);
    }
    if let Some(d) = parse_sep_date(s, 47, false, false) {
        return Some(d);
    }
    if let Some(d) = parse_sep_date(s, 45, true, false) {
        return Some(d);
    }
    if let Some(d) = parse_sep_date(s, 45, false, true) {
        return Some(d);
    }
    parse_ymd8(s)
}

} // verus!
