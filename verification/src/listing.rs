//! The lines of a directory listing.
use vstd::arithmetic::div_mod::*;
use vstd::prelude::*;
use vstd::string::*;

use crate::text;

verus! {

/// A point in time, and how far local time is ahead of UTC then, both in seconds.
#[derive(Clone, Copy, Debug, PartialEq, Eq, Structural)]
pub struct Moment {
    pub unix_seconds: i64,
    pub utc_offset: i32,
}

/// How a listing shows a time: month, day, hour and minute.
pub const TIME_FORMAT: &'static str = "%b %d %H:%M";

/// What a listing shows for a file whose time is not known.
pub const UNKNOWN_TIME: &'static str = "Jan 01 00:00";

/// Whether the year `y` of the Gregorian calendar has a 29 February.
pub open spec fn is_leap_year(y: int) -> bool {
    y % 4 == 0 && (y % 100 != 0 || y % 400 == 0)
}

/// The days of the month `m` of the year `y`.
pub open spec fn days_in_month(y: int, m: int) -> int {
    if m == 2 {
        if is_leap_year(y) {
            29
        } else {
            28
        }
    } else if m == 4 || m == 6 || m == 9 || m == 11 {
        30
    } else {
        31
    }
}

/// The days from 1 January 1970 to 1 January of the year `y`; the years 1 to 1969 had 477 leap
/// days.
pub open spec fn days_to_year(y: int) -> int {
    365 * (y - 1970) + (y - 1) / 4 - (y - 1) / 100 + (y - 1) / 400 - 477
}

/// The days from 1 January to the first day of the month `m`.
pub open spec fn days_to_month(y: int, m: int) -> int
    decreases m,
{
    if m <= 1 {
        0
    } else {
        days_to_month(y, m - 1) + days_in_month(y, m - 1)
    }
}

/// Whether the day that comes `day` days after 1 January 1970 is the day `d` of the month `m` of
/// the year `y`.
pub open spec fn is_date(day: int, y: int, m: int, d: int) -> bool {
    &&& 1 <= m <= 12
    &&& 1 <= d <= days_in_month(y, m)
    &&& day == days_to_year(y) + days_to_month(y, m) + d - 1
}

/// The English abbreviation of a month.
pub open spec fn month_name(m: int) -> Seq<char> {
    if m == 1 {
        seq!['J', 'a', 'n']
    } else if m == 2 {
        seq!['F', 'e', 'b']
    } else if m == 3 {
        seq!['M', 'a', 'r']
    } else if m == 4 {
        seq!['A', 'p', 'r']
    } else if m == 5 {
        seq!['M', 'a', 'y']
    } else if m == 6 {
        seq!['J', 'u', 'n']
    } else if m == 7 {
        seq!['J', 'u', 'l']
    } else if m == 8 {
        seq!['A', 'u', 'g']
    } else if m == 9 {
        seq!['S', 'e', 'p']
    } else if m == 10 {
        seq!['O', 'c', 't']
    } else if m == 11 {
        seq!['N', 'o', 'v']
    } else {
        seq!['D', 'e', 'c']
    }
}

/// A number below a hundred, in two digits.
pub open spec fn two_digits(n: int) -> Seq<char> {
    seq![text::digit((n / 10) as nat), text::digit((n % 10) as nat)]
}

impl Moment {
    /// Seconds from the beginning of 1970, by the local clock.
    pub open spec fn local_seconds(self) -> int {
        self.unix_seconds + self.utc_offset
    }

    /// Whether the calendar reaches this moment: it goes from the year -262143 to 262142, and
    /// local time is less than a day from UTC.
    pub open spec fn in_calendar(self) -> bool {
        &&& days_to_year(-262143) <= self.unix_seconds as int / 86400 < days_to_year(262143)
        &&& -86400 < self.utc_offset < 86400
    }

    /// Whether `s` shows this moment: the month, the day, the hour and the minute.
    pub open spec fn is_shown_as(self, s: Seq<char>) -> bool {
        let second = self.local_seconds() % 86400;
        exists|y: int, m: int, d: int|
            #[trigger] is_date(self.local_seconds() / 86400, y, m, d) && s == month_name(m)
                + seq![' '] + two_digits(d) + seq![' '] + two_digits(second / 3600) + seq![':']
                + two_digits(second / 60 % 60)
    }
}

/// `chrono::DateTime::format` at a fixed offset from UTC, with the format of listings. It shows
/// the abbreviated month and the day, hour and minute in two digits each, of the proleptic
/// Gregorian calendar; there is no result for what lies outside chrono's range of dates.
#[verifier::external_body]
fn format_moment(unix_seconds: i64, utc_offset: i32, format: &str) -> (r: Option<String>)
    requires
        format@ == TIME_FORMAT@,
    ensures
        r is Some <==> (Moment { unix_seconds, utc_offset }).in_calendar(),
        r matches Some(s) ==> (Moment { unix_seconds, utc_offset }).is_shown_as(s@),
{
    let offset = chrono::FixedOffset::east_opt(utc_offset)?;
    let time = chrono::DateTime::from_timestamp(unix_seconds, 0)?;
    Some(time.with_timezone(&offset).format(format).to_string())
}

/// What a listing shows for the time at which a file was modified, if it is known. `None` for a
/// moment that the calendar does not reach.
pub fn time_text(modified: Option<Moment>) -> (r: Option<String>)
    ensures
        match modified {
            Some(moment) => {
                &&& r is Some <==> moment.in_calendar()
                &&& r matches Some(s) ==> moment.is_shown_as(s@)
            },
            None => r matches Some(s) && s@ == UNKNOWN_TIME@,
        },
{
    match modified {
        Some(moment) => format_moment(moment.unix_seconds, moment.utc_offset, TIME_FORMAT),
        None => Some(UNKNOWN_TIME.to_string()),
    }
}

/// The line of a listing for one entry: its kind, its size, its time and its name.
pub open spec fn line(is_dir: bool, size: u64, time: Seq<char>, name: Seq<char>) -> Seq<char> {
    (if is_dir {
        "d"@
    } else {
        "-"@
    }) + "rwxr-xr-x 1 owner group "@ + text::right_aligned(text::decimal(size as nat), 10) + " "@
        + time + " "@ + name + "\r\n"@
}

/// The line of a listing for one entry.
pub fn list_line(is_dir: bool, size: u64, time: &str, name: &str) -> (r: String)
    ensures
        r@ == line(is_dir, size, time@, name@),
{
    let mut r = if is_dir {
        "d".to_string()
    } else {
        "-".to_string()
    };
    r.append("rwxr-xr-x 1 owner group ");
    text::push_aligned(&mut r, size, 10);
    r.append(" ");
    r.append(time);
    r.append(" ");
    r.append(name);
    r.append("\r\n");
    r
}

proof fn lemma_multiples_up_to(y: int, n: int)
    requires
        n > 0,
    ensures
        y / n - (y - 1) / n == (if y % n == 0 {
            1int
        } else {
            0
        }),
{
    lemma_fundamental_div_mod(y, n);
    lemma_mod_bound(y, n);
    let q = y / n;
    let r = y % n;
    if r == 0 {
        assert(y - 1 == (q - 1) * n + (n - 1)) by (nonlinear_arith)
            requires
                y == n * q + r,
                r == 0,
        ;
        lemma_fundamental_div_mod_converse(y - 1, n, q - 1, n - 1);
    } else {
        assert(y - 1 == q * n + (r - 1)) by (nonlinear_arith)
            requires
                y == n * q + r,
        ;
        lemma_fundamental_div_mod_converse(y - 1, n, q, r - 1);
    }
}

proof fn lemma_leap_days(y: int)
    ensures
        y / 4 - (y - 1) / 4 - (y / 100 - (y - 1) / 100) + (y / 400 - (y - 1) / 400) == (
        if is_leap_year(y) {
            1int
        } else {
            0
        }),
{
    lemma_multiples_up_to(y, 4);
    lemma_multiples_up_to(y, 100);
    lemma_multiples_up_to(y, 400);
    lemma_fundamental_div_mod(y, 100);
    lemma_fundamental_div_mod(y, 400);
    if y % 400 == 0 {
        lemma_fundamental_div_mod_converse(y, 100, 4 * (y / 400), 0);
    }
    if y % 100 == 0 {
        lemma_fundamental_div_mod_converse(y, 4, 25 * (y / 100), 0);
    }
}

proof fn lemma_months_of_year(y: int)
    ensures
        days_to_month(y, 13) == 337 + days_in_month(y, 2),
{
    assert(days_to_month(y, 1) == 0);
    assert(days_to_month(y, 2) == 31);
    assert(days_to_month(y, 3) == 31 + days_in_month(y, 2));
    assert(days_to_month(y, 4) == 62 + days_in_month(y, 2));
    assert(days_to_month(y, 5) == 92 + days_in_month(y, 2));
    assert(days_to_month(y, 6) == 123 + days_in_month(y, 2));
    assert(days_to_month(y, 7) == 153 + days_in_month(y, 2));
    assert(days_to_month(y, 8) == 184 + days_in_month(y, 2));
    assert(days_to_month(y, 9) == 215 + days_in_month(y, 2));
    assert(days_to_month(y, 10) == 245 + days_in_month(y, 2));
    assert(days_to_month(y, 11) == 276 + days_in_month(y, 2));
    assert(days_to_month(y, 12) == 306 + days_in_month(y, 2));
}

proof fn lemma_year_length(y: int)
    ensures
        days_to_year(y + 1) - days_to_year(y) == days_to_month(y, 13),
        days_to_month(y, 13) >= 365,
{
    lemma_leap_days(y);
    lemma_months_of_year(y);
}

proof fn lemma_years_in_order(y1: int, y2: int)
    requires
        y1 <= y2,
    ensures
        days_to_year(y1) <= days_to_year(y2),
    decreases y2 - y1,
{
    if y1 < y2 {
        lemma_years_in_order(y1, y2 - 1);
        lemma_year_length(y2 - 1);
    }
}

proof fn lemma_months_in_order(y: int, m1: int, m2: int)
    requires
        1 <= m1 <= m2,
    ensures
        days_to_month(y, m1) <= days_to_month(y, m2),
    decreases m2 - m1,
{
    if m1 < m2 {
        lemma_months_in_order(y, m1, m2 - 1);
    }
}

proof fn lemma_date_in_year(day: int, y: int, m: int, d: int)
    requires
        is_date(day, y, m, d),
    ensures
        days_to_year(y) <= day < days_to_year(y + 1),
{
    lemma_months_in_order(y, 1, m);
    lemma_months_in_order(y, m + 1, 13);
    lemma_year_length(y);
}

/// A day has one date.
pub proof fn law_one_date_for_a_day(
    day: int,
    y1: int,
    m1: int,
    d1: int,
    y2: int,
    m2: int,
    d2: int,
)
    requires
        is_date(day, y1, m1, d1),
        is_date(day, y2, m2, d2),
    ensures
        y1 == y2,
        m1 == m2,
        d1 == d2,
{
    lemma_date_in_year(day, y1, m1, d1);
    lemma_date_in_year(day, y2, m2, d2);
    if y1 < y2 {
        lemma_years_in_order(y1 + 1, y2);
    } else if y2 < y1 {
        lemma_years_in_order(y2 + 1, y1);
    } else if m1 < m2 {
        lemma_months_in_order(y1, m1 + 1, m2);
    } else if m2 < m1 {
        lemma_months_in_order(y1, m2 + 1, m1);
    }
}

/// A listing can show a moment in one way only.
pub proof fn law_one_text_for_a_moment(moment: Moment, s1: Seq<char>, s2: Seq<char>)
    requires
        moment.is_shown_as(s1),
        moment.is_shown_as(s2),
    ensures
        s1 == s2,
{
    let day = moment.local_seconds() / 86400;
    let second = moment.local_seconds() % 86400;
    let (y1, m1, d1) = choose|y: int, m: int, d: int|
        #[trigger] is_date(day, y, m, d) && s1 == month_name(m) + seq![' ']
            + two_digits(d) + seq![' '] + two_digits(second / 3600) + seq![':']
            + two_digits(second / 60 % 60);
    let (y2, m2, d2) = choose|y: int, m: int, d: int|
        #[trigger] is_date(day, y, m, d) && s2 == month_name(m) + seq![' ']
            + two_digits(d) + seq![' '] + two_digits(second / 3600) + seq![':']
            + two_digits(second / 60 % 60);
    law_one_date_for_a_day(day, y1, m1, d1, y2, m2, d2);
}

} // verus!
