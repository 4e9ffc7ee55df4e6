//! The issue date: found in the text holding "Datum: ", as midnight UTC in
//! milliseconds since the epoch.

use vstd::prelude::*;
use crate::error::ErrorKind;
use crate::geometry::{ObjectView, TableObject};
use crate::reader::PageObjects;
use crate::text::{contains_seq, last_index_of, rfind_char, str_contains};
use vstd::string::StrSliceExecFns;
use chrono::Datelike;

verus! {

/// Milliseconds in a day.
pub const MILLIS_PER_DAY: i64 = 86_400_000;

/// The least year that a date can have.
pub const MIN_YEAR: i32 = -262143;

/// The greatest year that a date can have.
pub const MAX_YEAR: i32 = 262142;

/// `y` is a leap year of the proleptic Gregorian calendar.
pub open spec fn is_leap_year(y: int) -> bool {
    (y % 4 == 0 && y % 100 != 0) || y % 400 == 0
}

/// The number of days in month `m` of year `y`.
pub open spec fn days_in_month(y: int, m: int) -> int {
    if m == 2 {
        if is_leap_year(y) { 29 } else { 28 }
    } else if m == 4 || m == 6 || m == 9 || m == 11 {
        30
    } else {
        31
    }
}

/// `(y, m, d)` names a day of the proleptic Gregorian calendar within the
/// years a date can have.
pub open spec fn is_calendar_date(y: int, m: int, d: int) -> bool {
    MIN_YEAR <= y <= MAX_YEAR && 1 <= m <= 12 && 1 <= d <= days_in_month(y, m)
}

/// The number of days from 1970-01-01 to `(y, m, d)`.
pub open spec fn days_from_civil(y: int, m: int, d: int) -> int {
    let y2 = if m <= 2 { y - 1 } else { y };
    let era = y2 / 400;
    let yoe = y2 - era * 400;
    let mp = if m > 2 { m - 3 } else { m + 9 };
    let doy = (153 * mp + 2) / 5 + d - 1;
    let doe = yoe * 365 + yoe / 4 - yoe / 100 + doy;
    era * 146097 + doe - 719468
}

/// Midnight UTC of `(y, m, d)` in milliseconds since the epoch.
pub open spec fn civil_millis(y: int, m: int, d: int) -> int {
    days_from_civil(y, m, d) * MILLIS_PER_DAY
}

/// The (year, month, day) that a "DD.MM.YYYY" date string reads as, if it
/// reads as one.
pub uninterp spec fn dmy_date(s: Seq<char>) -> Option<(i32, u32, u32)>;

/// Relies on chrono's `NaiveDate::parse_from_str` with the format
/// "%d.%m.%Y": its result depends on the string alone, and a date it gives is
/// a valid calendar date.
#[verifier::external_body]
fn parse_day_month_year(s: &str) -> (r: Option<(i32, u32, u32)>)
    ensures
        r == dmy_date(s@),
        r matches Some((y, m, d)) ==> is_calendar_date(y as int, m as int, d as int),
{
    match chrono::NaiveDate::parse_from_str(s, "%d.%m.%Y") {
        Ok(date) => Some((date.year(), date.month(), date.day())),
        Err(_) => None,
    }
}

/// Relies on chrono's `NaiveDate::from_ymd_opt`, `and_hms_milli_opt`,
/// `and_utc` and `DateTime::timestamp_millis`: a valid date gives the
/// milliseconds from 1970-01-01 UTC to its midnight.
#[verifier::external_body]
fn midnight_utc_millis(y: i32, m: u32, d: u32) -> (r: Option<i64>)
    ensures
        is_calendar_date(y as int, m as int, d as int) <==> r is Some,
        r matches Some(ms) ==> ms as int == civil_millis(y as int, m as int, d as int),
{
    let date = chrono::NaiveDate::from_ymd_opt(y, m, d)?;
    let midnight = date.and_hms_milli_opt(0, 0, 0, 0)?;
    Some(midnight.and_utc().timestamp_millis())
}

/// The object is a text holding "Datum: ".
pub open spec fn is_date_text(o: ObjectView) -> bool {
    o matches ObjectView::Text(t) && contains_seq(t.text, "Datum: "@)
}

/// The characters of the first text holding "Datum: ".
pub open spec fn first_date_text(objs: Seq<ObjectView>) -> Option<Seq<char>>
    decreases objs.len(),
{
    if objs.len() == 0 {
        None
    } else {
        match first_date_text(objs.drop_last()) {
            Some(s) => Some(s),
            None => match objs.last() {
                ObjectView::Text(t) if is_date_text(objs.last()) => Some(t.text),
                _ => None,
            },
        }
    }
}

/// The characters of the first text holding "Datum: " over the pages, in
/// page order.
pub open spec fn pages_date_text(pages: Seq<Seq<ObjectView>>) -> Option<Seq<char>>
    decreases pages.len(),
{
    if pages.len() == 0 {
        None
    } else {
        match pages_date_text(pages.drop_last()) {
            Some(s) => Some(s),
            None => first_date_text(pages.last()),
        }
    }
}

/// The part of a date text after its last space.
pub open spec fn date_token(s: Seq<char>) -> Option<Seq<char>> {
    match last_index_of(s, ' ') {
        Some(i) => Some(s.subrange(i + 1, s.len() as int)),
        None => None,
    }
}

/// The issue date that a parsed date gives.
pub open spec fn parsed_millis(parsed: Option<(i32, u32, u32)>) -> Result<i64, ErrorKind> {
    match parsed {
        Some((y, m, d)) if is_calendar_date(y as int, m as int, d as int)
            => Ok(civil_millis(y as int, m as int, d as int) as i64),
        _ => Err(ErrorKind::DateParse),
    }
}

/// The issue date of a document with pages `pages`, or why it has none.
pub open spec fn issue_date(pages: Seq<Seq<ObjectView>>) -> Result<i64, ErrorKind> {
    match pages_date_text(pages) {
        None => Err(ErrorKind::DateNotFound),
        Some(s) => match date_token(s) {
            None => Err(ErrorKind::DateMalformed),
            Some(tok) => parsed_millis(dmy_date(tok)),
        },
    }
}

/// The part of a date text after its last space; `DateMalformed` where it
/// holds no space.
pub fn split_date_token(text: &str) -> (r: Result<&str, ErrorKind>)
    ensures
        match (r, date_token(text@)) {
            (Ok(t), Some(s)) => t@ == s,
            (Err(e), None) => e == ErrorKind::DateMalformed,
            _ => false,
        },
{
    match rfind_char(text, ' ') {
        Some(i) => {
            proof {
                crate::text::lemma_last_index_of(text@, ' ');
            }
            let n = text.unicode_len();
            Ok(text.substring_char(i + 1, n))
        },
        None => Err(ErrorKind::DateMalformed),
    }
}

/// The issue date that a parsed (year, month, day) gives: midnight UTC in
/// milliseconds since the epoch, or `DateParse` where nothing was parsed.
pub fn date_millis(parsed: Option<(i32, u32, u32)>) -> (r: Result<i64, ErrorKind>)
    ensures
        r == parsed_millis(parsed),
{
    match parsed {
        Some((y, m, d)) => match midnight_utc_millis(y, m, d) {
            Some(ms) => Ok(ms),
            None => Err(ErrorKind::DateParse),
        },
        None => Err(ErrorKind::DateParse),
    }
}

/// Reads the issue date from a date token in "DD.MM.YYYY" form.
pub fn parse_date_token(token: &str) -> (r: Result<i64, ErrorKind>)
    ensures
        r == parsed_millis(dmy_date(token@)),
{
    date_millis(parse_day_month_year(token))
}

impl PageObjects {
    /// The first text of the page holding "Datum: ".
    pub fn date_text(&self) -> (r: Option<&String>)
        ensures
            match (r, first_date_text(self@)) {
                (Some(s), Some(t)) => s@ == t,
                (None, None) => true,
                _ => false,
            },
    {
        let mut i: usize = 0;
        while i < self.0.len()
            invariant
                i <= self.0@.len(),
                first_date_text(self@.subrange(0, i as int)) is None,
            decreases self.0@.len() - i,
        {
            assert(self@.subrange(0, i + 1).drop_last() =~= self@.subrange(0, i as int));
            assert(self@[i as int] == self.0@[i as int]@);
            if let TableObject::Text(t) = &self.0[i] {
                if str_contains(t.text.as_str(), "Datum: ") {
                    proof {
                        lemma_first_date_stays(self@, i + 1);
                    }
                    return Some(&t.text);
                }
            }
            i = i + 1;
        }
        assert(self@.subrange(0, self@.len() as int) =~= self@);
        None
    }
}

/// Once a prefix holds a date text, the first one stays the same.
proof fn lemma_first_date_stays(objs: Seq<ObjectView>, n: int)
    requires
        0 < n <= objs.len(),
        first_date_text(objs.subrange(0, n - 1)) is None,
        is_date_text(objs[n - 1]),
    ensures
        first_date_text(objs) == first_date_text(objs.subrange(0, n)),
        first_date_text(objs) is Some,
    decreases objs.len() - n,
{
    assert(objs.subrange(0, n).drop_last() =~= objs.subrange(0, n - 1));
    if n == objs.len() {
        assert(objs.subrange(0, n) =~= objs);
    } else {
        assert(objs.drop_last().subrange(0, n - 1) =~= objs.subrange(0, n - 1));
        assert(objs.drop_last().subrange(0, n) =~= objs.subrange(0, n));
        lemma_first_date_stays(objs.drop_last(), n);
    }
}

} // verus!
