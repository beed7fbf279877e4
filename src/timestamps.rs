//! Reading the dataset's time index and calendar dates through chrono.
use vstd::prelude::*;
use chrono::Datelike;

verus! {

/// The time that chrono reads from `text` in format `fmt`, as seconds since
/// 1970-01-01 00:00 taken as UTC; `None` where chrono rejects the text.
pub uninterp spec fn parsed_seconds(text: Seq<char>, fmt: Seq<char>) -> Option<i64>;

/// The date that chrono reads from `text` in format `fmt`, as year, month and day.
pub uninterp spec fn parsed_date(text: Seq<char>, fmt: Seq<char>) -> Option<(i32, u32, u32)>;

/// Relies on chrono's `NaiveDateTime::parse_from_str` and `and_utc().timestamp()`.
#[verifier::external_body]
fn parse_seconds(text: &str, fmt: &str) -> (r: Option<i64>)
    ensures
        r == parsed_seconds(text@, fmt@),
{
    match chrono::NaiveDateTime::parse_from_str(text, fmt) {
        Ok(t) => Some(t.and_utc().timestamp()),
        Err(_) => None,
    }
}

/// Relies on chrono's `NaiveDate::parse_from_str`, read back by `year`, `month` and `day`.
#[verifier::external_body]
fn parse_date(text: &str, fmt: &str) -> (r: Option<(i32, u32, u32)>)
    ensures
        r == parsed_date(text@, fmt@),
{
    match chrono::NaiveDate::parse_from_str(text, fmt) {
        Ok(d) => Some((d.year(), d.month(), d.day())),
        Err(_) => None,
    }
}

/// The format of the dataset's time index.
pub open spec fn index_format() -> Seq<char> {
    seq!['%', 'Y', '-', '%', 'm', '-', '%', 'd', ' ', '%', 'H', ':', '%', 'M']
}

/// The format of calendar dates.
pub open spec fn date_format() -> Seq<char> {
    seq!['%', 'Y', '-', '%', 'm', '-', '%', 'd']
}

/// Reads every entry of the time index (`YYYY-MM-DD HH:MM`) as seconds; on failure,
/// the position of the first entry that cannot be read.
pub fn parse_time_index(index: &Vec<String>) -> (r: Result<Vec<i64>, usize>)
    ensures
        match r {
            Ok(v) => v@.len() == index@.len() && forall|i: int| 0 <= i < index@.len()
                ==> parsed_seconds((#[trigger] index@[i])@, index_format()) == Some(v@[i]),
            Err(p) => p < index@.len() && parsed_seconds(index@[p as int]@, index_format()) is None
                && forall|i: int| 0 <= i < p ==> parsed_seconds((#[trigger] index@[i])@, index_format()) is Some,
        },
{
    let fmt = "%Y-%m-%d %H:%M";
    proof {
        reveal_strlit("%Y-%m-%d %H:%M");
        assert(fmt@ == index_format());
    }
    let mut v: Vec<i64> = Vec::new();
    let mut i: usize = 0;
    while i < index.len()
        invariant
            fmt@ == index_format(),
            i <= index@.len(),
            v@.len() == i,
            forall|j: int| 0 <= j < i ==> parsed_seconds((#[trigger] index@[j])@, index_format()) == Some(v@[j]),
        decreases index@.len() - i,
    {
        match parse_seconds(index[i].as_str(), fmt) {
            Some(t) => v.push(t),
            None => return Err(i),
        }
        i += 1;
    }
    Ok(v)
}

/// A calendar date.
#[derive(Clone, Copy, Debug, PartialEq, Eq, Structural)]
pub struct CalendarDate {
    pub year: i32,
    pub month: u32,
    pub day: u32,
}

/// `a` comes strictly after `b` in the calendar.
pub open spec fn date_after(a: CalendarDate, b: CalendarDate) -> bool {
    a.year > b.year || (a.year == b.year && (a.month > b.month || (a.month == b.month && a.day > b.day)))
}

/// Reads a date written `YYYY-MM-DD`.
pub fn parse_calendar_date(text: &str) -> (r: Option<CalendarDate>)
    ensures
        match parsed_date(text@, date_format()) {
            Some((y, m, d)) => r == Some(CalendarDate { year: y, month: m, day: d }),
            None => r is None,
        },
{
    let fmt = "%Y-%m-%d";
    proof {
        reveal_strlit("%Y-%m-%d");
        assert(fmt@ == date_format());
    }
    match parse_date(text, fmt) {
        Some((year, month, day)) => Some(CalendarDate { year, month, day }),
        None => None,
    }
}

/// The software has expired when today lies after its expiration date.
pub fn is_expired(today: CalendarDate, expiration: CalendarDate) -> (r: bool)
    ensures
        r == date_after(today, expiration),
{
    today.year > expiration.year || (today.year == expiration.year && (today.month > expiration.month
        || (today.month == expiration.month && today.day > expiration.day)))
}

} // verus!
