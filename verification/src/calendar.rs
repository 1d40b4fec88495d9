//! The days the menu is shown for: the date an option names, the next day,
//! the working week around a day, and the heading of a day. The calendar
//! itself is chrono's; a date is a `(year, month, day)` triple.

use vstd::prelude::*;
use chrono::{Datelike, NaiveDate, TimeDelta};
use crate::cli::{spec_weekday_label, weekday_label, ArgAction};

verus! {

/// What `NaiveDate::parse_from_str` makes of a text under a format: the
/// date as `(year, month, day)`, or the message of its parse error.
pub uninterp spec fn parsed_date(text: Seq<char>, pattern: Seq<char>) -> Result<
    (i32, u32, u32),
    Seq<char>,
>;

/// What chrono makes of a date moved by a number of days that fits in an
/// `i64`: the date that many days later (earlier for a negative number),
/// or `None` when the triple is no date of the calendar or the day moved
/// to is out of the calendar's range.
pub uninterp spec fn shifted_date(date: (i32, u32, u32), days: int) -> Option<(i32, u32, u32)>;

/// The day of the week of a date as chrono counts it, Monday as 0 and
/// Sunday as 6, or `None` when the triple is no date of the calendar.
pub uninterp spec fn weekday_number(date: (i32, u32, u32)) -> Option<u32>;

/// `NaiveDate::parse_from_str`, the date taken apart with `year`, `month`
/// and `day`, and the error turned into its message. Which texts parse is
/// left to the name; a date's month is one of 1 to 12 and its day one of 1
/// to 31.
#[verifier::external_body]
fn parse_date_text(text: &str, pattern: &str) -> (r: Result<(i32, u32, u32), String>)
    ensures
        r is Ok == parsed_date(text@, pattern@) is Ok,
        r matches Ok(d) ==> parsed_date(text@, pattern@)->Ok_0 == d,
        r is Ok ==> 1 <= r->Ok_0.1 <= 12 && 1 <= r->Ok_0.2 <= 31,
        r matches Err(m) ==> parsed_date(text@, pattern@)->Err_0 == m@,
{
    NaiveDate::parse_from_str(text, pattern).map(|d| (d.year(), d.month(), d.day())).map_err(
        |e| e.to_string(),
    )
}

/// `NaiveDate::from_ymd_opt`, then `NaiveDate::checked_add_signed` with
/// `TimeDelta::try_days`: the date that many days later, or `None` as the
/// name says. Which triples are dates, and where the calendar ends, are
/// left to the name. What is stated is what chrono's proleptic Gregorian
/// calendar gives of a date it reaches: its month is one of 1 to 12 and
/// its day one of 1 to 31; the start was a date; each day moved moves the
/// weekday by one; moving back as many days gives the start again; and
/// moving it on by more days is moving the start by the sum.
#[verifier::external_body]
pub(crate) fn add_days(date: (i32, u32, u32), days: i64) -> (r: Option<(i32, u32, u32)>)
    ensures
        r == shifted_date(date, days as int),
        r is Some ==> 1 <= r->Some_0.1 <= 12 && 1 <= r->Some_0.2 <= 31,
        r is Some ==> weekday_number(date) is Some,
        r is Some ==> weekday_number(r->Some_0) == Some(
            ((weekday_number(date)->Some_0 + days) % 7) as u32,
        ),
        r is Some ==> shifted_date(r->Some_0, -(days as int)) == Some(date),
        r is Some ==> forall|more: int|
            i64::MIN <= more <= i64::MAX && i64::MIN <= days + more <= i64::MAX ==> #[trigger]
            shifted_date(r->Some_0, more) == shifted_date(date, days + more),
{
    let start = NaiveDate::from_ymd_opt(date.0, date.1, date.2)?;
    let end = start.checked_add_signed(TimeDelta::try_days(days)?)?;
    Some((end.year(), end.month(), end.day()))
}

/// `NaiveDate::from_ymd_opt`, then `Datelike::weekday` and
/// `Weekday::num_days_from_monday`: the day of the week, below 7. It is
/// there only for a date of the calendar, whose month is one of 1 to 12
/// and whose day is one of 1 to 31; which triples are dates is left to the
/// name.
#[verifier::external_body]
pub(crate) fn weekday(date: (i32, u32, u32)) -> (r: Option<u32>)
    ensures
        r == weekday_number(date),
        r is Some ==> r->Some_0 < 7 && 1 <= date.1 <= 12 && 1 <= date.2 <= 31,
{
    NaiveDate::from_ymd_opt(date.0, date.1, date.2).map(|d| d.weekday().num_days_from_monday())
}

/// The format of a date on the command line: `YYYY-MM-DD`.
pub open spec fn date_format() -> Seq<char> {
    "%Y-%m-%d"@
}

/// What an option does to the date that is shown.
#[derive(Debug, PartialEq, Eq)]
pub enum DateUpdate {
    /// Show this date from now on.
    Date((i32, u32, u32)),
    /// The `--date` text is not a date; the parser's message.
    Invalid(String),
    /// The next day lies past the end of the calendar.
    Overflow,
}

/// The date shown after an option: the date `--date` names, or the parse
/// error's message when its text is no `YYYY-MM-DD` date; the next day
/// for `--tomorrow`, or `Overflow` when there is none; the date as it was
/// for every other option.
pub fn update_date(date: (i32, u32, u32), action: &ArgAction) -> (r: DateUpdate)
    ensures
        action matches ArgAction::SetDate(raw) ==> match parsed_date(raw@, date_format()) {
            Ok(d) => r == DateUpdate::Date(d),
            Err(m) => r matches DateUpdate::Invalid(s) && s@ == m,
        },
        action is Tomorrow ==> match shifted_date(date, 1) {
            Some(d) => r == DateUpdate::Date(d),
            None => r is Overflow,
        },
        !(action is SetDate) && !(action is Tomorrow) ==> r == DateUpdate::Date(date),
{
    match action {
        ArgAction::SetDate(raw) => match parse_date_text(raw.as_str(), "%Y-%m-%d") {
            Ok(d) => DateUpdate::Date(d),
            Err(m) => DateUpdate::Invalid(m),
        },
        ArgAction::Tomorrow => match add_days(date, 1) {
            Some(d) => DateUpdate::Date(d),
            None => DateUpdate::Overflow,
        },
        _ => DateUpdate::Date(date),
    }
}

/// The Monday of a date's week.
pub open spec fn monday_of(date: (i32, u32, u32)) -> Option<(i32, u32, u32)> {
    match weekday_number(date) {
        Some(w) => shifted_date(date, -(w as int)),
        None => None,
    }
}

/// The working week of a date: its Monday and the four days after it, or
/// `None` when the triple is no date or one of these days is out of the
/// calendar's range.
pub open spec fn week_of(date: (i32, u32, u32)) -> Option<Seq<(i32, u32, u32)>> {
    match monday_of(date) {
        Some(monday) => if forall|k: int| 0 <= k < 5 ==> #[trigger] shifted_date(monday, k) is Some {
            Some(Seq::new(5, |k: int| shifted_date(monday, k)->Some_0))
        } else {
            None
        },
        None => None,
    }
}

/// Monday to Friday of the week a date lies in: five dates, the first a
/// Monday that the date lies the weekday's number of days after, each
/// next one the day after the one before, so that they run Monday to
/// Friday.
pub fn week_dates(date: (i32, u32, u32)) -> (r: Option<Vec<(i32, u32, u32)>>)
    ensures
        r is Some == week_of(date) is Some,
        r matches Some(days) ==> days@ == week_of(date)->Some_0,
        r matches Some(days) ==> days@.len() == 5,
        r matches Some(days) ==> forall|k: int|
            0 <= k < 5 ==> weekday_number(#[trigger] days@[k]) == Some(k as u32),
        r matches Some(days) ==> forall|k: int|
            0 <= k < 4 ==> shifted_date(#[trigger] days@[k], 1) == Some(days@[k + 1]),
        r matches Some(days) ==> shifted_date(days@[0], weekday_number(date)->Some_0 as int) == Some(
            date,
        ),
{
    let w = match weekday(date) {
        Some(w) => w,
        None => return None,
    };
    let monday = match add_days(date, -(w as i64)) {
        Some(m) => m,
        None => return None,
    };
    assert(weekday_number(monday) == Some(0u32));
    assert(shifted_date(monday, w as int) == Some(date));
    let ghost want = Seq::new(5, |k: int| shifted_date(monday, k)->Some_0);
    let mut days: Vec<(i32, u32, u32)> = Vec::new();
    let mut k: i64 = 0;
    while k < 5
        invariant
            0 <= k <= 5,
            monday_of(date) == Some(monday),
            weekday_number(monday) == Some(0u32),
            want == Seq::new(5, |k: int| shifted_date(monday, k)->Some_0),
            days@.len() == k,
            forall|j: int| 0 <= j < k ==> #[trigger] shifted_date(monday, j) is Some,
            forall|j: int| 0 <= j < k ==> days@[j] == want[j],
            forall|j: int| 0 <= j < k ==> weekday_number(#[trigger] days@[j]) == Some(j as u32),
            forall|j: int|
                0 <= j < k ==> shifted_date(#[trigger] days@[j], 1) == shifted_date(monday, j + 1),
        decreases 5 - k,
    {
        match add_days(monday, k) {
            Some(d) => {
                assert(weekday_number(d) == Some(k as u32));
                assert(shifted_date(d, 1) == shifted_date(monday, k + 1));
                let ghost before = days@;
                days.push(d);
                assert(days@[k as int] == d);
                assert(forall|j: int| 0 <= j < k ==> days@[j] == before[j]);
            },
            None => {
                return None;
            },
        }
        k = k + 1;
    }
    assert(days@ =~= want);
    assert forall|j: int| 0 <= j < 4 implies shifted_date(#[trigger] days@[j], 1) == Some(
        days@[j + 1],
    ) by {
        assert(shifted_date(monday, j + 1) is Some);
        assert(days@[j + 1] == want[j + 1]);
    }
    Some(days)
}

/// The heading of a day in the menu's language: its weekday and its day
/// and month; `None` when the triple is no date of the calendar.
pub fn day_heading(date: (i32, u32, u32), lang: &str) -> (r: Option<String>)
    ensures
        r is Some == weekday_number(date) is Some,
        r matches Some(s) ==> s@ == spec_weekday_label(
            weekday_number(date)->Some_0 as int,
            date.1 as nat,
            date.2 as nat,
            lang@,
        ),
{
    match weekday(date) {
        Some(w) => Some(weekday_label(w as usize, date.1, date.2, lang)),
        None => None,
    }
}

} // verus!
