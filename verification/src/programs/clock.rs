use vstd::prelude::*;
use time::error::ComponentRange;
use crate::text::{decimal, signed_decimal, two_digits, push_decimal, push_signed_decimal, push_two_digits, push_str, string_from_chars};

verus! {

#[verifier::external_type_specification]
#[verifier::external_body]
pub struct ExComponentRange(ComponentRange);

/// A calendar date and time of day. `month` counts from 1 for January,
/// `weekday` from 0 for Monday.
pub struct DateParts {
    pub year: i32,
    pub month: u8,
    pub day: u8,
    pub weekday: u8,
    pub hour: u8,
    pub minute: u8,
    pub second: u8,
}

/// The UTC date and time `timestamp` seconds after the Unix epoch, as
/// `time::UtcDateTime::from_unix_timestamp` computes it; `None` outside its
/// range.
pub uninterp spec fn utc_date_time(timestamp: i64) -> Option<DateParts>;

/// The date and time at UTC `timestamp` seconds after the Unix epoch, as
/// `time::OffsetDateTime::from_unix_timestamp` computes it; `None` outside
/// its range.
pub uninterp spec fn offset_date_time(timestamp: i64) -> Option<DateParts>;

/// `time::UtcDateTime::from_unix_timestamp`, then its calendar date,
/// weekday and time of day; its error where the timestamp is out of range.
#[verifier::external_body]
fn utc_from_unix(timestamp: i64) -> (r: Result<DateParts, ComponentRange>)
    ensures
        match r {
            Ok(parts) => utc_date_time(timestamp) == Some(parts),
            Err(_) => utc_date_time(timestamp) is None,
        },
{
    let date = time::UtcDateTime::from_unix_timestamp(timestamp)?;
    let (year, month, day) = date.to_calendar_date();
    let (hour, minute, second) = date.as_hms();
    let weekday = date.weekday().number_days_from_monday();
    Ok(DateParts { year, month: month as u8, day, weekday, hour, minute, second })
}

/// `time::OffsetDateTime::from_unix_timestamp`, then its calendar date,
/// weekday and time of day; `None` where the timestamp is out of range.
#[verifier::external_body]
fn offset_from_unix(timestamp: i64) -> (r: Option<DateParts>)
    ensures
        r == offset_date_time(timestamp),
{
    let date = time::OffsetDateTime::from_unix_timestamp(timestamp).ok()?;
    let (year, month, day) = date.to_calendar_date();
    let (hour, minute, second) = date.to_hms();
    let weekday = date.weekday().number_days_from_monday();
    Some(DateParts { year, month: month as u8, day, weekday, hour, minute, second })
}

/// Morning or afternoon on a twelve-hour clock.
#[derive(PartialEq, Eq, Structural, Copy, Clone)]
pub enum Meridiem {
    Am,
    Pm,
    /// An hour past the end of the day.
    Neither,
}

/// What `date` prints: the date with the hour on a twelve-hour clock.
pub struct DateReport {
    pub parts: DateParts,
    pub meridiem: Meridiem,
}

/// The report of a date: the hour taken modulo twelve, morning before
/// twelve and afternoon before twenty-four.
pub open spec fn report_of(p: DateParts) -> DateReport {
    DateReport {
        parts: DateParts { hour: (p.hour % 12) as u8, ..p },
        meridiem: if p.hour / 12 == 0 { Meridiem::Am } else if p.hour / 12 == 1 { Meridiem::Pm } else { Meridiem::Neither },
    }
}

/// The hour on a twelve-hour clock, and whether it is morning or afternoon.
pub fn twelve_hour(hour: u8) -> (r: (u8, Meridiem))
    ensures
        r.0 == hour % 12,
        r.1 == (if hour / 12 == 0 { Meridiem::Am } else if hour / 12 == 1 { Meridiem::Pm } else { Meridiem::Neither }),
{
    let meridiem = match hour / 12 {
        0 => Meridiem::Am,
        1 => Meridiem::Pm,
        _ => Meridiem::Neither,
    };
    (hour % 12, meridiem)
}

/// What `date` prints for a clock reading of `timestamp` seconds since the
/// Unix epoch, taken as a signed number: the UTC date on a twelve-hour
/// clock, or the error for a timestamp out of range.
pub fn date_report(timestamp: u64) -> (r: Result<DateReport, ComponentRange>)
    ensures
        match r {
            Ok(report) => utc_date_time(timestamp as i64) matches Some(p) && report == report_of(p),
            Err(_) => utc_date_time(timestamp as i64) is None,
        },
{
    match utc_from_unix(timestamp as i64) {
        Ok(parts) => {
            let (hour, meridiem) = twelve_hour(parts.hour);
            Ok(DateReport { parts: DateParts { hour, ..parts }, meridiem })
        },
        Err(error) => Err(error),
    }
}

/// The date and time `ls` shows for a change time of `seconds` since the
/// Unix epoch, or `None` where it is out of range.
pub fn listing_time(seconds: i64) -> (r: Option<DateParts>)
    ensures
        r == offset_date_time(seconds),
{
    offset_from_unix(seconds)
}

/// The English name of month `month`, counted from 1 for January.
pub open spec fn month_name(month: u8) -> Seq<char> {
    if month == 1 { "January"@ } else if month == 2 { "February"@ } else if month == 3 { "March"@ } else if month == 4 { "April"@ } else if month == 5 { "May"@ } else if month == 6 { "June"@ } else if month == 7 { "July"@ } else if month == 8 { "August"@ } else if month == 9 { "September"@ } else if month == 10 { "October"@ } else if month == 11 { "November"@ } else if month == 12 { "December"@ } else { Seq::empty() }
}

/// The English name of the day `weekday` days after Monday.
pub open spec fn weekday_name(weekday: u8) -> Seq<char> {
    if weekday == 0 { "Monday"@ } else if weekday == 1 { "Tuesday"@ } else if weekday == 2 { "Wednesday"@ } else if weekday == 3 { "Thursday"@ } else if weekday == 4 { "Friday"@ } else if weekday == 5 { "Saturday"@ } else if weekday == 6 { "Sunday"@ } else { Seq::empty() }
}

fn month_str(month: u8) -> (s: &'static str)
    ensures
        s@ == month_name(month),
{
    match month {
        1 => "January",
        2 => "February",
        3 => "March",
        4 => "April",
        5 => "May",
        6 => "June",
        7 => "July",
        8 => "August",
        9 => "September",
        10 => "October",
        11 => "November",
        12 => "December",
        _ => {
            proof {
                reveal_strlit("");
            }
            ""
        },
    }
}

fn weekday_str(weekday: u8) -> (s: &'static str)
    ensures
        s@ == weekday_name(weekday),
{
    match weekday {
        0 => "Monday",
        1 => "Tuesday",
        2 => "Wednesday",
        3 => "Thursday",
        4 => "Friday",
        5 => "Saturday",
        6 => "Sunday",
        _ => {
            proof {
                reveal_strlit("");
            }
            ""
        },
    }
}

/// How a meridiem is written: `AM`, `PM`, or nothing.
pub open spec fn meridiem_text(m: Meridiem) -> Seq<char> {
    match m {
        Meridiem::Am => "AM"@,
        Meridiem::Pm => "PM"@,
        Meridiem::Neither => Seq::empty(),
    }
}

/// The line `date` prints for a report: weekday, month, day, the time on a
/// twelve-hour clock, the meridiem, `UTC` and the year.
pub open spec fn date_text(r: DateReport) -> Seq<char> {
    let p = r.parts;
    weekday_name(p.weekday) + " "@ + month_name(p.month) + " "@ + decimal(p.day as nat) + " "@
        + two_digits(p.hour as nat) + ":"@ + two_digits(p.minute as nat) + ":"@ + two_digits(p.second as nat)
        + " "@ + meridiem_text(r.meridiem) + " UTC "@ + signed_decimal(p.year as int)
}

/// The line `date` prints for a report (see `date_text`).
pub fn date_line(r: &DateReport) -> (line: String)
    ensures
        line@ == date_text(*r),
{
    let p = &r.parts;
    let mut out: Vec<char> = Vec::new();
    push_str(&mut out, weekday_str(p.weekday));
    push_str(&mut out, " ");
    push_str(&mut out, month_str(p.month));
    push_str(&mut out, " ");
    push_decimal(&mut out, p.day as u64);
    push_str(&mut out, " ");
    push_two_digits(&mut out, p.hour as u64);
    push_str(&mut out, ":");
    push_two_digits(&mut out, p.minute as u64);
    push_str(&mut out, ":");
    push_two_digits(&mut out, p.second as u64);
    push_str(&mut out, " ");
    let meridiem = match r.meridiem {
        Meridiem::Am => "AM",
        Meridiem::Pm => "PM",
        Meridiem::Neither => "",
    };
    proof {
        reveal_strlit("");
    }
    push_str(&mut out, meridiem);
    push_str(&mut out, " UTC ");
    push_signed_decimal(&mut out, p.year as i64);
    assert(out@ =~= date_text(*r));
    string_from_chars(out)
}

/// How `ls` shows a change time: month, day and the time of day, or an
/// error where the time is out of range.
pub open spec fn listing_time_text(t: Option<DateParts>) -> Seq<char> {
    match t {
        Some(p) => month_name(p.month) + " "@ + decimal(p.day as nat) + " "@ + two_digits(p.hour as nat) + ":"@ + two_digits(p.minute as nat),
        None => "Time/Date Error"@,
    }
}

/// Appends how `ls` shows a change time (see `listing_time_text`).
pub fn push_listing_time(out: &mut Vec<char>, t: &Option<DateParts>)
    ensures
        final(out)@ == old(out)@ + listing_time_text(*t),
{
    match t {
        Some(p) => {
            push_str(out, month_str(p.month));
            push_str(out, " ");
            push_decimal(out, p.day as u64);
            push_str(out, " ");
            push_two_digits(out, p.hour as u64);
            push_str(out, ":");
            push_two_digits(out, p.minute as u64);
        },
        None => push_str(out, "Time/Date Error"),
    }
    assert(final(out)@ =~= old(out)@ + listing_time_text(*t));
}

} // verus!
