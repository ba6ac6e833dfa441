//! The texts made from a clock reading: the time card of the `~t` flag and
//! the timestamp of a saved note, formatted by chrono.

use vstd::prelude::*;

verus! {

/// The English name of month `m` (1 to 12), as chrono's `%B` writes it.
pub open spec fn month_name(m: u32) -> Seq<char> {
    if m == 1 {
        "January"@
    } else if m == 2 {
        "February"@
    } else if m == 3 {
        "March"@
    } else if m == 4 {
        "April"@
    } else if m == 5 {
        "May"@
    } else if m == 6 {
        "June"@
    } else if m == 7 {
        "July"@
    } else if m == 8 {
        "August"@
    } else if m == 9 {
        "September"@
    } else if m == 10 {
        "October"@
    } else if m == 11 {
        "November"@
    } else {
        "December"@
    }
}

/// The decimal digit of `n` (0 to 9).
pub open spec fn digit(n: int) -> char {
    seq!['0', '1', '2', '3', '4', '5', '6', '7', '8', '9'][n]
}

/// `n` (0 to 99) in two digits, with a leading zero (`%M`).
pub open spec fn zero_pad2(n: int) -> Seq<char> {
    seq![digit(n / 10), digit(n % 10)]
}

/// `n` (0 to 99) in two places, with a leading space (`%e`, `%l`).
pub open spec fn space_pad2(n: int) -> Seq<char> {
    if n < 10 {
        seq![' ', digit(n)]
    } else {
        zero_pad2(n)
    }
}

/// The hour on a twelve-hour clock (1 to 12).
pub open spec fn hour12(h: u32) -> int {
    if h % 12 == 0 {
        12
    } else {
        (h % 12) as int
    }
}

/// `am` before noon, `pm` from noon on (`%P`).
pub open spec fn am_pm(h: u32) -> Seq<char> {
    if h >= 12 {
        "pm"@
    } else {
        "am"@
    }
}

/// The format of the time card.
pub open spec fn card_format() -> Seq<char> {
    " %B %e,\n%l:%M %P"@
}

/// The format of a note's timestamp.
pub open spec fn stamp_format() -> Seq<char> {
    "%B %e, %l:%M %P"@
}

/// What the time card shows: ` <month> <day>,` and on a second line
/// `<hour>:<minute> <am/pm>`.
pub open spec fn card_text(month: u32, day: u32, hour: u32, minute: u32) -> Seq<char> {
    " "@ + month_name(month) + " "@ + space_pad2(day as int) + ",\n"@ + space_pad2(hour12(hour))
        + ":"@ + zero_pad2(minute as int) + " "@ + am_pm(hour)
}

/// The timestamp of a saved note: `<month> <day>, <hour>:<minute> <am/pm>`.
pub open spec fn stamp_text(month: u32, day: u32, hour: u32, minute: u32) -> Seq<char> {
    month_name(month) + " "@ + space_pad2(day as int) + ", "@ + space_pad2(hour12(hour)) + ":"@
        + zero_pad2(minute as int) + " "@ + am_pm(hour)
}

/// Whether `y` is a leap year of the proleptic Gregorian calendar.
pub open spec fn is_leap(y: i32) -> bool {
    y % 4 == 0 && (y % 100 != 0 || y % 400 == 0)
}

/// The number of days of month `m` of year `y`.
pub open spec fn days_in_month(y: i32, m: u32) -> u32 {
    if m == 2 {
        if is_leap(y) {
            29
        } else {
            28
        }
    } else if m == 4 || m == 6 || m == 9 || m == 11 {
        30
    } else {
        31
    }
}

/// The date and time exist for chrono.
pub open spec fn valid_moment(year: i32, month: u32, day: u32, hour: u32, minute: u32) -> bool {
    &&& -262143 <= year <= 262142
    &&& 1 <= month <= 12
    &&& 1 <= day <= days_in_month(year, month)
    &&& hour < 24
    &&& minute < 60
}

/// Calls chrono's `NaiveDate::from_ymd_opt` and `NaiveDate::and_hms_opt` to
/// turn the fields into a `NaiveDateTime` (seconds zero), then its `format`
/// with `fmt`, one of the two formats of this module. The contract claims
/// what chrono's source shows: `None` exactly when the date or time does not
/// exist (years -262143 to 262142); else the text that the format codes
/// `%B`, `%e`, `%l`, `%M`, `%P` write.
#[verifier::external_body]
fn format_clock(fmt: &str, year: i32, month: u32, day: u32, hour: u32, minute: u32) -> (r: Option<
    String,
>)
    requires
        fmt@ == card_format() || fmt@ == stamp_format(),
    ensures
        r is Some <==> valid_moment(year, month, day, hour, minute),
        fmt@ == card_format() ==> (r matches Some(t) ==> t@ == card_text(month, day, hour, minute)),
        fmt@ == stamp_format() ==> (r matches Some(t) ==> t@ == stamp_text(month, day, hour, minute)),
{
    let moment = chrono::NaiveDate::from_ymd_opt(year, month, day)?.and_hms_opt(hour, minute, 0)?;
    Some(moment.format(fmt).to_string())
}

/// The time card for a clock reading, or `None` when the date or time does
/// not exist.
pub fn time_card(year: i32, month: u32, day: u32, hour: u32, minute: u32) -> (r: Option<String>)
    ensures
        match r {
            Some(t) => valid_moment(year, month, day, hour, minute) && t@ == card_text(
                month,
                day,
                hour,
                minute,
            ),
            None => !valid_moment(year, month, day, hour, minute),
        },
{
    format_clock(" %B %e,\n%l:%M %P", year, month, day, hour, minute)
}

/// The timestamp of a note saved at a clock reading, or `None` when the
/// date or time does not exist.
pub fn note_timestamp(year: i32, month: u32, day: u32, hour: u32, minute: u32) -> (r: Option<
    String,
>)
    ensures
        match r {
            Some(t) => valid_moment(year, month, day, hour, minute) && t@ == stamp_text(
                month,
                day,
                hour,
                minute,
            ),
            None => !valid_moment(year, month, day, hour, minute),
        },
{
    format_clock("%B %e, %l:%M %P", year, month, day, hour, minute)
}

} // verus!
