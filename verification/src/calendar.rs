//! The calendar popup: moving between months and the 6×7 grid of days.
//! Dates come from `chrono`.
use vstd::prelude::*;
use chrono::Datelike;
use crate::text::decimal;

verus! {

/// A date of the proleptic Gregorian calendar.
#[derive(Debug, Clone, Copy)]
pub struct CalendarDate {
    pub year: i32,
    pub month: u32,
    pub day: u32,
}

/// The first year `chrono` represents.
pub open spec fn min_year() -> int {
    -262143
}

/// The last year `chrono` represents.
pub open spec fn max_year() -> int {
    262142
}

/// A leap year of the proleptic Gregorian calendar.
pub open spec fn is_leap(y: int) -> bool {
    (y % 4 == 0 && y % 100 != 0) || y % 400 == 0
}

/// The number of days of a month.
pub open spec fn days_in_month(y: int, m: int) -> int {
    if m == 2 {
        if is_leap(y) {
            29
        } else {
            28
        }
    } else if m == 4 || m == 6 || m == 9 || m == 11 {
        30
    } else {
        31
    }
}

/// A date that exists and that `chrono` can represent.
pub open spec fn valid_date(y: int, m: int, d: int) -> bool {
    &&& min_year() <= y <= max_year()
    &&& 1 <= m <= 12
    &&& 1 <= d <= days_in_month(y, m)
}

/// The date is valid.
pub open spec fn valid(d: CalendarDate) -> bool {
    valid_date(d.year as int, d.month as int, d.day as int)
}

/// The days from 1970-01-01 to a date of the proleptic Gregorian calendar
/// (negative before it): whole 400-year eras of 146097 days, counted from
/// March so that the leap day ends the year.
pub open spec fn days_from_epoch(y: int, m: int, d: int) -> int {
    let y2 = if m <= 2 { y - 1 } else { y };
    let era = y2 / 400;
    let yoe = y2 - era * 400;
    let mp = (m + 9) % 12;
    let doy = (153 * mp + 2) / 5 + d - 1;
    let doe = yoe * 365 + yoe / 4 - yoe / 100 + doy;
    era * 146097 + doe - 719468
}

/// The weekday of a date, Monday = 1 to Sunday = 7 (1970-01-01 was a
/// Thursday).
pub open spec fn iso_weekday(year: i32, month: u32, day: u32) -> u32 {
    (((days_from_epoch(year as int, month as int, day as int) + 3) % 7) + 1) as u32
}

/// The English name of a month.
pub open spec fn month_name(m: u32) -> Seq<char> {
    if m == 1 { "January"@ }
    else if m == 2 { "February"@ }
    else if m == 3 { "March"@ }
    else if m == 4 { "April"@ }
    else if m == 5 { "May"@ }
    else if m == 6 { "June"@ }
    else if m == 7 { "July"@ }
    else if m == 8 { "August"@ }
    else if m == 9 { "September"@ }
    else if m == 10 { "October"@ }
    else if m == 11 { "November"@ }
    else { "December"@ }
}

/// Digits padded with zeros on the left to four.
pub open spec fn pad4(s: Seq<char>) -> Seq<char> {
    if s.len() < 4 { Seq::new((4 - s.len()) as nat, |i: int| '0') + s } else { s }
}

/// A year as "%Y" writes it: four digits or more for 0 to 9999, else
/// signed and at least four digits.
pub open spec fn year_text(y: int) -> Seq<char> {
    if 0 <= y <= 9999 {
        pad4(decimal(y as nat))
    } else if y < 0 {
        "-"@ + pad4(decimal((-y) as nat))
    } else {
        "+"@ + pad4(decimal(y as nat))
    }
}

/// The "%B %Y" text of a date: the month's name and the year.
pub open spec fn month_title(year: i32, month: u32, day: u32) -> Seq<char> {
    month_name(month) + " "@ + year_text(year as int)
}

/// `NaiveDate::from_ymd_opt`: a date exactly when it exists in the calendar
/// and its year is in `chrono`'s range.
#[verifier::external_body]
fn from_ymd_opt(year: i32, month: u32, day: u32) -> (r: Option<CalendarDate>)
    ensures
        r is Some <==> valid_date(year as int, month as int, day as int),
        r matches Some(c) ==> c.year == year && c.month == month && c.day == day,
{
    match chrono::NaiveDate::from_ymd_opt(year, month, day) {
        Some(d) => Some(CalendarDate { year: d.year(), month: d.month(), day: d.day() }),
        None => None,
    }
}

/// `Weekday::number_from_monday` of a date's `weekday()`: Monday 1 to
/// Sunday 7. (The date is first made with `from_ymd_opt`.)
#[verifier::external_body]
fn weekday_from_monday(d: CalendarDate) -> (r: u32)
    requires
        valid(d),
    ensures
        r == iso_weekday(d.year, d.month, d.day),
        1 <= r <= 7,
{
    chrono::NaiveDate::from_ymd_opt(d.year, d.month, d.day).unwrap().weekday().number_from_monday()
}

/// `NaiveDate::signed_duration_since(..).num_days()` from the first day of a
/// month to the first day of the next: the length of the month.
#[verifier::external_body]
fn days_until(first: CalendarDate, next_first: CalendarDate) -> (r: i64)
    requires
        valid(first),
        valid(next_first),
        first.day == 1,
        next_first.day == 1,
        (first.month < 12 && next_first.year == first.year && next_first.month == first.month + 1)
            || (first.month == 12 && next_first.year == first.year + 1 && next_first.month == 1),
    ensures
        r == days_in_month(first.year as int, first.month as int),
{
    let a = chrono::NaiveDate::from_ymd_opt(next_first.year, next_first.month, next_first.day).unwrap();
    let b = chrono::NaiveDate::from_ymd_opt(first.year, first.month, first.day).unwrap();
    a.signed_duration_since(b).num_days()
}

/// `NaiveDate::format("%B %Y")`: the English month name (the default
/// locale), a space, and the year as "%Y" writes it.
#[verifier::external_body]
fn format_month_title(d: CalendarDate) -> (r: String)
    requires
        valid(d),
    ensures
        r@ == month_title(d.year, d.month, d.day),
{
    chrono::NaiveDate::from_ymd_opt(d.year, d.month, d.day).unwrap().format("%B %Y").to_string()
}

/// One cell of the grid: the day shown, if it belongs to the month, and
/// whether it is today.
#[derive(Debug, Clone, Copy)]
pub struct CalendarCell {
    pub day: Option<i32>,
    pub is_today: bool,
}

/// The title and the 42 cells of a month.
pub struct CalendarGrid {
    pub title: String,
    pub cells: Vec<CalendarCell>,
}

/// The day in cell `k` (0 to 41, row by row) of a month that starts on
/// weekday `start` (Monday = 1) and has `days` days.
pub open spec fn cell_day(k: int, start: int, days: int) -> Option<int> {
    if start <= k + 1 && k + 1 - start < days {
        Some(k + 2 - start)
    } else {
        None
    }
}

/// How many of the first `k` cells hold a day of the month.
pub open spec fn current_before(k: int, start: int, days: int) -> int {
    let n = k - start + 1;
    if n <= 0 {
        0
    } else if n <= days {
        n
    } else if days > 0 {
        days
    } else {
        0
    }
}

/// The first day of the previous month; the date itself where that month
/// is out of range.
pub open spec fn spec_prev_month(d: CalendarDate) -> CalendarDate {
    let y = if d.month == 1 { d.year - 1 } else { d.year as int };
    let m = if d.month == 1 { 12 } else { d.month - 1 };
    if valid_date(y, m, 1) {
        CalendarDate { year: y as i32, month: m as u32, day: 1 }
    } else {
        d
    }
}

/// The first day of the next month; the date itself where that month is
/// out of range.
pub open spec fn spec_next_month(d: CalendarDate) -> CalendarDate {
    let y = if d.month == 12 { d.year + 1 } else { d.year as int };
    let m = if d.month == 12 { 1 } else { d.month + 1 };
    if valid_date(y, m, 1) {
        CalendarDate { year: y as i32, month: m as u32, day: 1 }
    } else {
        d
    }
}

/// The calendar popup's month logic.
pub struct CalendarPopup;

impl CalendarPopup {
    /// The first day of the previous month.
    pub fn prev_month(d: CalendarDate) -> (r: CalendarDate)
        requires
            valid(d),
        ensures
            r == spec_prev_month(d),
    {
        let (y, m) = if d.month == 1 {
            (d.year - 1, 12u32)
        } else {
            (d.year, d.month - 1)
        };
        match from_ymd_opt(y, m, 1) {
            Some(c) => c,
            None => d,
        }
    }

    /// The first day of the next month.
    pub fn next_month(d: CalendarDate) -> (r: CalendarDate)
        requires
            valid(d),
        ensures
            r == spec_next_month(d),
    {
        let (y, m) = if d.month == 12 {
            (d.year + 1, 1u32)
        } else {
            (d.year, d.month + 1)
        };
        match from_ymd_opt(y, m, 1) {
            Some(c) => c,
            None => d,
        }
    }

    /// The 42 cells of a month that starts on weekday `start_weekday` and
    /// has `days` days; the day `today`, if given, is marked.
    pub fn month_cells(start_weekday: u32, days: i32, today: Option<i32>) -> (r: Vec<CalendarCell>)
        requires
            1 <= start_weekday <= 7,
        ensures
            r@.len() == 42,
            forall|k: int| 0 <= k < 42 ==> {
                &&& (#[trigger] r@[k]).day == match cell_day(k, start_weekday as int, days as int) {
                    Some(x) => Some(x as i32),
                    None => None::<i32>,
                }
                &&& r@[k].is_today == (cell_day(k, start_weekday as int, days as int) is Some && today is Some
                    && cell_day(k, start_weekday as int, days as int)->0 == today->0)
            },
    {
        let mut cells: Vec<CalendarCell> = Vec::new();
        let mut counter: i32 = 1;
        let mut k: u32 = 0;
        while k < 42
            invariant
                k <= 42,
                1 <= start_weekday <= 7,
                cells@.len() == k,
                counter == current_before(k as int, start_weekday as int, days as int) + 1,
                forall|x: int| 0 <= x < k ==> {
                    &&& (#[trigger] cells@[x]).day == match cell_day(x, start_weekday as int, days as int) {
                        Some(v) => Some(v as i32),
                        None => None::<i32>,
                    }
                    &&& cells@[x].is_today == (cell_day(x, start_weekday as int, days as int) is Some && today is Some
                        && cell_day(x, start_weekday as int, days as int)->0 == today->0)
                },
            decreases 42 - k,
        {
            let cell_num = k + 1;
            if cell_num >= start_weekday && counter <= days {
                let is_today = match today {
                    Some(t) => t == counter,
                    None => false,
                };
                cells.push(CalendarCell { day: Some(counter), is_today });
                counter = counter + 1;
            } else {
                cells.push(CalendarCell { day: None, is_today: false });
            }
            k = k + 1;
        }
        cells
    }

    /// The grid of the month of `current`, with `today` marked when it is in
    /// that month.
    pub fn render_grid(current: CalendarDate, today: CalendarDate) -> (r: CalendarGrid)
        requires
            valid(current),
            !(current.year == max_year() && current.month == 12),
        ensures
            r.title@ == month_title(current.year, current.month, current.day),
            r.cells@.len() == 42,
            forall|k: int| 0 <= k < 42 ==> {
                let start = iso_weekday(current.year, current.month, 1) as int;
                let days = days_in_month(current.year as int, current.month as int);
                &&& (#[trigger] r.cells@[k]).day == match cell_day(k, start, days) {
                    Some(x) => Some(x as i32),
                    None => None::<i32>,
                }
                &&& r.cells@[k].is_today == (cell_day(k, start, days) is Some && current.year == today.year
                    && current.month == today.month && cell_day(k, start, days)->0 == today.day)
            },
    {
        let title = format_month_title(current);
        let first = CalendarDate { year: current.year, month: current.month, day: 1 };
        let start = weekday_from_monday(first);
        let next = if current.month == 12 {
            from_ymd_opt(current.year + 1, 1, 1)
        } else {
            from_ymd_opt(current.year, current.month + 1, 1)
        };
        let next_first = match next {
            Some(n) => n,
            None => first,
        };
        let days = days_until(first, next_first) as i32;
        let highlight = if current.year == today.year && current.month == today.month && today.day <= 31 {
            Some(today.day as i32)
        } else {
            None
        };
        let cells = Self::month_cells(start, days, highlight);
        CalendarGrid { title, cells }
    }
}


/// Going back a month and then forward lands on the first day of the month
/// one started in (when the month before is in range).
pub proof fn lemma_prev_then_next(d: CalendarDate)
    requires
        valid(d),
        !(d.year == min_year() && d.month == 1),
    ensures
        spec_next_month(spec_prev_month(d)) == (CalendarDate { year: d.year, month: d.month, day: 1 }),
{
}

/// Going forward a month and then back lands on the first day of the month
/// one started in (when the month after is in range).
pub proof fn lemma_next_then_prev(d: CalendarDate)
    requires
        valid(d),
        !(d.year == max_year() && d.month == 12),
    ensures
        spec_prev_month(spec_next_month(d)) == (CalendarDate { year: d.year, month: d.month, day: 1 }),
{
}

/// The clock on the shelf.
/// A number below 100 as two digits.
pub open spec fn two_digits(n: u32) -> Seq<char> {
    seq![(('0' as u32) + n / 10) as char, (('0' as u32) + n % 10) as char]
}

/// The shelf clock's "%H:%M" text.
pub open spec fn clock_text(hour: u32, minute: u32) -> Seq<char> {
    two_digits(hour) + ":"@ + two_digits(minute)
}

/// The short English name of a month.
pub open spec fn short_month(m: u32) -> Seq<char> {
    if m == 1 { "Jan"@ }
    else if m == 2 { "Feb"@ }
    else if m == 3 { "Mar"@ }
    else if m == 4 { "Apr"@ }
    else if m == 5 { "May"@ }
    else if m == 6 { "Jun"@ }
    else if m == 7 { "Jul"@ }
    else if m == 8 { "Aug"@ }
    else if m == 9 { "Sep"@ }
    else if m == 10 { "Oct"@ }
    else if m == 11 { "Nov"@ }
    else { "Dec"@ }
}

/// The shelf's "%b %-d" date text: short month name and unpadded day.
pub open spec fn short_date_text(month: u32, day: u32) -> Seq<char> {
    short_month(month) + " "@ + decimal(day as nat)
}

/// `NaiveTime::from_hms_opt(hour, minute, 0)` formatted with "%H:%M":
/// hour and minute, each as two digits.
#[verifier::external_body]
fn format_clock(hour: u32, minute: u32) -> (r: String)
    requires
        hour < 24,
        minute < 60,
    ensures
        r@ == clock_text(hour, minute),
{
    chrono::NaiveTime::from_hms_opt(hour, minute, 0).unwrap().format("%H:%M").to_string()
}

/// `NaiveDate::format("%b %-d")`: the short month name (the default
/// locale), a space and the day without padding.
#[verifier::external_body]
fn format_short_date(d: CalendarDate) -> (r: String)
    requires
        valid(d),
    ensures
        r@ == short_date_text(d.month, d.day),
{
    chrono::NaiveDate::from_ymd_opt(d.year, d.month, d.day).unwrap().format("%b %-d").to_string()
}

pub struct ShelfClock;

impl ShelfClock {
    /// The clock text of a time of day, "HH:MM"; none for a time that does
    /// not exist.
    pub fn clock_label(hour: u32, minute: u32) -> (r: Option<String>)
        ensures
            r is Some <==> hour < 24 && minute < 60,
            r matches Some(t) ==> t@ == clock_text(hour, minute),
    {
        if hour < 24 && minute < 60 {
            Some(format_clock(hour, minute))
        } else {
            None
        }
    }

    /// The date text of the shelf, such as "Mar 5"; none for a date that
    /// does not exist.
    pub fn date_label(year: i32, month: u32, day: u32) -> (r: Option<String>)
        ensures
            r is Some <==> valid_date(year as int, month as int, day as int),
            r matches Some(t) ==> t@ == short_date_text(month, day),
    {
        match from_ymd_opt(year, month, day) {
            Some(d) => Some(format_short_date(d)),
            None => None,
        }
    }

    /// The seconds until the next minute starts, at least one.
    pub fn secs_to_next_minute(second: u32) -> (r: u32)
        requires
            second <= 60,
        ensures
            r == if 60 - second >= 1 { 60 - second } else { 1 },
    {
        let d = 60 - second;
        if d >= 1 {
            d
        } else {
            1
        }
    }
}

} // verus!
