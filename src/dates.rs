//! The study day: the calendar day that local time counts towards, given the
//! hour at which a new study day begins.
use vstd::prelude::*;
use crate::types::CardStatus;

verus! {

/// The local date and hour. `day` is the date's day number in the common era
/// (0001-01-01 is day 1).
#[derive(Debug, Clone, Copy)]
pub struct LocalClock {
    pub day: i32,
    pub hour: u32,
}

/// Day number of chrono's earliest date, `NaiveDate::MIN` (January 1 of year
/// -262143), as chrono's `num_days_from_ce` computes it.
pub const MIN_DAY: i32 = -95_746_129;

/// Day number of 1969-12-31, the earliest local date the clock can read: the
/// UTC time is never before the Unix epoch (1970-01-01, day 719163), and a
/// local offset is less than one day.
pub const FIRST_CLOCK_DAY: i32 = 719_162;

/// Day number of chrono's latest date, `NaiveDate::MAX` (December 31 of year
/// 262142).
pub const MAX_DAY: i32 = 95_745_399;

/// Relies on `chrono::Local::now`: the local date's day number and the hour,
/// read off the result with `date_naive`, `num_days_from_ce` and `hour`.
/// chrono's hours run from 0 to 23. `Utc::now` never gives a time before the
/// Unix epoch (it panics instead) nor after `NaiveDate::MAX`, and a local
/// offset lies strictly within one day, so the local date is 1969-12-31 or
/// later.
#[verifier::external_body]
fn local_clock_now() -> (r: LocalClock)
    ensures
        r.hour < 24,
        FIRST_CLOCK_DAY <= r.day <= MAX_DAY,
{
    let now = chrono::Local::now();
    LocalClock {
        day: chrono::Datelike::num_days_from_ce(&now.date_naive()),
        hour: chrono::Timelike::hour(&now),
    }
}

/// The `YYYY-MM-DD` text of the date with day number `day`.
pub uninterp spec fn ymd_text(day: int) -> Seq<char>;

/// Relies on `chrono::NaiveDate::from_num_days_from_ce_opt`, which gives a
/// date exactly for the day numbers from `MIN_DAY` to `MAX_DAY`, and on the
/// `%Y-%m-%d` format of that date.
#[verifier::external_body]
fn format_day(day: i32) -> (r: Option<String>)
    ensures
        r is Some <==> MIN_DAY <= day <= MAX_DAY,
        r matches Some(s) ==> s@ == ymd_text(day as int),
{
    chrono::NaiveDate::from_num_days_from_ce_opt(day).map(|d| d.format("%Y-%m-%d").to_string())
}

/// The study day for local day `day` at hour `hour`: before the reset hour
/// the previous day still counts.
pub open spec fn study_day_spec(day: int, hour: int, reset_hour: int) -> int {
    if hour < reset_hour {
        day - 1
    } else {
        day
    }
}

/// The study day for local day `day` at hour `hour`.
pub fn study_day(day: i32, hour: u32, daily_reset_hour: u32) -> (r: i32)
    requires
        day > i32::MIN,
    ensures
        r == study_day_spec(day as int, hour as int, daily_reset_hour as int),
{
    if hour < daily_reset_hour {
        day - 1
    } else {
        day
    }
}

/// The `YYYY-MM-DD` text of the study day for the clock reading `clock`.
pub fn study_day_text(clock: LocalClock, daily_reset_hour: u32) -> (r: String)
    requires
        MIN_DAY < clock.day <= MAX_DAY,
    ensures
        r@ == ymd_text(study_day_spec(clock.day as int, clock.hour as int, daily_reset_hour as int)),
{
    let d = study_day(clock.day, clock.hour, daily_reset_hour);
    match format_day(d) {
        Some(s) => s,
        None => {
            assert(false);
            String::new()
        },
    }
}

/// Whether `t` is the text of the study day for a reading `c` of the local
/// clock: a reading the clock can give, and the `YYYY-MM-DD` of its study
/// day.
pub open spec fn today_text(c: LocalClock, daily_reset_hour: u32, t: Seq<char>) -> bool {
    &&& c.hour < 24
    &&& FIRST_CLOCK_DAY <= c.day <= MAX_DAY
    &&& t == ymd_text(study_day_spec(c.day as int, c.hour as int, daily_reset_hour as int))
}

/// Today's study day as `YYYY-MM-DD`, from the local clock.
pub fn get_adjusted_today_string(daily_reset_hour: u32) -> (r: String)
    ensures
        exists|c: LocalClock| #[trigger] today_text(c, daily_reset_hour, r@),
{
    let clock = local_clock_now();
    let r = study_day_text(clock, daily_reset_hour);
    assert(today_text(clock, daily_reset_hour, r@));
    r
}

/// Whether a card in status `status`, due on day `due_day`, belongs in the
/// review queue on study day `today`: it is past the new stage and due on or
/// before today.
pub fn due_for_review(status: CardStatus, due_day: Option<i32>, today: i32) -> (r: bool)
    ensures
        r == (status != CardStatus::New && due_day is Some && due_day->0 <= today),
{
    match status {
        CardStatus::New => false,
        _ => match due_day {
            Some(d) => d <= today,
            None => false,
        },
    }
}

} // verus!
