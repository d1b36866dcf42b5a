//! The time of day, as text.
//!
//! Times are kept as seconds since the epoch. How such a time reads in
//! the time zone of the machine is for the operating system to say.

use vstd::prelude::*;

verus! {

/// `Local::now` reads the clock and the time zone of the machine, and
/// `format` writes the time as `YYYY-MM-DD HH:MM:SS`. Nothing is said of
/// the text: it depends on the moment and on the machine.
#[verifier::external_body]
pub(crate) fn local_now_text() -> (r: String) {
    chrono::Local::now().format("%Y-%m-%d %H:%M:%S").to_string()
}

/// The first second that falls on a calendar day: midnight of the first
/// of January of the year -262143, in universal time.
pub const FIRST_SECOND: i64 = -8_334_601_228_800;

/// The last second that falls on a calendar day: the end of the last of
/// December of the year 262142, in universal time.
pub const LAST_SECOND: i64 = 8_210_266_876_799;

/// Whether the time `epoch` seconds after the epoch falls on a day of the
/// calendar, which runs from the year -262143 to the year 262142.
pub open spec fn on_calendar(epoch: i64) -> bool {
    FIRST_SECOND <= epoch <= LAST_SECOND
}

/// The patterns in which a time is written: the day alone, or the day
/// with hour and minute.
pub open spec fn time_pattern(day_only: bool) -> Seq<char> {
    if day_only {
        "%Y-%m-%d"@
    } else {
        "%Y-%m-%d %H:%M"@
    }
}

/// `TimeZone::timestamp_opt` of `Local` makes the time that is `epoch`
/// seconds after the epoch, in the time zone of the machine, or none for
/// a number of seconds that is out of range; `format` writes it in the
/// pattern given, which is one of the two of `time_pattern`.
/// A number of seconds is in range where its day in universal time, the
/// floor of `epoch / 86400` counted from the first of January 1970, lies
/// in a year from -262143 to 262142: the contract states that range in
/// seconds. Nothing is said of the text: it depends on the machine.
#[verifier::external_body]
pub(crate) fn local_time_text(epoch: i64, pattern: &str) -> (r: Option<String>)
    requires
        pattern@ == time_pattern(true) || pattern@ == time_pattern(false),
    ensures
        r.is_some() <==> on_calendar(epoch),
{
    chrono::TimeZone::timestamp_opt(&chrono::Local, epoch, 0).single().map(
        |t| t.format(pattern).to_string(),
    )
}

/// The time `epoch` as text: there is one exactly where a time is given
/// and falls on a day of the calendar. It is written as `YYYY-MM-DD`
/// where only the day is wanted, as `YYYY-MM-DD HH:MM` else.
pub fn time_text(epoch: Option<i64>, day_only: bool) -> (r: Option<String>)
    ensures
        r.is_some() <==> (epoch matches Some(t) && on_calendar(t)),
{
    let pattern = if day_only {
        "%Y-%m-%d"
    } else {
        "%Y-%m-%d %H:%M"
    };
    match epoch {
        Some(t) => local_time_text(t, pattern),
        None => None,
    }
}

} // verus!
