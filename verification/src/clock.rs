//! The time of day that lines are stamped with.
use vstd::prelude::*;
use chrono::{DateTime, Local};
use crate::text::{digit_value, is_digit};

verus! {

/// Whether a text is a time of day: two digits of hours, a colon, two digits of
/// minutes.
pub open spec fn is_clock(s: Seq<char>) -> bool {
    &&& s.len() == 5
    &&& is_digit(s[0]) && is_digit(s[1]) && is_digit(s[3]) && is_digit(s[4])
    &&& s[2] == ':'
    &&& 10 * digit_value(s[0]) + digit_value(s[1]) < 24
    &&& 10 * digit_value(s[3]) + digit_value(s[4]) < 60
}

/// `chrono::Local::now`, formatted by `DateTime::format` as hours and minutes.
/// Which time it is depends on the machine's clock and time zone; that it is
/// some time of day is all that is claimed.
#[verifier::external_body]
pub(crate) fn now() -> (ts: String)
    ensures
        is_clock(ts@),
{
    Local::now().format("%H:%M").to_string()
}

/// Whether `ts` is what a clock shows at the moment `date`, in one time zone or
/// another.
pub uninterp spec fn shown_at(date: i32, ts: Seq<char>) -> bool;

/// `chrono::DateTime::with_timezone` to the local time zone of a moment given in
/// seconds since the epoch (`DateTime::from_timestamp`, which accepts every such
/// number), formatted by `DateTime::format` as hours and minutes. Which time it
/// is depends on the machine's time zone; that it is some time of day, and one
/// that a clock somewhere shows at that moment, is all that is claimed.
#[verifier::external_body]
pub(crate) fn local_time(date: i32) -> (ts: String)
    ensures
        is_clock(ts@),
        shown_at(date, ts@),
{
    let utc = DateTime::from_timestamp(date as i64, 0).unwrap();
    utc.with_timezone(&Local).format("%H:%M").to_string()
}

} // verus!
