//! Trusted boundary to the timezone database: converting a UTC civil
//! time into a named zone's local time.  The zone table is the
//! outside crate's; nothing is promised of the returned fields beyond
//! the zone name, and callers validate them with `datetime_wf_check`.

use vstd::prelude::*;
use chrono::{Datelike, Offset, TimeZone, Timelike};
use crate::value::{Date, DateTime, Time, datetime_dv, wf_date, wf_datetime, wf_time};

verus! {

/// Relies on chrono-tz's zone table and chrono's calendar: the local
/// civil time of the given UTC instant in the named zone.  `None`
/// when the zone name is unknown or the instant is not representable;
/// of a `Some` result only the echoed zone name is promised.
#[verifier::external_body]
pub fn utc_to_zone(tz_name: &str, y: u16, mo: u8, d: u8, h: u8, mi: u8, sec: u8) -> (r: Option<
    DateTime,
>)
    ensures
        r matches Some(dt) ==> dt.tz@ == tz_name@,
{
    let tz: chrono_tz::Tz = tz_name.parse().ok()?;
    let l = chrono::Utc.with_ymd_and_hms(
        y as i32, mo as u32, d as u32, h as u32, mi as u32, sec as u32,
    ).single()?.with_timezone(&tz);
    Some(DateTime {
        date: Date { year: l.year() as u16, month: l.month() as u8, day: l.day() as u8 },
        time: Time { hour: l.hour() as u8, minute: l.minute() as u8, second: l.second() as u8, millis: 0 },
        offset_min: l.offset().fix().local_minus_utc() / 60,
        tz: tz_name.to_owned(),
    })
}

/// Decide well-formedness of a timestamp's fields.
pub fn datetime_wf_check(dt: &DateTime) -> (r: bool)
    ensures
        r == wf_datetime(datetime_dv(*dt)),
{
    let d = dt.date;
    let t = dt.time;
    let date_ok = 1 <= d.year && d.year <= 9999 && 1 <= d.month && d.month <= 12 && 1 <= d.day
        && d.day as u32 <= crate::codec::e_days_in_month(d.year, d.month);
    let time_ok = t.hour < 24 && t.minute < 60 && t.second < 60 && t.millis < 1000;
    let off_ok = -18 * 60 <= dt.offset_min && dt.offset_min <= 18 * 60;
    let tz_ok = dt.tz.as_str().unicode_len() > 0;
    date_ok && time_ok && off_ok && tz_ok
}

} // verus!
