//! Boundary to the machine's clock and time zone: reading the current UTC
//! time and moving stored UTC timestamps into the local zone for display.
//! Both depend on the machine, so their contracts promise only the
//! documented field ranges; everything downstream is verified for every
//! outcome.

use chrono::{Datelike, TimeZone, Timelike};
use vstd::prelude::*;

use crate::types::{
    local_stamp_valid, utc_stamp_valid, LocalEvent, LocalStamp, Log, UtcStamp,
};

verus! {

/// Relies on chrono's `Utc.with_ymd_and_hms`, `DateTime::with_timezone`
/// and the `Datelike`/`Timelike` accessors: converts a UTC timestamp to
/// the machine's local zone. The result depends on the machine's time-zone
/// setting, so only the documented field ranges are promised; `None` comes
/// when chrono rejects the UTC fields as no calendar date.
#[verifier::external_body]
pub(crate) fn to_local(u: &UtcStamp) -> (r: Option<LocalStamp>)
    ensures
        r is Some ==> local_stamp_valid(r->0),
{
    let (mo, d) = (u.month as u32, u.day as u32);
    let (h, mi, s) = (u.hour as u32, u.minute as u32, u.second as u32);
    let dt = chrono::Utc.with_ymd_and_hms(u.year, mo, d, h, mi, s).single()?;
    let l = dt.with_timezone(&chrono::Local);
    Some(LocalStamp {
        year: l.year(),
        month: l.month() as u8,
        day: l.day() as u8,
        hour: l.hour() as u8,
        minute: l.minute() as u8,
        second: l.second() as u8,
    })
}

/// Relies on chrono's `Utc::now` and the `Datelike`/`Timelike` accessors:
/// reads the clock. Only the documented field ranges are promised.
#[verifier::external_body]
pub(crate) fn now_utc() -> (r: UtcStamp)
    ensures
        utc_stamp_valid(r),
{
    let n = chrono::Utc::now();
    UtcStamp {
        year: n.year(),
        month: n.month() as u8,
        day: n.day() as u8,
        hour: n.hour() as u8,
        minute: n.minute() as u8,
        second: n.second() as u8,
    }
}

/// Move every log row's timestamp into the local zone, keeping subject and
/// direction untouched and preserving order. A row whose UTC fields the
/// zone conversion rejects keeps them unchanged as its local reading.
pub fn localize_events(rows: &Vec<Log>) -> (r: Vec<LocalEvent>)
    ensures
        r@.len() == rows@.len(),
        forall|j: int|
            0 <= j < rows@.len() ==> (#[trigger] r@[j]).subject_id == rows@[j].subject_id && r@[
                j
            ].presence == rows@[j].presence,
{
    let mut r: Vec<LocalEvent> = Vec::new();
    let mut i: usize = 0;
    while i < rows.len()
        invariant
            i <= rows@.len(),
            r@.len() == i,
            forall|j: int|
                0 <= j < i ==> (#[trigger] r@[j]).subject_id == rows@[j].subject_id && r@[
                    j
                ].presence == rows@[j].presence,
        decreases rows@.len() - i,
    {
        let row = rows[i];
        let stamp = match to_local(&row.time) {
            Some(ls) => ls,
            None => LocalStamp {
                year: row.time.year,
                month: row.time.month,
                day: row.time.day,
                hour: row.time.hour,
                minute: row.time.minute,
                second: row.time.second,
            },
        };
        r.push(LocalEvent { subject_id: row.subject_id, presence: row.presence, stamp });
        i = i + 1;
    }
    r
}

} // verus!
