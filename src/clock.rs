//! Time bookkeeping shared by the tasks: the GPS keep-alive deadline and the
//! wall-clock estimate carried across gaps in GPS time.
use vstd::prelude::*;
use crate::timezone::{date_time_to_unix_timestamp, unix_seconds, valid_date_time};

verus! {

/// The keep-alive deadline in monotonic milliseconds, if one is set.
pub struct KeepAlive {
    pub deadline: Option<u64>,
}

impl KeepAlive {
    pub fn new() -> (r: Self)
        ensures
            r.deadline is None,
    {
        KeepAlive { deadline: None }
    }

    /// Keeps the receiver searching or tracking for `minutes` from `now_ms`;
    /// 0 cancels. Returns whether a wake-up is due (a non-zero duration).
    pub fn set_gps_keep_alive(&mut self, minutes: u16, now_ms: u64) -> (r: bool)
        ensures
            r == (minutes > 0),
            minutes == 0 ==> final(self).deadline is None,
            minutes > 0 ==> final(self).deadline == Some(
                (if now_ms + minutes * 60_000 > u64::MAX {
                    u64::MAX as int
                } else {
                    now_ms + minutes * 60_000
                }) as u64,
            ),
    {
        if minutes == 0 {
            self.deadline = None;
            false
        } else {
            self.deadline = Some(now_ms.saturating_add((minutes as u64) * 60_000));
            true
        }
    }

    /// Whole seconds left, on 16 bits (the status record's width).
    pub fn get_keep_alive_remaining_s(&self, now_ms: u64) -> (r: u16)
        ensures
            r == (match self.deadline {
                Some(d) => if now_ms >= d {
                    0
                } else {
                    ((d - now_ms) / 1000) % 65536
                },
                None => 0,
            }),
    {
        match self.deadline {
            Some(d) => {
                if now_ms >= d {
                    0
                } else {
                    (((d - now_ms) / 1000) % 65536) as u16
                }
            },
            None => 0,
        }
    }

    /// Whether the keep-alive still holds at `now_ms`; an expired one is cleared.
    pub fn is_keep_alive_active(&mut self, now_ms: u64) -> (r: bool)
        ensures
            r == (old(self).deadline matches Some(d) && now_ms < d),
            final(self).deadline == (if r {
                old(self).deadline
            } else {
                None
            }),
    {
        match self.deadline {
            Some(d) => {
                if now_ms >= d {
                    self.deadline = None;
                    false
                } else {
                    true
                }
            },
            None => false,
        }
    }
}

/// The last GPS time seen and the monotonic time it was seen at.
#[derive(Clone, Copy, Debug)]
pub struct TimeAnchor {
    pub unix_ts: u64,
    pub monotonic_ms: u64,
}

/// The current Unix time: GPS time when there is one (which becomes the new
/// anchor), else the anchor advanced by the whole seconds elapsed since it;
/// `None` before the first GPS time.
pub fn unix_ts_with_fallback(anchor: &mut Option<TimeAnchor>, gps_ts: Option<u64>, now_ms: u64) -> (r:
    Option<u64>)
    ensures
        gps_ts matches Some(t) ==> r == Some(t) && *final(anchor) == Some(
            TimeAnchor { unix_ts: t, monotonic_ms: now_ms },
        ),
        gps_ts is None ==> *final(anchor) == *old(anchor) && match *old(anchor) {
            None => r is None,
            Some(a) => r == Some(
                (if a.unix_ts + (if now_ms >= a.monotonic_ms {
                    (now_ms - a.monotonic_ms) / 1000
                } else {
                    0
                }) > u64::MAX {
                    u64::MAX as int
                } else {
                    a.unix_ts + (if now_ms >= a.monotonic_ms {
                        (now_ms - a.monotonic_ms) / 1000
                    } else {
                        0
                    })
                }) as u64,
            ),
        },
{
    if let Some(t) = gps_ts {
        *anchor = Some(TimeAnchor { unix_ts: t, monotonic_ms: now_ms });
        return Some(t);
    }
    match *anchor {
        None => None,
        Some(base) => {
            let elapsed = now_ms.saturating_sub(base.monotonic_ms) / 1000;
            Some(base.unix_ts.saturating_add(elapsed))
        },
    }
}

/// Unix seconds of the GPS date and time when the receiver reports them valid
/// and they name a second of 1970 to 2100.
pub fn gps_unix_ts(
    date_time_valid: bool,
    year: u16,
    month: u8,
    day: u8,
    hour: u8,
    minute: u8,
    second: u8,
) -> (r: Option<u64>)
    ensures
        r is Some <==> date_time_valid && valid_date_time(year, month, day, hour, minute, second),
        r matches Some(t) ==> t == unix_seconds(year, month, day, hour, minute, second),
{
    if !date_time_valid {
        return None;
    }
    match date_time_to_unix_timestamp(year, month, day, hour, minute, second) {
        Some(t) => Some(t as u64),
        None => None,
    }
}

} // verus!
