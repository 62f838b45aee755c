//! The panel clock's arithmetic: wall-clock fields from an epoch-seconds
//! reading, the 12-hour conversion, and the decision of what to redraw when
//! a new minute reading arrives.  Rendering the digits is the caller's
//! business; the functions hand out plain numbers.

use vstd::prelude::*;

verus! {

/// The hour (0..24) and minute (0..60) of an epoch-seconds reading.
pub fn clockfields(epoch: u64) -> (r: (u8, u8))
    ensures
        r.0 == (epoch as int / 3600) % 24,
        r.1 == (epoch as int / 60) % 60,
        r.0 < 24,
        r.1 < 60,
{
    let hour = ((epoch / 3600) % 24) as u8;
    let minute = ((epoch / 60) % 60) as u8;
    (hour, minute)
}

/// The 12-hour display form of a 24-hour reading: hour 0 shows as 12, hours
/// above 12 lose 12, and the second component tells whether it is PM.
pub fn twelvehour(hour24: u8) -> (r: (u8, bool))
    requires
        hour24 < 24,
    ensures
        r.0 == (if hour24 == 0 {
            12int
        } else if hour24 > 12 {
            hour24 - 12
        } else {
            hour24 as int
        }),
        1 <= r.0 <= 12,
        r.1 == (hour24 >= 12),
{
    let display = if hour24 == 0 {
        12
    } else if hour24 > 12 {
        hour24 - 12
    } else {
        hour24
    };
    (display, hour24 >= 12)
}

/// The tens and units digits of a minute value, for the zero-padded
/// two-digit display.
pub fn minutedigits(minute: u8) -> (r: (u8, u8))
    requires
        minute < 60,
    ensures
        r.0 == minute / 10,
        r.1 == minute % 10,
        r.0 <= 5,
        r.1 <= 9,
{
    (minute / 10, minute % 10)
}

/// What one clock tick does: given the displayed hour, the displayed minute
/// and a fresh minute reading, decide whether the clock needs redrawing (the
/// minute changed) and advance the displayed hour when the minute rolled
/// over to zero, wrapping past 24 back to 0.
pub fn updateclock(phour: u8, pminute: u8, cminute: u8) -> (r: (u8, u8, bool))
    requires
        phour < 25,
    ensures
        r.2 == (cminute != pminute),
        r.1 == cminute,
        r.0 == (if cminute != pminute && cminute == 0 {
            if phour + 1 > 24 {
                0int
            } else {
                phour + 1
            }
        } else {
            phour as int
        }),
{
    if cminute != pminute {
        if cminute == 0 {
            let nh = if phour + 1 > 24 {
                0
            } else {
                phour + 1
            };
            (nh, cminute, true)
        } else {
            (phour, cminute, true)
        }
    } else {
        (phour, cminute, false)
    }
}

} // verus!
