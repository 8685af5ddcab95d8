//! Wall-clock time as the chat layer stamps its lines: hours and minutes
//! of the server's local time.
use vstd::prelude::*;
use chrono::Timelike;

use crate::text::{spec_two_digits, two_digits};
use vstd::string::StringExecFns;

verus! {

/// A wall-clock reading, to the minute.
#[derive(Clone, Copy, PartialEq, Eq, Structural, Debug)]
pub struct ClockTime {
    pub hour: u8,
    pub minute: u8,
}

impl ClockTime {
    pub open spec fn wf(self) -> bool {
        self.hour < 24 && self.minute < 60
    }

    pub fn new(hour: u8, minute: u8) -> (t: ClockTime)
        requires
            hour < 24,
            minute < 60,
        ensures
            t.wf(),
            t.hour == hour,
            t.minute == minute,
    {
        ClockTime { hour, minute }
    }

    /// Relies on chrono's `Local::now` to read the wall clock, and on the
    /// `Timelike` accessors `hour` (0 to 23) and `minute` (0 to 59).
    #[verifier::external_body]
    pub fn now() -> (t: ClockTime)
        ensures
            t.wf(),
    {
        let now = chrono::Local::now();
        ClockTime { hour: now.hour() as u8, minute: now.minute() as u8 }
    }
}

/// A clock reading in 24-hour form, `HH:MM`.
pub open spec fn spec_hh_mm(t: ClockTime) -> Seq<char> {
    spec_two_digits(t.hour as int) + ":"@ + spec_two_digits(t.minute as int)
}

pub fn format_hh_mm(t: ClockTime) -> (r: String)
    requires
        t.wf(),
    ensures
        r@ == spec_hh_mm(t),
{
    let mut s = two_digits(t.hour);
    s.append(":");
    let m = two_digits(t.minute);
    s.append(m.as_str());
    s
}

} // verus!
