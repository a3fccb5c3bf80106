//! Daily time-of-day limits for scheduled drawing.
//!
//! A window is a closed interval `[start_time, end_time]` over times of day
//! at minute granularity. When `start_time > end_time` the window wraps past
//! midnight. Limiting the time only applies to scheduled tasks.

use vstd::prelude::*;

verus! {

/// A wall-clock time of day at minute granularity.
#[derive(Clone, Copy, PartialEq, Eq, Structural, Debug)]
pub struct TimeOfDay {
    pub hour: u8,
    pub minute: u8,
}

impl TimeOfDay {
    /// A valid time of day: hours below 24, minutes below 60.
    pub open spec fn wf(self) -> bool {
        self.hour < 24 && self.minute < 60
    }

    /// Minutes since midnight; the canonical order on times of day.
    pub open spec fn spec_minutes(self) -> int {
        self.hour * 60 + self.minute
    }

    /// Construct a time of day, rejecting out-of-range components.
    pub fn new(hour: u8, minute: u8) -> (r: Option<TimeOfDay>)
        ensures
            r is Some <==> (hour < 24 && minute < 60),
            r is Some ==> r == Some(TimeOfDay { hour, minute }),
    {
        if hour < 24 && minute < 60 {
            Some(TimeOfDay { hour, minute })
        } else {
            None
        }
    }

    /// Minutes since midnight, as a machine integer.
    pub fn minutes(&self) -> (r: u16)
        requires
            self.wf(),
        ensures
            r == self.spec_minutes(),
    {
        self.hour as u16 * 60 + self.minute as u16
    }
}

/// Used for limiting the running time of scheduled tasks.
#[derive(Clone, Copy, PartialEq, Eq, Structural, Debug)]
pub struct TimeLimits {
    pub start_time: TimeOfDay,
    pub end_time: TimeOfDay,
}

impl TimeLimits {
    pub open spec fn wf(self) -> bool {
        self.start_time.wf() && self.end_time.wf()
    }

    /// Whether `t` falls inside the closed window. When the window does not
    /// wrap (`start_time <= end_time`), inside means `start <= t <= end`;
    /// when it wraps past midnight, inside means `t >= start || t <= end`.
    /// Both boundaries are inclusive.
    pub open spec fn spec_within(self, t: TimeOfDay) -> bool {
        let s = self.start_time.spec_minutes();
        let e = self.end_time.spec_minutes();
        let n = t.spec_minutes();
        if s <= e {
            s <= n && n <= e
        } else {
            n >= s || n <= e
        }
    }

    /// Decide whether `time` is inside the configured window.
    pub fn is_within_limits(&self, time: &TimeOfDay) -> (r: bool)
        requires
            self.wf(),
            time.wf(),
        ensures
            r == self.spec_within(*time),
    {
        let s = self.start_time.minutes();
        let e = self.end_time.minutes();
        let n = time.minutes();
        if s <= e {
            s <= n && n <= e
        } else {
            n >= s || n <= e
        }
    }

    /// The exact rendering of a window: both times zero-padded on a 24-hour
    /// clock, separated by an en dash (U+2013, three bytes in UTF-8).
    pub open spec fn spec_describe(self) -> Seq<u8> {
        seq![
            (48 + self.start_time.hour / 10) as u8,
            (48 + self.start_time.hour % 10) as u8,
            58u8,
            (48 + self.start_time.minute / 10) as u8,
            (48 + self.start_time.minute % 10) as u8,
            226u8,
            128u8,
            147u8,
            (48 + self.end_time.hour / 10) as u8,
            (48 + self.end_time.hour % 10) as u8,
            58u8,
            (48 + self.end_time.minute / 10) as u8,
            (48 + self.end_time.minute % 10) as u8,
        ]
    }

    /// The window rendered as `HH:MM` en dash `HH:MM`, in UTF-8 bytes.
    pub fn describe(&self) -> (r: Vec<u8>)
        requires
            self.wf(),
        ensures
            r@ == self.spec_describe(),
    {
        let mut out: Vec<u8> = Vec::new();
        push_two_digits(&mut out, self.start_time.hour);
        out.push(58u8);
        push_two_digits(&mut out, self.start_time.minute);
        out.push(226u8);
        out.push(128u8);
        out.push(147u8);
        push_two_digits(&mut out, self.end_time.hour);
        out.push(58u8);
        push_two_digits(&mut out, self.end_time.minute);
        proof {
            assert(out@ =~= self.spec_describe());
        }
        out
    }
}

/// Append the two decimal digits of `v` (which is below 100) as ASCII.
fn push_two_digits(out: &mut Vec<u8>, v: u8)
    requires
        v < 100,
    ensures
        final(out)@.len() == old(out)@.len() + 2,
        final(out)@ == old(out)@ + seq![(48 + v / 10) as u8, (48 + v % 10) as u8],
{
    out.push(48 + v / 10);
    out.push(48 + v % 10);
}

/// A decimal digit character.
pub open spec fn spec_is_digit(c: char) -> bool {
    '0' <= c && c <= '9'
}

/// The value of a decimal digit character.
pub open spec fn spec_digit(c: char) -> int {
    c as int - '0' as int
}

/// The five-character shape `HH:MM` with a valid time of day in it.
pub open spec fn spec_is_hhmm(s: Seq<char>) -> bool {
    &&& s.len() == 5
    &&& spec_is_digit(s[0]) && spec_is_digit(s[1]) && s[2] == ':' && spec_is_digit(s[3])
        && spec_is_digit(s[4])
    &&& spec_digit(s[0]) * 10 + spec_digit(s[1]) < 24
    &&& spec_digit(s[3]) * 10 + spec_digit(s[4]) < 60
}

/// Parse a `HH:MM` time of day (zero-padded, 24-hour clock). Returns a time
/// exactly for the well-shaped strings that name a valid time.
pub fn parse_hhmm(s: &str) -> (r: Option<TimeOfDay>)
    ensures
        r is Some <==> spec_is_hhmm(s@),
        r matches Some(t) ==> {
            &&& t.wf()
            &&& t.hour == spec_digit(s@[0]) * 10 + spec_digit(s@[1])
            &&& t.minute == spec_digit(s@[3]) * 10 + spec_digit(s@[4])
        },
{
    if s.unicode_len() != 5 {
        return None;
    }
    let c0 = s.get_char(0);
    let c1 = s.get_char(1);
    let c2 = s.get_char(2);
    let c3 = s.get_char(3);
    let c4 = s.get_char(4);
    if c2 != ':' {
        return None;
    }
    if !(c0 >= '0' && c0 <= '9' && c1 >= '0' && c1 <= '9' && c3 >= '0' && c3 <= '9' && c4 >= '0'
        && c4 <= '9') {
        return None;
    }
    let hour = (c0 as u8 - 48) * 10 + (c1 as u8 - 48);
    let minute = (c3 as u8 - 48) * 10 + (c4 as u8 - 48);
    if hour < 24 && minute < 60 {
        Some(TimeOfDay { hour, minute })
    } else {
        None
    }
}

} // verus!
