//! Local time as plain values, and the clock texts shown and written.

use chrono::{Local, Offset};
use vstd::prelude::*;
use crate::text::{push_char, DECIMAL_DIGITS};

verus! {

/// A local point in time: seconds since the Unix epoch, the nanoseconds
/// within the second (a leap second reads 1_000_000_000 and more), and the
/// offset of the local zone from UTC in seconds.
#[derive(Clone, Copy)]
pub struct LocalTime {
    pub unix_secs: i64,
    pub subsec_nanos: u32,
    pub utc_offset_secs: i32,
}

impl LocalTime {
    /// The bounds that `chrono` keeps: an offset within a day and at most
    /// one leap second.
    pub open spec fn well_formed(self) -> bool {
        -86_400 < self.utc_offset_secs < 86_400 && self.subsec_nanos < 2_000_000_000
    }

    /// Seconds since local midnight.
    pub open spec fn second_of_day(self) -> int {
        (self.unix_secs + self.utc_offset_secs) % 86_400
    }

    /// The hour shown on a clock.
    pub open spec fn hour(self) -> int {
        self.second_of_day() / 3600
    }

    /// The minute shown on a clock.
    pub open spec fn minute(self) -> int {
        self.second_of_day() % 3600 / 60
    }

    /// The second shown on a clock (60 during a leap second).
    pub open spec fn second(self) -> int {
        self.second_of_day() % 60 + if self.subsec_nanos >= 1_000_000_000 {
            1int
        } else {
            0int
        }
    }
}

/// `Local::now`, read into plain values (`timestamp`,
/// `timestamp_subsec_nanos` and the offset's `local_minus_utc`). Which
/// time comes back depends on the clock; stated is only what `chrono`
/// keeps of every time: the offset lies strictly within a day and the
/// nanoseconds below two seconds.
#[verifier::external_body]
pub(crate) fn local_now() -> (t: LocalTime)
    ensures
        t.well_formed(),
{
    let now = Local::now();
    LocalTime {
        unix_secs: now.timestamp(),
        subsec_nanos: now.timestamp_subsec_nanos(),
        utc_offset_secs: now.offset().fix().local_minus_utc(),
    }
}

/// Two decimal digits for `n < 100`.
pub open spec fn two_digits(n: int) -> Seq<char> {
    seq![DECIMAL_DIGITS@[n / 10], DECIMAL_DIGITS@[n % 10]]
}

/// The clock text `HH{sep}MM{sep}SS` of `t`, as `chrono` formats
/// `%H{sep}%M{sep}%S`; `sep` may be empty.
pub open spec fn clock_text(t: LocalTime, sep: Seq<char>) -> Seq<char> {
    two_digits(t.hour()) + sep + two_digits(t.minute()) + sep + two_digits(t.second())
}

/// Appends the two digits of `n < 100`.
fn push_two_digits(s: &mut String, n: u32)
    requires
        n < 100,
    ensures
        final(s)@ == old(s)@ + two_digits(n as int),
{
    push_char(s, DECIMAL_DIGITS[(n / 10) as usize]);
    push_char(s, DECIMAL_DIGITS[(n % 10) as usize]);
    assert(final(s)@ =~= old(s)@ + two_digits(n as int));
}

/// Seconds since local midnight, computed without signed remainders.
fn second_of_day(t: LocalTime) -> (r: u32)
    ensures
        r as int == t.second_of_day(),
        r < 86_400,
{
    let shift: i128 = 86_400 * 1_000_000_000_000_000;
    let x: i128 = t.unix_secs as i128 + t.utc_offset_secs as i128;
    let y: u128 = (x + shift) as u128;
    let r = (y % 86_400) as u32;
    proof {
        vstd::arithmetic::div_mod::lemma_mod_multiples_vanish(
            1_000_000_000_000_000,
            x as int,
            86_400,
        );
        assert(86_400 * 1_000_000_000_000_000 + x == x + shift);
    }
    r
}

/// The clock text of `t` with `sep` between hours, minutes and seconds:
/// `HHMMSS` for an empty `sep`, `HH:MM:SS` for `":"`.
pub fn clock_string(t: LocalTime, sep: &str) -> (r: String)
    requires
        t.well_formed(),
    ensures
        r@ == clock_text(t, sep@),
{
    let sod = second_of_day(t);
    let h = sod / 3600;
    let m = sod % 3600 / 60;
    let leap: u32 = if t.subsec_nanos >= 1_000_000_000 {
        1
    } else {
        0
    };
    let s = sod % 60 + leap;
    let mut out = String::new();
    push_two_digits(&mut out, h);
    out.append(sep);
    push_two_digits(&mut out, m);
    out.append(sep);
    push_two_digits(&mut out, s);
    out
}

} // verus!
