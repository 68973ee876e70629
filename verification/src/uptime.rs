//! The uptime line: seconds since boot, split into calendar-like units.

use vstd::prelude::*;
use vstd::string::StringExecFns;
use crate::text::{decimal, push_decimal};

verus! {

/// Seconds in a century of 365-day years.
pub const CENTURY: u64 = 3_153_600_000;

/// Seconds in a decade of 365-day years.
pub const DECADE: u64 = 315_360_000;

/// Seconds that count as one year.
pub const YEAR: u64 = 31_563_000;

/// Seconds in a day.
pub const DAY: u64 = 86_400;

/// Seconds in an hour.
pub const HOUR: u64 = 3_600;

/// Seconds in a minute.
pub const MINUTE: u64 = 60;

/// An uptime split into units, each counted within the next larger one.
#[derive(Clone, Copy, Debug, PartialEq, Eq, Structural)]
pub struct Uptime {
    pub centuries: u64,
    pub decades: u64,
    pub years: u64,
    pub days: u64,
    pub hours: u64,
    pub minutes: u64,
}

/// The split of `seconds`: each unit takes what the larger units left over.
pub open spec fn uptime_of(seconds: nat) -> Uptime {
    let in_century = seconds % (CENTURY as nat);
    let in_decade = in_century % (DECADE as nat);
    let in_year = in_decade % (YEAR as nat);
    let in_day = in_year % (DAY as nat);
    let in_hour = in_day % (HOUR as nat);
    Uptime {
        centuries: (seconds / (CENTURY as nat)) as u64,
        decades: (in_century / (DECADE as nat)) as u64,
        years: (in_decade / (YEAR as nat)) as u64,
        days: (in_year / (DAY as nat)) as u64,
        hours: (in_day / (HOUR as nat)) as u64,
        minutes: (in_hour / (MINUTE as nat)) as u64,
    }
}

/// `line` with one more unit: nothing for a count of zero, else the count and
/// the unit's sign, set off from what is there by one space.
pub open spec fn with_unit(line: Seq<char>, count: nat, sign: Seq<char>) -> Seq<char> {
    if count == 0 {
        line
    } else if line.len() == 0 {
        decimal(count) + sign
    } else {
        line + seq![' '] + decimal(count) + sign
    }
}

/// The uptime line: the units that are not zero, largest first, as in
/// `2D. 1y 12d 3h 5m`. An uptime below a minute gives the empty line.
pub open spec fn uptime_line(u: Uptime) -> Seq<char> {
    let line = with_unit(Seq::empty(), u.centuries as nat, "C."@);
    let line = with_unit(line, u.decades as nat, "D."@);
    let line = with_unit(line, u.years as nat, "y"@);
    let line = with_unit(line, u.days as nat, "d"@);
    let line = with_unit(line, u.hours as nat, "h"@);
    with_unit(line, u.minutes as nat, "m"@)
}

/// The units of a split add up to the uptime, less the seconds beyond the
/// last whole minute, and each stays below the unit above it.
pub proof fn lemma_uptime_adds_up(seconds: nat)
    requires
        seconds <= u64::MAX,
    ensures
        ({
            let u = uptime_of(seconds);
            let counted = u.centuries * CENTURY + u.decades * DECADE + u.years * YEAR + u.days
                * DAY + u.hours * HOUR + u.minutes * MINUTE;
            &&& counted <= seconds < counted + MINUTE
            &&& u.decades < 10
            &&& u.years < 10
            &&& u.days <= 365
            &&& u.hours < 24
            &&& u.minutes < 60
        }),
{
}

/// Splits an uptime in seconds into units.
pub fn split_uptime(seconds: u64) -> (u: Uptime)
    ensures
        u == uptime_of(seconds as nat),
{
    let centuries = seconds / CENTURY;
    let rest = seconds % CENTURY;
    let decades = rest / DECADE;
    let rest = rest % DECADE;
    let years = rest / YEAR;
    let rest = rest % YEAR;
    let days = rest / DAY;
    let rest = rest % DAY;
    let hours = rest / HOUR;
    let rest = rest % HOUR;
    let minutes = rest / MINUTE;
    Uptime { centuries, decades, years, days, hours, minutes }
}

/// Appends one unit to the line that is being built.
fn push_unit(line: &mut String, count: u64, sign: &str)
    ensures
        final(line)@ == with_unit(old(line)@, count as nat, sign@),
{
    if count > 0 {
        if !line.as_str().is_empty() {
            proof {
                reveal_strlit(" ");
            }
            line.append(" ");
            assert(line@ =~= old(line)@ + seq![' ']);
        }
        push_decimal(line, count);
        line.append(sign);
    }
}

/// The uptime line for an uptime in seconds.
pub fn get_uptime(uptime: u64) -> (line: String)
    ensures
        line@ == uptime_line(uptime_of(uptime as nat)),
{
    let u = split_uptime(uptime);
    let mut line = String::new();
    push_unit(&mut line, u.centuries, "C.");
    push_unit(&mut line, u.decades, "D.");
    push_unit(&mut line, u.years, "y");
    push_unit(&mut line, u.days, "d");
    push_unit(&mut line, u.hours, "h");
    push_unit(&mut line, u.minutes, "m");
    line
}

} // verus!
