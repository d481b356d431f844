//! Units of time that schedules are written in.

use vstd::prelude::*;

verus! {

pub const MINUTES_PER_HOUR: u32 = 60;

pub const HOURS_PER_DAY: u32 = 24;

pub const MINUTES_PER_DAY: u32 = MINUTES_PER_HOUR * HOURS_PER_DAY;

} // verus!
