//! Time: how long a number of ticks is, and threads that pause.
//!
//! The timer ticks 18.2 times a second: 91 times in five seconds.

use vstd::prelude::*;
use crate::scheduler;
use crate::scheduler::{Scheduler, Switch, Tasks};
use crate::task::TaskState;

verus! {

/// Ticks in five seconds.
pub const TICKS_IN_FIVE_SECONDS: u64 = 91;

/// The ticks that cover a number of milliseconds.
pub open spec fn ticks_of_ms(ms: u64) -> int {
    (ms * 91 + 4_999) / 5_000
}

/// The ticks that cover a number of steps of 100 nanoseconds.
pub open spec fn ticks_of_steps(steps: u64) -> int {
    (steps * 91 + 49_999_999) / 50_000_000
}

/// The ticks that cover a number of milliseconds.
pub fn ms_to_ticks(ms: u64) -> (r: u64)
    ensures
        r == ticks_of_ms(ms),
{
    ms / 5_000 * TICKS_IN_FIVE_SECONDS + (ms % 5_000 * TICKS_IN_FIVE_SECONDS + 4_999) / 5_000
}

/// The ticks that cover a number of steps of 100 nanoseconds.
pub fn steps_to_ticks(steps: u64) -> (r: u64)
    ensures
        r == ticks_of_steps(steps),
{
    steps / 50_000_000 * TICKS_IN_FIVE_SECONDS + (steps % 50_000_000 * TICKS_IN_FIVE_SECONDS
        + 49_999_999) / 50_000_000
}

/// What a pause of the current thread leaves behind, and the switch that it asks
/// for: the thread sleeps for a number of ticks, at most until the clock runs out.
/// With 0 it lets others run.
pub open spec fn paused(v: Tasks, ticks: u64) -> (Tasks, Option<Switch>) {
    if ticks == 0 {
        v.scheduled()
    } else if v.current < 0 {
        (v, None)
    } else {
        let until = if v.ticks + ticks <= u64::MAX {
            (v.ticks + ticks) as u64
        } else {
            u64::MAX
        };
        (Tasks { sleep_until: v.sleep_until.update(v.current as int, until), ..v }).gives_up(
            TaskState::Blocked,
        )
    }
}

/// Lets the current thread pause. See `paused`.
pub fn pause(s: &mut Scheduler, ticks: u64) -> (r: Option<Switch>)
    requires
        old(s).wf(),
    ensures
        final(s).wf(),
        (final(s)@, r) == paused(old(s)@, ticks),
{
    if ticks == 0 {
        return scheduler::schedule(s);
    }
    let left: u64 = u64::MAX - s.tick_count;
    let n: u64 = if ticks < left {
        ticks
    } else {
        left
    };
    scheduler::sleep_ticks(s, n)
}

/// A pause is never shorter than asked for, and by less than a tick longer.
pub proof fn law_pause_is_long_enough(ms: u64, steps: u64)
    ensures
        ticks_of_ms(ms) * 5_000 >= ms * 91,
        (ticks_of_ms(ms) - 1) * 5_000 < ms * 91,
        ticks_of_steps(steps) * 50_000_000 >= steps * 91,
        (ticks_of_steps(steps) - 1) * 50_000_000 < steps * 91,
{
}

} // verus!
