//! The tick planner: one timer loop drives probing every tick and, at
//! harmonic sub-cadences derived from the configured interval, the site
//! sweep, the identity check (phase-offset from the sweep) and
//! persistence. A suspended scheduler starts no work at all.
use vstd::prelude::*;

verus! {

/// Bounds and default of the probe interval, in seconds.
pub const MIN_INTERVAL_SECS: u32 = 5;

pub const MAX_INTERVAL_SECS: u32 = 120;

pub const DEFAULT_INTERVAL_SECS: u32 = 10;

/// The site sweep and the identity check aim at roughly one run a minute.
pub const SITE_CADENCE_TARGET_SECS: u32 = 60;

/// Persistence aims at roughly one flush every five minutes.
pub const PERSIST_CADENCE_TARGET_SECS: u32 = 300;

/// How long a suspended scheduler sleeps before re-checking the signal.
pub const SUSPEND_POLL_MS: u64 = 1000;

/// Whether `secs` is a ping interval the engine accepts.
pub open spec fn spec_interval_valid(secs: u32) -> bool {
    MIN_INTERVAL_SECS <= secs <= MAX_INTERVAL_SECS
}

pub fn interval_valid(secs: u32) -> (r: bool)
    ensures
        r == spec_interval_valid(secs),
{
    MIN_INTERVAL_SECS <= secs && secs <= MAX_INTERVAL_SECS
}

/// Every how many ticks a task aiming at `target_secs` runs, for a tick
/// interval of `interval_secs`: the rounded ratio, at least 1.
pub open spec fn spec_cadence_ticks(target_secs: u32, interval_secs: u32) -> int {
    let rounded = (target_secs + interval_secs / 2) as int / interval_secs as int;
    if rounded < 1 {
        1
    } else {
        rounded
    }
}

pub fn cadence_ticks(target_secs: u32, interval_secs: u32) -> (r: u64)
    requires
        interval_secs >= 1,
        target_secs <= 0xffff_0000,
    ensures
        r == spec_cadence_ticks(target_secs, interval_secs),
        r >= 1,
{
    let rounded = ((target_secs as u64) + (interval_secs as u64) / 2) / (interval_secs as u64);
    if rounded < 1 {
        1
    } else {
        rounded
    }
}

/// The tick (within the site cadence) on which the identity check runs:
/// half a cadence after the site sweep, so the two never share a tick
/// when the cadence allows it.
pub open spec fn spec_identity_offset(k_site: int) -> int {
    if k_site >= 2 {
        k_site / 2
    } else {
        0
    }
}

/// What one tick of the running scheduler must do. Probing happens every
/// tick; the sub-cadenced tasks only on their phase.
#[derive(Debug, Clone, Copy, PartialEq, Eq, Structural)]
pub struct TickPlan {
    pub probe: bool,
    pub site_sweep: bool,
    pub identity_check: bool,
    pub persist: bool,
}

/// The plan for tick number `tick` at the configured interval.
pub open spec fn spec_plan_tick(tick: u64, interval_secs: u32) -> TickPlan {
    let k_site = spec_cadence_ticks(SITE_CADENCE_TARGET_SECS, interval_secs);
    let k_persist = spec_cadence_ticks(PERSIST_CADENCE_TARGET_SECS, interval_secs);
    TickPlan {
        probe: true,
        site_sweep: tick as int % k_site == 0,
        identity_check: tick as int % k_site == spec_identity_offset(k_site),
        persist: tick as int % k_persist == 0,
    }
}

/// Plans one tick. When the site cadence spans at least two ticks, the
/// identity check never lands on the same tick as the site sweep.
pub fn plan_tick(tick: u64, interval_secs: u32) -> (r: TickPlan)
    requires
        interval_secs >= 1,
    ensures
        r == spec_plan_tick(tick, interval_secs),
        r.probe,
        spec_cadence_ticks(SITE_CADENCE_TARGET_SECS, interval_secs) >= 2 ==> !(r.site_sweep
            && r.identity_check),
{
    let k_site = cadence_ticks(SITE_CADENCE_TARGET_SECS, interval_secs);
    let k_persist = cadence_ticks(PERSIST_CADENCE_TARGET_SECS, interval_secs);
    let offset: u64 = if k_site >= 2 {
        k_site / 2
    } else {
        0
    };
    TickPlan {
        probe: true,
        site_sweep: tick % k_site == 0,
        identity_check: tick % k_site == offset,
        persist: tick % k_persist == 0,
    }
}

/// What the scheduler loop does next: run a full tick, or sleep briefly
/// and re-check the suspend signal without starting any work.
#[derive(Debug, Clone, Copy, PartialEq, Eq, Structural)]
pub enum SchedulerAction {
    RunTick,
    SleepShort,
}

/// The suspend signal gates starting new work: while suspended the loop
/// only sleeps and polls, accumulating no missed ticks.
pub fn next_action(suspended: bool) -> (r: SchedulerAction)
    ensures
        r == if suspended {
            SchedulerAction::SleepShort
        } else {
            SchedulerAction::RunTick
        },
{
    if suspended {
        SchedulerAction::SleepShort
    } else {
        SchedulerAction::RunTick
    }
}

} // verus!
