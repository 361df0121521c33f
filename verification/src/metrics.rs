//! Figures derived from the readings of one tick: the energy of the
//! battery, the hours that it lasts at the present power, and the share of
//! memory that is free.

use vstd::prelude::*;

verus! {

/// The nominal voltage of the battery pack, in tenths of a volt.
pub const NOMINAL_DECIVOLTS: u64 = 114;

/// The design capacity that is taken where none can be read, in
/// milliampere-hours.
pub const DEFAULT_CAPACITY_MAH: u32 = 4500;

/// The power, in milliwatts, up to which no runtime is estimated.
pub const IDLE_POWER_MW: i64 = 100;

/// The runtime that is reported where none is estimated, in thousandths of
/// an hour.
pub const UNBOUNDED_RUNTIME: u64 = 99_000;

/// The size of one page of memory, in bytes.
pub const PAGE_BYTES: u64 = 16_384;

/// The size of memory that the free share is taken of, in bytes.
pub const ASSUMED_MEMORY_BYTES: u64 = 0x4_0000_0000;

/// The energy of a battery of this capacity at the nominal voltage, in
/// milliwatt-hours, rounded down.
pub open spec fn energy_mwh(capacity_mah: int) -> int {
    capacity_mah * 114 / 10
}

/// The hours, in thousandths and rounded down, that `energy_mwh` lasts at
/// `power_mw`; the unbounded runtime where the power is at most the idle
/// power.
pub open spec fn runtime_milli_hours(energy_mwh: int, power_mw: int) -> int {
    if power_mw > 100 {
        energy_mwh * 1000 / power_mw
    } else {
        99_000
    }
}

/// The share of the assumed memory, in percent and rounded down, that
/// this many free pages make.
pub open spec fn free_percent(pages: int) -> int {
    pages * 16_384 * 100 / 0x4_0000_0000
}

/// The energy of a battery of this capacity at the nominal voltage, in
/// milliwatt-hours, rounded down.
pub fn battery_energy_mwh(capacity_mah: u32) -> (energy: u64)
    ensures
        energy == energy_mwh(capacity_mah as int),
{
    capacity_mah as u64 * NOMINAL_DECIVOLTS / 10
}

/// The hours, in thousandths and rounded down, that a battery of
/// `energy_mwh` lasts at `power_mw`. At a power of at most a tenth of a
/// watt the unbounded runtime is reported.
pub fn runtime_estimate(energy_mwh: u64, power_mw: i64) -> (hours: u128)
    ensures
        hours == runtime_milli_hours(energy_mwh as int, power_mw as int),
{
    if power_mw > IDLE_POWER_MW {
        energy_mwh as u128 * 1000 / (power_mw as u128)
    } else {
        UNBOUNDED_RUNTIME as u128
    }
}

/// The share of the assumed memory that is free, in percent and rounded
/// down: the free, inactive and speculative pages together, each of the
/// page size. A share that an `i32` cannot hold is reported as the largest
/// `i32`.
pub fn free_memory_percent(free_pages: u64, inactive_pages: u64, speculative_pages: u64) -> (pct:
    i32)
    ensures
        free_percent(free_pages + inactive_pages + speculative_pages) <= i32::MAX ==> pct
            == free_percent(free_pages + inactive_pages + speculative_pages),
        free_percent(free_pages + inactive_pages + speculative_pages) > i32::MAX ==> pct
            == i32::MAX,
{
    let pages: u128 = free_pages as u128 + inactive_pages as u128 + speculative_pages as u128;
    assert(pages * PAGE_BYTES == pages * 16_384) by (nonlinear_arith)
        requires
            PAGE_BYTES == 16_384,
    ;
    let free_bytes: u128 = pages * (PAGE_BYTES as u128);
    let share: u128 = free_bytes * 100 / (ASSUMED_MEMORY_BYTES as u128);
    if share > i32::MAX as u128 {
        i32::MAX
    } else {
        share as i32
    }
}

/// The battery is charging: the power report says so in so many words,
/// or it names the mains as the source and does not speak of discharging.
pub fn is_charging(marked_charging: bool, on_mains: bool, marked_discharging: bool) -> (charging:
    bool)
    ensures
        charging == (marked_charging || (on_mains && !marked_discharging)),
{
    marked_charging || (on_mains && !marked_discharging)
}

} // verus!
