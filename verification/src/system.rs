//! System-wide RAM statistics via the `sysinfo` crate.

use vstd::prelude::*;

use sysinfo::System;

verus! {

/// General system memory statistics (all values in bytes).
#[derive(Debug, Clone, Copy, PartialEq, Eq, Structural)]
pub struct RamStats {
    pub total: u64,
    pub used: u64,
    pub available: u64,
}

/// `System::refresh_memory`: reloads the RAM and swap figures from the machine.
pub assume_specification[ System::refresh_memory ](sys: &mut System);

/// `System::total_memory`: the RAM size in bytes, as last refreshed.
pub assume_specification[ System::total_memory ](sys: &System) -> u64;

/// `System::available_memory`: the RAM available for (re)use in bytes, as last refreshed.
pub assume_specification[ System::available_memory ](sys: &System) -> u64;

/// Used RAM: what is not available, and none when the figures say more is
/// available than there is in total.
pub open spec fn used_of(total: u64, available: u64) -> u64 {
    if total >= available { (total - available) as u64 } else { 0 }
}

/// A RAM snapshot from the total and available figures, with the used RAM
/// as their difference.
pub fn ram_stats(total: u64, available: u64) -> (s: RamStats)
    ensures
        s.total == total,
        s.available == available,
        s.used == used_of(total, available),
{
    let used = if total >= available { total - available } else { 0 };
    RamStats { total, used, available }
}

/// Refreshes system info and returns a RAM snapshot: the total and available
/// figures that `sysinfo` reports after the refresh, and the used RAM as
/// their difference. (`System::used_memory` computes that difference on Linux
/// without a check, and panics where available exceeds total; here it is
/// zero then.)
pub fn read_stats(sys: &mut System) -> (stats: RamStats)
    ensures
        stats.used == used_of(stats.total, stats.available),
{
    sys.refresh_memory();
    let total = sys.total_memory();
    let available = sys.available_memory();
    ram_stats(total, available)
}

} // verus!
