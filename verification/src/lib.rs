pub mod bytes;
pub mod cmdline;
pub mod cpu;
pub mod disks;
pub mod procargs;
pub mod process;
pub mod refresh;
pub mod system;

use vstd::prelude::*;

verus! {

/// Seconds elapsed since boot: the difference between the boot instant and
/// the current instant, both in seconds since the epoch. A clock that has
/// gone backwards yields zero rather than wrapping.
pub fn uptime_seconds(boot_time: u64, now: u64) -> (r: u64)
    ensures
        r == (if now >= boot_time { now - boot_time } else { 0int }),
{
    if now >= boot_time {
        now - boot_time
    } else {
        0
    }
}

} // verus!

