//! The numbers of the memory report.
use vstd::prelude::*;

verus! {

/// The working set and the pagefile usage of a process, given in bytes, as
/// whole kilobytes (1024 bytes), rounded down.
pub fn memory_kb(working_set_bytes: u64, pagefile_bytes: u64) -> (kb: (u64, u64))
    ensures
        kb == (working_set_bytes / 1024, pagefile_bytes / 1024),
{
    (working_set_bytes / 1024, pagefile_bytes / 1024)
}

} // verus!
