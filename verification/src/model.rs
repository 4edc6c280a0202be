use vstd::prelude::*;

verus! {

/// Coarse classification of memory pressure.
#[derive(Debug, Clone, Copy, PartialEq, Eq)]
pub enum PressureLevel {
    Normal,
    Elevated,
    Pressured,
    Critical,
}

/// Memory accounting read from `/proc/meminfo`, in KiB.
#[derive(Debug, Clone, Copy, PartialEq, Eq)]
pub struct MemorySnapshot {
    pub total_kib: u64,
    pub available_kib: u64,
    pub swap_total_kib: u64,
    pub swap_free_kib: u64,
}

/// Subtraction that stops at zero.
pub open spec fn saturating_diff(a: int, b: int) -> int {
    if a >= b { a - b } else { 0 }
}

impl MemorySnapshot {
    /// Swap in use: total swap minus free swap, never below zero.
    pub fn swap_used_kib(self) -> (used: u64)
        ensures
            used == saturating_diff(self.swap_total_kib as int, self.swap_free_kib as int),
    {
        self.swap_total_kib.saturating_sub(self.swap_free_kib)
    }
}

} // verus!
