//! Memory figures: what the OS queries report, turned into used and total
//! bytes with swap, the used percentage, and its window.

use vstd::prelude::*;
use crate::series::{windowed, TimeSeries};

verus! {

/// Page counts from the virtual-memory statistics.
#[derive(Clone, Copy, PartialEq, Eq, Structural)]
pub struct VmPageCounts {
    pub active: u32,
    pub wired: u32,
    pub compressed: u32,
}

/// What the OS queries returned; `None` where a query failed.
#[derive(Clone, Copy)]
pub struct MemoryReading {
    pub vm: Option<VmPageCounts>,
    pub page_size: u64,
    /// Physical memory, in bytes.
    pub total: Option<u64>,
    /// Swap total and swap used, in bytes.
    pub swap: Option<(u64, u64)>,
}

pub struct MemoryMetrics {
    /// Physical memory and swap together, in bytes, held to `u64::MAX`.
    pub total: u64,
    /// Memory in use (active, wired and compressed pages) and swap in use
    /// together, in bytes, held to `u64::MAX`.
    pub used: u64,
    pub swap_total: u64,
    pub swap_used: u64,
    /// Used share of memory and swap together, in hundredths of a percent.
    pub used_percent: u64,
    /// Used share, in hundredths of a percent.
    pub used_percent_history: TimeSeries,
}

/// `(used + swap_used) / (total + swap_total) * 100`, in hundredths of a
/// percent, rounded down and held to `u64::MAX`; 0 when the denominator is 0.
pub open spec fn used_percent_of(used: u64, swap_used: u64, total: u64, swap_total: u64) -> u64 {
    let den = total + swap_total;
    let q = (used + swap_used) * 10000 / den;
    if den == 0 {
        0
    } else if q > u64::MAX {
        u64::MAX
    } else {
        q as u64
    }
}

/// Bytes in use: the active, wired and compressed pages, held to `u64::MAX`.
pub open spec fn used_bytes(vm: VmPageCounts, page_size: u64) -> u64 {
    let b = (vm.active + vm.wired + vm.compressed) * page_size;
    if b > u64::MAX {
        u64::MAX
    } else {
        b as u64
    }
}

/// `a + b`, held to `u64::MAX`.
pub open spec fn sum_capped(a: u64, b: u64) -> u64 {
    if a + b > u64::MAX {
        u64::MAX
    } else {
        (a + b) as u64
    }
}

/// What the record holds for a reading: memory and swap together in
/// `total` and `used`, the swap figures alone, and the used share.
pub open spec fn holds_reading(m: MemoryMetrics, r: MemoryReading) -> bool {
    let (total, used, st, su) = metrics_of(r);
    &&& m.total == sum_capped(total, st)
    &&& m.used == sum_capped(used, su)
    &&& m.swap_total == st
    &&& m.swap_used == su
    &&& m.used_percent == used_percent_of(used, su, total, st)
}

/// The physical and swap figures of a reading: all zero when the page statistics or
/// the physical size could not be had; swap counts as zero when it could
/// not be had.
pub open spec fn metrics_of(r: MemoryReading) -> (u64, u64, u64, u64) {
    match (r.vm, r.total) {
        (Some(vm), Some(total)) => {
            let used = used_bytes(vm, r.page_size);
            let (st, su) = match r.swap {
                Some(sw) => sw,
                None => (0u64, 0u64),
            };
            (total, used, st, su)
        },
        _ => (0, 0, 0, 0),
    }
}

/// The used share of memory and swap together (see `used_percent_of`).
pub fn used_percent(used: u64, swap_used: u64, total: u64, swap_total: u64) -> (r: u64)
    ensures
        r == used_percent_of(used, swap_used, total, swap_total),
        total as int + swap_total as int == 0 ==> r == 0,
{
    let den: u128 = total as u128 + swap_total as u128;
    if den == 0 {
        return 0;
    }
    let num: u128 = used as u128 + swap_used as u128;
    assert(num * 10000 <= 0x2_0000_0000_0000_0000 * 10000) by (nonlinear_arith)
        requires
            num <= 0x2_0000_0000_0000_0000,
    ;
    let q = num * 10000 / den;
    if q > u64::MAX as u128 {
        u64::MAX
    } else {
        q as u64
    }
}

fn used_bytes_of(vm: VmPageCounts, page_size: u64) -> (r: u64)
    ensures
        r == used_bytes(vm, page_size),
{
    let pages: u128 = vm.active as u128 + vm.wired as u128 + vm.compressed as u128;
    assert(pages * page_size <= 0x3_0000_0000 * 0x1_0000_0000_0000_0000) by (nonlinear_arith)
        requires
            pages <= 0x3_0000_0000,
            page_size <= 0xffff_ffff_ffff_ffff,
    ;
    let b = pages * page_size as u128;
    if b > u64::MAX as u128 {
        u64::MAX
    } else {
        b as u64
    }
}

/// The memory figures of a reading, with an empty window. A failed page or
/// physical-size query gives all zeros; a failed swap query counts as no
/// swap.
pub fn get_memory_metrics(r: &MemoryReading) -> (m: MemoryMetrics)
    ensures
        holds_reading(m, *r),
        m.used_percent_history@.len() == 0,
{
    let (total, used, swap_total, swap_used) = match (r.vm, r.total) {
        (Some(vm), Some(total)) => {
            let used = used_bytes_of(vm, r.page_size);
            let (st, su) = match r.swap {
                Some(sw) => sw,
                None => (0u64, 0u64),
            };
            (total, used, st, su)
        },
        _ => (0, 0, 0, 0),
    };
    MemoryMetrics {
        total: total.saturating_add(swap_total),
        used: used.saturating_add(swap_used),
        swap_total,
        swap_used,
        used_percent: used_percent(used, swap_used, total, swap_total),
        used_percent_history: TimeSeries::new(),
    }
}

impl MemoryMetrics {
    /// The figures of `reading`, with the window of `previous` (or a new
    /// one) carried over and the used share appended to it at `now`.
    pub fn new(previous: Option<MemoryMetrics>, reading: &MemoryReading, now: u64) -> (m:
        MemoryMetrics)
        ensures
            holds_reading(m, *reading),
            m.used_percent_history@ == windowed(
                match previous {
                    Some(p) => p.used_percent_history@,
                    None => Seq::empty(),
                },
                now,
                m.used_percent,
            ),
    {
        let mut m = get_memory_metrics(reading);
        match previous {
            Some(p) => m.used_percent_history = p.used_percent_history,
            None => {},
        }
        let v = m.used_percent;
        m.used_percent_history.append(now, v);
        m
    }

    /// The mean of the window, in hundredths of a percent.
    pub fn average_used_percent(&self) -> (r: u64)
        ensures
            r == crate::series::mean(self.used_percent_history@),
    {
        self.used_percent_history.average()
    }
}

} // verus!
