//! The GPU record: active residency and frequency, and the window of GPU
//! utilization.

use vstd::prelude::*;
use crate::grammar::{find_shape, first_match, Figure, Shape};
use crate::number::{or_zero, read_scaled, scaled_decimal, to_or_zero, to_whole_mhz, whole_mhz};
use crate::series::{within_window, cutoff, mean, pruned, stamp_for, TimeSeries};
use crate::text::chars_of;

verus! {

#[derive(Clone)]
pub struct GPUMetrics {
    pub freq_mhz: i32,
    /// Active residency, in hundredths of a percent.
    pub active: u64,
    /// Active residency, in hundredths of a percent.
    pub active_history: TimeSeries,
}

/// The record after reading the line `s`.
pub open spec fn gpu_after_line(m: GPUMetrics, s: Seq<char>) -> GPUMetrics {
    let m1 = match first_match(s, Shape::Gpu(Figure::Residency)) {
        Some((_, (d, g))) => GPUMetrics { active: or_zero(read_scaled(s.subrange(d, g), 2)), ..m },
        None => m,
    };
    match first_match(s, Shape::Gpu(Figure::Frequency)) {
        Some((_, (d, g))) => GPUMetrics {
            freq_mhz: whole_mhz(read_scaled(s.subrange(d, g), 0)),
            ..m1
        },
        None => m1,
    }
}

/// Reads one sampler line into the record; fields that the line does not
/// report keep their values.
pub fn parse_gpu_metrics(line: &str, m: &mut GPUMetrics)
    ensures
        *final(m) == gpu_after_line(*old(m), line@),
{
    let s = chars_of(line);
    if let Some((_, (d, g))) = find_shape(&s, Shape::Gpu(Figure::Residency)) {
        m.active = to_or_zero(scaled_decimal(&s, d, g, 2));
    }
    if let Some((_, (d, g))) = find_shape(&s, Shape::Gpu(Figure::Frequency)) {
        m.freq_mhz = to_whole_mhz(scaled_decimal(&s, d, g, 0));
    }
}

impl GPUMetrics {
    pub fn new() -> (r: GPUMetrics)
        ensures
            r.freq_mhz == 0,
            r.active == 0,
            r.active_history@.len() == 0,
    {
        GPUMetrics { freq_mhz: 0, active: 0, active_history: TimeSeries::new() }
    }

    /// Appends a utilization in hundredths of a percent to the window.
    pub fn append_active(&mut self, now: u64, value: u64)
        ensures
            within_window(final(self).active_history@, now),
            final(self).active_history@ == pruned(
                old(self).active_history@.push((stamp_for(old(self).active_history@, now), value)),
                cutoff(now),
            ),
            final(self).freq_mhz == old(self).freq_mhz,
            final(self).active == old(self).active,
    {
        self.active_history.append(now, value);
    }

    /// The mean of the window, in hundredths of a percent.
    pub fn average_active(&self) -> (r: u64)
        ensures
            r == mean(self.active_history@),
    {
        self.active_history.average()
    }
}

} // verus!
