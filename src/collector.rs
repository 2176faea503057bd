//! The producer: the long-lived records that sampler lines are read into,
//! and what it does with each line it is handed.

use vstd::prelude::*;
use crate::cpu::{
    ane_util, ane_utilization, cpu_after_line, parse_cpu_metrics, percent_value, CPUMetrics,
};
use crate::gpu::{gpu_after_line, parse_gpu_metrics, GPUMetrics};
use crate::netdisk::{netdisk_after_line, parse_netdisk_metrics, NetDiskMetrics};
use crate::series::{within_window, windowed};

verus! {

/// What the producer does after being handed a line.
#[derive(Clone, Copy, PartialEq, Eq, Structural)]
pub enum Step {
    /// The line could not be read: it is skipped and the stream goes on.
    Skip,
    /// Collection was cancelled: the sampler is to be terminated.
    Stop,
    /// The line was read into the records: snapshots are to be published.
    Publish,
}

/// The producer's records.
pub struct Collector {
    pub cpu: CPUMetrics,
    pub gpu: GPUMetrics,
    pub netdisk: NetDiskMetrics,
}

/// `new` is `old` after reading the line `s` at `now`: each record as the
/// line leaves it, and each utilization window with the record's current
/// figure appended at `now` and pruned, so that it is in time order and
/// holds no entry older than the window.
pub open spec fn sampled(old: Collector, new: Collector, s: Seq<char>, now: u64) -> bool {
    let cpu = cpu_after_line(old.cpu, s);
    let gpu = gpu_after_line(old.gpu, s);
    &&& new.cpu == (CPUMetrics {
        e_cluster_active_history: new.cpu.e_cluster_active_history,
        p_cluster_active_history: new.cpu.p_cluster_active_history,
        ane_util_history: new.cpu.ane_util_history,
        ..cpu
    })
    &&& new.cpu.e_cluster_active_history@ == windowed(
        old.cpu.e_cluster_active_history@,
        now,
        percent_value(cpu.e_cluster_active),
    )
    &&& new.cpu.p_cluster_active_history@ == windowed(
        old.cpu.p_cluster_active_history@,
        now,
        percent_value(cpu.p_cluster_active),
    )
    &&& new.cpu.ane_util_history@ == windowed(old.cpu.ane_util_history@, now, ane_util(cpu.ane_uw))
    &&& new.gpu.freq_mhz == gpu.freq_mhz
    &&& new.gpu.active == gpu.active
    &&& new.gpu.active_history@ == windowed(old.gpu.active_history@, now, gpu.active)
    &&& new.netdisk == netdisk_after_line(old.netdisk, s)
    &&& within_window(new.cpu.e_cluster_active_history@, now)
    &&& within_window(new.cpu.p_cluster_active_history@, now)
    &&& within_window(new.cpu.ane_util_history@, now)
    &&& within_window(new.gpu.active_history@, now)
}

impl Collector {
    pub fn new() -> (r: Collector)
        ensures
            r.cpu.e_cluster_active == 0 && r.cpu.p_cluster_active == 0,
            r.cpu.e_cluster_freq_mhz == 0 && r.cpu.p_cluster_freq_mhz == 0,
            r.cpu.ane_uw == 0 && r.cpu.cpu_uw == 0 && r.cpu.gpu_uw == 0 && r.cpu.package_uw == 0,
            r.cpu.e_cluster_active_history@.len() == 0,
            r.cpu.p_cluster_active_history@.len() == 0,
            r.cpu.ane_util_history@.len() == 0,
            r.gpu.freq_mhz == 0 && r.gpu.active == 0 && r.gpu.active_history@.len() == 0,
            r.netdisk == NetDiskMetrics::zero(),
    {
        Collector { cpu: CPUMetrics::new(), gpu: GPUMetrics::new(), netdisk: NetDiskMetrics::new() }
    }

    /// Reads the line into every record, then appends each utilization
    /// figure to its window at `now`.
    pub fn process_line(&mut self, line: &str, now: u64)
        ensures
            sampled(*old(self), *final(self), line@, now),
    {
        parse_cpu_metrics(line, &mut self.cpu);
        parse_gpu_metrics(line, &mut self.gpu);
        parse_netdisk_metrics(line, &mut self.netdisk);
        let e = self.cpu.e_cluster_active;
        self.cpu.append_e_cluster_active(now, e);
        let p = self.cpu.p_cluster_active;
        self.cpu.append_p_cluster_active(now, p);
        let ane = ane_utilization(self.cpu.ane_uw);
        self.cpu.append_ane_util(now, ane);
        let g = self.gpu.active;
        self.gpu.append_active(now, g);
    }

    /// Handles one read from the sampler at `now`. A failed read (`None`) is
    /// skipped; otherwise, once `running` is false, collection stops;
    /// otherwise the line is read into the records and published.
    pub fn step(&mut self, running: bool, line: Option<&str>, now: u64) -> (r: Step)
        ensures
            line is None ==> r == Step::Skip && *final(self) == *old(self),
            line is Some && !running ==> r == Step::Stop && *final(self) == *old(self),
            running ==> (line matches Some(l) ==> r == Step::Publish && sampled(
                *old(self),
                *final(self),
                l@,
                now,
            )),
    {
        match line {
            None => Step::Skip,
            Some(l) => {
                if !running {
                    Step::Stop
                } else {
                    self.process_line(l, now);
                    Step::Publish
                }
            },
        }
    }
}

} // verus!
