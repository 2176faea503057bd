//! The network and disk record: packet, byte and operation rates, each in
//! thousandths of a unit per second.

use vstd::prelude::*;
use crate::grammar::{find_shape, first_match, RateLine, Shape};
use crate::number::{or_zero, read_scaled, scaled_decimal, to_or_zero};
use crate::text::chars_of;

verus! {

/// Rates in thousandths of a unit per second.
#[derive(Clone, Copy, PartialEq, Eq, Structural)]
pub struct NetDiskMetrics {
    pub out_packets_per_sec: u64,
    pub out_bytes_per_sec: u64,
    pub in_packets_per_sec: u64,
    pub in_bytes_per_sec: u64,
    pub read_ops_per_sec: u64,
    pub write_ops_per_sec: u64,
    pub read_kbytes_per_sec: u64,
    pub write_kbytes_per_sec: u64,
}

/// The two figures of the first `r` line in `s`, each in thousandths; a
/// figure that is no decimal numeral reads as 0.
pub open spec fn rate_pair(s: Seq<char>, r: RateLine) -> Option<(u64, u64)> {
    match first_match(s, Shape::Rate(r)) {
        Some(((a, b), (c, d))) => Some(
            (or_zero(read_scaled(s.subrange(a, b), 3)), or_zero(read_scaled(s.subrange(c, d), 3))),
        ),
        None => None,
    }
}

/// The record after reading the line `s`.
pub open spec fn netdisk_after_line(m: NetDiskMetrics, s: Seq<char>) -> NetDiskMetrics {
    let m1 = match rate_pair(s, RateLine::Out) {
        Some((p, b)) => NetDiskMetrics { out_packets_per_sec: p, out_bytes_per_sec: b, ..m },
        None => m,
    };
    let m2 = match rate_pair(s, RateLine::In) {
        Some((p, b)) => NetDiskMetrics { in_packets_per_sec: p, in_bytes_per_sec: b, ..m1 },
        None => m1,
    };
    let m3 = match rate_pair(s, RateLine::Read) {
        Some((o, k)) => NetDiskMetrics { read_ops_per_sec: o, read_kbytes_per_sec: k, ..m2 },
        None => m2,
    };
    match rate_pair(s, RateLine::Write) {
        Some((o, k)) => NetDiskMetrics { write_ops_per_sec: o, write_kbytes_per_sec: k, ..m3 },
        None => m3,
    }
}

fn read_rate_pair(s: &Vec<char>, r: RateLine) -> (res: Option<(u64, u64)>)
    ensures
        res == rate_pair(s@, r),
{
    match find_shape(s, Shape::Rate(r)) {
        Some(((a, b), (c, d))) => Some(
            (to_or_zero(scaled_decimal(s, a, b, 3)), to_or_zero(scaled_decimal(s, c, d, 3))),
        ),
        None => None,
    }
}

/// Reads one sampler line into the record; fields that the line does not
/// report keep their values.
pub fn parse_netdisk_metrics(line: &str, m: &mut NetDiskMetrics)
    ensures
        *final(m) == netdisk_after_line(*old(m), line@),
{
    let s = chars_of(line);
    if let Some((p, b)) = read_rate_pair(&s, RateLine::Out) {
        m.out_packets_per_sec = p;
        m.out_bytes_per_sec = b;
    }
    if let Some((p, b)) = read_rate_pair(&s, RateLine::In) {
        m.in_packets_per_sec = p;
        m.in_bytes_per_sec = b;
    }
    if let Some((o, k)) = read_rate_pair(&s, RateLine::Read) {
        m.read_ops_per_sec = o;
        m.read_kbytes_per_sec = k;
    }
    if let Some((o, k)) = read_rate_pair(&s, RateLine::Write) {
        m.write_ops_per_sec = o;
        m.write_kbytes_per_sec = k;
    }
}

impl NetDiskMetrics {
    /// The record with every rate at 0.
    pub open spec fn zero() -> NetDiskMetrics {
        NetDiskMetrics {
            out_packets_per_sec: 0,
            out_bytes_per_sec: 0,
            in_packets_per_sec: 0,
            in_bytes_per_sec: 0,
            read_ops_per_sec: 0,
            write_ops_per_sec: 0,
            read_kbytes_per_sec: 0,
            write_kbytes_per_sec: 0,
        }
    }

    pub fn new() -> (r: NetDiskMetrics)
        ensures
            r == NetDiskMetrics::zero(),
    {
        NetDiskMetrics {
            out_packets_per_sec: 0,
            out_bytes_per_sec: 0,
            in_packets_per_sec: 0,
            in_bytes_per_sec: 0,
            read_ops_per_sec: 0,
            write_ops_per_sec: 0,
            read_kbytes_per_sec: 0,
            write_kbytes_per_sec: 0,
        }
    }
}

} // verus!
