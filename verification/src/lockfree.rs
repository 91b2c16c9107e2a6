//! Traffic counters that several threads update without a lock.

use vstd::prelude::*;
use core::sync::atomic::AtomicU64;

verus! {

/// Submessage counters updated with atomic operations.
#[derive(Debug)]
pub struct LockFreeStatistics {
    pub packet_count: AtomicU64,
    pub data_submsg_count: AtomicU64,
    pub datafrag_submsg_count: AtomicU64,
    pub heartbeat_submsg_count: AtomicU64,
    pub acknack_submsg_count: AtomicU64,
    pub ackfrag_submsg_count: AtomicU64,
    pub heartbeat_frag_submsg_count: AtomicU64,
    pub gap_submsg_count: AtomicU64,
}

/// The counters read at one time.
#[derive(Debug, Clone, Copy)]
pub struct StatisticsSnapshot {
    pub packet_count: u64,
    pub data_submsg_count: u64,
    pub datafrag_submsg_count: u64,
    pub heartbeat_submsg_count: u64,
    pub acknack_submsg_count: u64,
    pub ackfrag_submsg_count: u64,
    pub heartbeat_frag_submsg_count: u64,
    pub gap_submsg_count: u64,
}

impl LockFreeStatistics {
    /// Counters that all start at zero.
    pub fn new() -> (r: Self) {
        LockFreeStatistics {
            packet_count: AtomicU64::new(0),
            data_submsg_count: AtomicU64::new(0),
            datafrag_submsg_count: AtomicU64::new(0),
            heartbeat_submsg_count: AtomicU64::new(0),
            acknack_submsg_count: AtomicU64::new(0),
            ackfrag_submsg_count: AtomicU64::new(0),
            heartbeat_frag_submsg_count: AtomicU64::new(0),
            gap_submsg_count: AtomicU64::new(0),
        }
    }

    /// Reads every counter (each with relaxed ordering, so other threads
    /// may move them between the reads).
    pub fn snapshot(&self) -> (r: StatisticsSnapshot) {
        StatisticsSnapshot {
            packet_count: self.packet_count.load(core::sync::atomic::Ordering::Relaxed),
            data_submsg_count: self.data_submsg_count.load(core::sync::atomic::Ordering::Relaxed),
            datafrag_submsg_count: self.datafrag_submsg_count.load(core::sync::atomic::Ordering::Relaxed),
            heartbeat_submsg_count: self.heartbeat_submsg_count.load(core::sync::atomic::Ordering::Relaxed),
            acknack_submsg_count: self.acknack_submsg_count.load(core::sync::atomic::Ordering::Relaxed),
            ackfrag_submsg_count: self.ackfrag_submsg_count.load(core::sync::atomic::Ordering::Relaxed),
            heartbeat_frag_submsg_count: self.heartbeat_frag_submsg_count.load(core::sync::atomic::Ordering::Relaxed),
            gap_submsg_count: self.gap_submsg_count.load(core::sync::atomic::Ordering::Relaxed),
        }
    }
}

} // verus!
