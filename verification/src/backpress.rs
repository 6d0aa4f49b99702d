use vstd::prelude::*;

use std::sync::atomic::{AtomicU64, Ordering};

verus! {

/// Counters of the hand-over of packets from the receivers to the main loop,
/// shared between threads.
pub struct BackpressStats {
    pub sent_success: AtomicU64,
    pub sent_fail_full: AtomicU64,
    pub sent_disconnected: AtomicU64,
    pub try_send_success_time_ns: AtomicU64,
    pub try_send_success_count: AtomicU64,
}

/// How handing a packet to the main loop ended.
#[derive(Debug, Clone, Copy, PartialEq, Eq, Structural)]
pub enum SendOutcome {
    /// The packet was queued, after `elapsed_ns` nanoseconds.
    Sent { elapsed_ns: u64 },
    /// The queue was full and the packet was dropped.
    Full,
    /// The main loop is gone.
    Disconnected,
}

impl BackpressStats {
    /// Counters, all created at zero.
    pub fn new() -> Self {
        Self {
            sent_success: AtomicU64::new(0),
            sent_fail_full: AtomicU64::new(0),
            sent_disconnected: AtomicU64::new(0),
            try_send_success_time_ns: AtomicU64::new(0),
            try_send_success_count: AtomicU64::new(0),
        }
    }

    /// Takes each counter and resets it to zero. Returns `(success, full,
    /// disconnected, sum_ns, count)`. Other threads update the counters at any
    /// time, so nothing is stated of the values read.
    pub fn snapshot_and_reset(&self) -> (u64, u64, u64, u64, u64) {
        let s = self.sent_success.swap(0, Ordering::Relaxed);
        let f = self.sent_fail_full.swap(0, Ordering::Relaxed);
        let d = self.sent_disconnected.swap(0, Ordering::Relaxed);
        let sum_ns = self.try_send_success_time_ns.swap(0, Ordering::Relaxed);
        let cnt = self.try_send_success_count.swap(0, Ordering::Relaxed);
        (s, f, d, sum_ns, cnt)
    }
}

/// How one hand-over changes the counters `(success, full, disconnected,
/// sum_ns, count)`: a queued packet adds one success, its send time and one
/// timed send; a dropped one adds one to the full-queue count; one for a
/// closed queue adds one to the disconnected count.
pub open spec fn increments(outcome: SendOutcome) -> (u64, u64, u64, u64, u64) {
    match outcome {
        SendOutcome::Sent { elapsed_ns } => (1, 0, 0, elapsed_ns, 1),
        SendOutcome::Full => (0, 1, 0, 0, 0),
        SendOutcome::Disconnected => (0, 0, 1, 0, 0),
    }
}

/// Every hand-over is counted exactly once, as a success, a full queue or a
/// closed queue, each by its own counter; only a success is timed, with its
/// own send time, so the number of timed sends equals the number of successes.
pub proof fn lemma_each_send_counted_once(outcome: SendOutcome)
    ensures
        increments(outcome).0 + increments(outcome).1 + increments(outcome).2 == 1,
        increments(outcome).4 == increments(outcome).0,
        (outcome is Sent) <==> increments(outcome).0 == 1,
        (outcome is Full) <==> increments(outcome).1 == 1,
        (outcome is Disconnected) <==> increments(outcome).2 == 1,
        outcome matches SendOutcome::Sent { elapsed_ns } ==> increments(outcome).3 == elapsed_ns,
        !(outcome is Sent) ==> increments(outcome).3 == 0,
{
}

/// The amounts by which one hand-over raises each counter.
pub fn send_increments(outcome: SendOutcome) -> (d: (u64, u64, u64, u64, u64))
    ensures
        d == increments(outcome),
{
    match outcome {
        SendOutcome::Sent { elapsed_ns } => (1, 0, 0, elapsed_ns, 1),
        SendOutcome::Full => (0, 1, 0, 0, 0),
        SendOutcome::Disconnected => (0, 0, 1, 0, 0),
    }
}

impl BackpressStats {
    /// Counts the outcome of one hand-over: each counter is raised by its
    /// amount from `send_increments`. The counters are shared between threads,
    /// so nothing is stated of their values.
    pub fn record_send(&self, outcome: SendOutcome) {
        let (sent, full, disconnected, time_ns, count) = send_increments(outcome);
        if time_ns > 0 {
            self.try_send_success_time_ns.fetch_add(time_ns, Ordering::Relaxed);
        }
        if count > 0 {
            self.try_send_success_count.fetch_add(count, Ordering::Relaxed);
        }
        if sent > 0 {
            self.sent_success.fetch_add(sent, Ordering::Relaxed);
        }
        if full > 0 {
            self.sent_fail_full.fetch_add(full, Ordering::Relaxed);
        }
        if disconnected > 0 {
            self.sent_disconnected.fetch_add(disconnected, Ordering::Relaxed);
        }
    }
}

impl Default for BackpressStats {
    fn default() -> Self {
        Self::new()
    }
}

} // verus!
