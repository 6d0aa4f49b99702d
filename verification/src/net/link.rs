use vstd::prelude::*;

verus! {

/// Consecutive lost packets at which a tracker's own orientation estimate
/// replaces the host filter.
pub const LOSS_FALLBACK_CONSECUTIVE: u32 = 3;

/// Consecutive clean packets after which the host filter is used again.
pub const LOSS_RECOVER_CONSECUTIVE: u32 = 30;

/// Distance from the last sequence number to a new one: forward distance when
/// the new number is larger, the distance across the wrap when it is smaller by
/// more than half the range, and 1 (an in-order packet) otherwise.
pub open spec fn wrap_gap(last: u16, new: u16) -> int {
    if new > last {
        new - last
    } else if new < last && last - new > 32767 {
        65535 - last + new + 1
    } else {
        1
    }
}

/// Per-tracker link statistics and the choice between the host orientation
/// filter and the tracker's own estimate.
#[derive(Clone, Copy, Debug)]
pub struct LinkQuality {
    pub last_sequence: u16,
    pub received_packets: u64,
    pub lost_packets: u64,
    pub consec_lost: u32,
    pub consec_good: u32,
    pub use_device_quat: bool,
}

impl LinkQuality {
    /// Packets missed before a packet numbered `seq` (none for the first packet).
    pub open spec fn missed(self, seq: Option<u16>) -> u32 {
        match seq {
            Some(s) => if self.received_packets > 0 && wrap_gap(self.last_sequence, s) > 1 {
                (wrap_gap(self.last_sequence, s) - 1) as u32
            } else {
                0
            },
            None => 0,
        }
    }

    /// The counters do not overflow when a packet numbered `seq` is counted.
    pub open spec fn can_observe(self, seq: Option<u16>) -> bool {
        &&& self.received_packets < u64::MAX
        &&& self.lost_packets + self.missed(seq) <= u64::MAX
        &&& self.missed(seq) > 0 ==> self.consec_lost + self.missed(seq) <= u32::MAX
        &&& self.missed(seq) == 0 ==> self.consec_good < u32::MAX
    }

    /// The state after a packet numbered `seq` (or unnumbered) has arrived.
    pub open spec fn observed(self, seq: Option<u16>) -> LinkQuality {
        let m = self.missed(seq);
        let consec_lost: u32 = if m > 0 { (self.consec_lost + m) as u32 } else { 0 };
        let consec_good: u32 = if m > 0 { 0 } else { (self.consec_good + 1) as u32 };
        LinkQuality {
            last_sequence: match seq {
                Some(s) => s,
                None => self.last_sequence,
            },
            received_packets: (self.received_packets + 1) as u64,
            lost_packets: (self.lost_packets + m) as u64,
            consec_lost,
            consec_good,
            use_device_quat: if !self.use_device_quat && consec_lost >= LOSS_FALLBACK_CONSECUTIVE {
                true
            } else if self.use_device_quat && consec_good >= LOSS_RECOVER_CONSECUTIVE {
                false
            } else {
                self.use_device_quat
            },
        }
    }

    /// Statistics of a tracker whose first packet carried `first_sequence`.
    pub fn new(first_sequence: Option<u16>) -> (q: Self)
        ensures
            q.last_sequence == (match first_sequence {
                Some(s) => s,
                None => 0u16,
            }),
            q.received_packets == 0,
            q.lost_packets == 0,
            q.consec_lost == 0,
            q.consec_good == 0,
            !q.use_device_quat,
    {
        LinkQuality {
            last_sequence: match first_sequence {
                Some(s) => s,
                None => 0,
            },
            received_packets: 0,
            lost_packets: 0,
            consec_lost: 0,
            consec_good: 0,
            use_device_quat: false,
        }
    }

    /// Packets missed before a packet numbered `sequence`.
    pub fn missed_before(&self, sequence: Option<u16>) -> (m: u32)
        ensures
            m == self.missed(sequence),
    {
        match sequence {
            Some(s) => {
                if self.received_packets > 0 {
                    let last = self.last_sequence;
                    let diff: u16 = if s > last {
                        s - last
                    } else if s < last && (last - s) > (u16::MAX / 2) {
                        (u16::MAX - last) + s + 1
                    } else {
                        1
                    };
                    if diff > 1 {
                        (diff - 1) as u32
                    } else {
                        0
                    }
                } else {
                    0
                }
            },
            None => 0,
        }
    }

    /// Whether counting a packet numbered `sequence` keeps every counter in range.
    pub fn can_take(&self, sequence: Option<u16>) -> (r: bool)
        ensures
            r == self.can_observe(sequence),
    {
        let m = self.missed_before(sequence);
        let counted = self.received_packets < u64::MAX;
        let lost_fits = (m as u64) <= u64::MAX - self.lost_packets;
        let run_fits = if m > 0 {
            m <= u32::MAX - self.consec_lost
        } else {
            self.consec_good < u32::MAX
        };
        counted && lost_fits && run_fits
    }

    /// Counts a packet numbered `sequence`: adds the packets missed since the
    /// last one to the losses, updates the runs of lost and clean packets and
    /// switches between host filter and device estimate with hysteresis.
    /// Returns the number of packets missed.
    pub fn observe(&mut self, sequence: Option<u16>) -> (missed: u32)
        requires
            old(self).can_observe(sequence),
        ensures
            missed == old(self).missed(sequence),
            *final(self) == old(self).observed(sequence),
    {
        let mut missed: u32 = 0;
        if let Some(new_sequence) = sequence {
            if self.received_packets > 0 {
                let last = self.last_sequence;
                let diff: u16 = if new_sequence > last {
                    new_sequence - last
                } else if new_sequence < last && (last - new_sequence) > (u16::MAX / 2) {
                    (u16::MAX - last) + new_sequence + 1
                } else {
                    1
                };
                if diff > 1 {
                    missed = (diff - 1) as u32;
                    self.lost_packets = self.lost_packets + missed as u64;
                }
            }
            self.last_sequence = new_sequence;
        }
        if missed > 0 {
            self.consec_lost = self.consec_lost + missed;
            self.consec_good = 0;
        } else {
            self.consec_good = self.consec_good + 1;
            self.consec_lost = 0;
        }
        let cl = self.consec_lost;
        let cg = self.consec_good;
        if !self.use_device_quat && cl >= LOSS_FALLBACK_CONSECUTIVE {
            self.use_device_quat = true;
        } else if self.use_device_quat && cg >= LOSS_RECOVER_CONSECUTIVE {
            self.use_device_quat = false;
        }
        self.received_packets = self.received_packets + 1;
        missed
    }
}

/// The orientation shown and fed to the solver: the tracker's own estimate
/// while the link is unstable, else the host filter's, each falling back to the
/// other when missing.
pub fn select_orientation<T: Copy>(use_device_quat: bool, device: Option<T>, fused: Option<T>) -> (r: Option<T>)
    ensures
        r == (if use_device_quat {
            if device is Some { device } else { fused }
        } else {
            if fused is Some { fused } else { device }
        }),
{
    if use_device_quat {
        match device {
            Some(q) => Some(q),
            None => fused,
        }
    } else {
        match fused {
            Some(q) => Some(q),
            None => device,
        }
    }
}

/// A packet numbered right after its predecessor (also across the wrap from
/// 65535 to 0) misses nothing, and keeps a link that uses the host filter on it.
pub proof fn lemma_in_order_packet(q: LinkQuality)
    ensures
        q.missed(Some(q.last_sequence.wrapping_add(1))) == 0,
        !q.use_device_quat ==> !q.observed(Some(q.last_sequence.wrapping_add(1))).use_device_quat,
{
}

/// The filter choice only flips at the thresholds: to the device estimate after
/// at least `LOSS_FALLBACK_CONSECUTIVE` packets lost in a row, back to the host
/// filter after at least `LOSS_RECOVER_CONSECUTIVE` clean packets in a row.
pub proof fn lemma_hysteresis(q: LinkQuality, seq: Option<u16>)
    ensures
        !q.use_device_quat && q.observed(seq).use_device_quat ==> q.observed(seq).consec_lost
            >= LOSS_FALLBACK_CONSECUTIVE,
        q.use_device_quat && !q.observed(seq).use_device_quat ==> q.observed(seq).consec_good
            >= LOSS_RECOVER_CONSECUTIVE,
        q.use_device_quat && q.missed(seq) > 0 ==> q.observed(seq).use_device_quat,
        !q.use_device_quat && q.missed(seq) == 0 ==> !q.observed(seq).use_device_quat,
{
}

/// The hysteresis with its thresholds written out: a link on the host filter
/// switches to the device estimate exactly when the run of lost packets reaches
/// 3, whether it was lost in one gap or over several packets, and a link on the
/// device estimate switches back exactly when the run of clean packets reaches
/// 30. A gap of `m` missed packets lengthens the lost run by `m` and ends the
/// clean run; a packet with no gap before it ends the lost run and lengthens
/// the clean run by one. Every packet is counted once, its missed ones as lost.
pub proof fn lemma_fallback_thresholds(q: LinkQuality, seq: Option<u16>)
    requires
        q.can_observe(seq),
    ensures
        LOSS_FALLBACK_CONSECUTIVE == 3,
        LOSS_RECOVER_CONSECUTIVE == 30,
        !q.use_device_quat ==> (q.observed(seq).use_device_quat <==> q.observed(seq).consec_lost
            >= 3),
        q.use_device_quat ==> (!q.observed(seq).use_device_quat <==> q.observed(seq).consec_good
            >= 30),
        q.missed(seq) > 0 ==> q.observed(seq).consec_lost == q.consec_lost + q.missed(seq)
            && q.observed(seq).consec_good == 0,
        q.missed(seq) == 0 ==> q.observed(seq).consec_lost == 0 && q.observed(seq).consec_good
            == q.consec_good + 1,
        q.observed(seq).received_packets == q.received_packets + 1,
        q.observed(seq).lost_packets == q.lost_packets + q.missed(seq),
        seq is None || q.received_packets == 0 ==> q.missed(seq) == 0,
{
}

/// Losses are counted across the wrap of the sequence number: after the
/// number `last`, a packet numbered `last + k + 1 - 65536` (`k` at most 32767)
/// comes `k` packets late, and those `k` are counted as lost.
pub proof fn lemma_gap_across_wrap(q: LinkQuality, k: u16)
    requires
        q.received_packets > 0,
        q.last_sequence as int + k + 1 > 65535,
        k <= 32767,
    ensures
        q.missed(Some((q.last_sequence + k + 1 - 65536) as u16)) == k,
{
}

/// Losses are counted exactly: a packet that skips `k` numbers forward (less
/// than half the range) adds `k` lost packets.
pub proof fn lemma_gap_counted(q: LinkQuality, k: u16)
    requires
        q.received_packets > 0,
        q.last_sequence as int + k + 1 <= 65535,
    ensures
        q.missed(Some((q.last_sequence + k + 1) as u16)) == k,
{
}

} // verus!
