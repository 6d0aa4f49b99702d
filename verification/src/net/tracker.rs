use vstd::prelude::*;

use crate::net::packet::PacketData;
use crate::net::time::{duration_as_nanos, duration_since, now};

verus! {

/// Packets lost between the last sequence number seen and a new one, counting
/// modulo 2^16 from the successor of the last.
pub open spec fn sequence_gap(last: u16, seq: u16) -> u16 {
    let expected = last.wrapping_add(1);
    if seq == expected { 0 } else { seq.wrapping_sub(expected) }
}

/// State and basic metrics of a tracker device. Readings are `f32` bit patterns.
#[derive(Debug, Clone)]
pub struct Tracker {
    pub id: u8,
    pub last_seen: std::time::Instant,
    pub gyro: Option<[u32; 3]>,
    pub accel: Option<[u32; 3]>,
    pub mag: Option<[u32; 3]>,
    pub dt: Option<u32>,
    pub stationary: bool,
    pub received_packets: u64,
    pub lost_packets: u64,
    pub last_sequence: Option<u16>,
    pub rssi: Option<i32>,
}

/// The reading of a packet if it has one, else the one held before.
pub open spec fn updated<T>(held: Option<T>, incoming: Option<T>) -> Option<T> {
    if incoming is Some { incoming } else { held }
}

impl Tracker {
    /// A tracker seen just now, with no readings and no packets counted.
    pub fn new(id: u8) -> (t: Self)
        ensures
            t.id == id,
            t.gyro is None && t.accel is None && t.mag is None && t.dt is None,
            !t.stationary,
            t.received_packets == 0,
            t.lost_packets == 0,
            t.last_sequence is None,
            t.rssi is None,
    {
        Self {
            id,
            last_seen: now(),
            gyro: None,
            accel: None,
            mag: None,
            dt: None,
            stationary: false,
            received_packets: 0,
            lost_packets: 0,
            last_sequence: None,
            rssi: None,
        }
    }

    /// Takes in a packet: counts it (saturating), adds the packets skipped in
    /// the sequence numbering to the losses (saturating), and keeps every
    /// reading the packet carries. `last_seen` is set to the current time.
    pub fn update_data(&mut self, packet_data: &PacketData)
        ensures
            final(self).id == old(self).id,
            final(self).stationary == old(self).stationary,
            final(self).rssi == old(self).rssi,
            final(self).received_packets == old(self).received_packets.saturating_add(1),
            final(self).lost_packets == (match (packet_data.sequence, old(self).last_sequence) {
                (Some(seq), Some(last)) => old(self).lost_packets.saturating_add(
                    sequence_gap(last, seq) as u64,
                ),
                _ => old(self).lost_packets,
            }),
            final(self).last_sequence == updated(old(self).last_sequence, packet_data.sequence),
            final(self).gyro == updated(old(self).gyro, packet_data.gyro),
            final(self).accel == updated(old(self).accel, packet_data.accel),
            final(self).mag == updated(old(self).mag, packet_data.mag),
            final(self).dt == updated(old(self).dt, packet_data.dt),
    {
        self.last_seen = now();
        self.received_packets = self.received_packets.saturating_add(1);

        if let Some(seq) = packet_data.sequence {
            if let Some(last) = self.last_sequence {
                let expected = last.wrapping_add(1);
                if seq != expected {
                    let missed = seq.wrapping_sub(expected) as u64;
                    self.lost_packets = self.lost_packets.saturating_add(missed);
                }
            }
            self.last_sequence = Some(seq);
        }

        if let Some(g) = packet_data.gyro {
            self.gyro = Some(g);
        }
        if let Some(a) = packet_data.accel {
            self.accel = Some(a);
        }
        if let Some(m) = packet_data.mag {
            self.mag = Some(m);
        }
        if let Some(dt) = packet_data.dt {
            self.dt = Some(dt);
        }
    }

    /// Nanoseconds since the tracker was last seen, read from the clock; the
    /// reading depends on the clock, so nothing is stated of it.
    pub fn nanos_since_seen(&self) -> u128 {
        duration_as_nanos(duration_since(self.last_seen, now()))
    }

    /// Whether the tracker was seen within `offline_after` of now: the time
    /// since it was last seen, read from the clock, is judged by `seen_within`
    /// against the limit. The answer depends on the clock, so it is not stated.
    pub fn is_online(&self, offline_after: std::time::Duration) -> bool {
        seen_within(self.nanos_since_seen(), duration_as_nanos(offline_after))
    }
}

/// Whether a tracker last seen `elapsed_nanos` ago counts as online under a
/// limit of `limit_nanos`: it does when the time is at most the limit.
pub fn seen_within(elapsed_nanos: u128, limit_nanos: u128) -> (r: bool)
    ensures
        r == (elapsed_nanos <= limit_nanos),
{
    elapsed_nanos <= limit_nanos
}

/// A packet that follows its predecessor in the numbering (also across the
/// wrap from 65535 to 0) counts no loss; one that skips `k` numbers counts `k`.
pub proof fn lemma_sequence_gap(last: u16, k: u16)
    ensures
        sequence_gap(last, last.wrapping_add(1)) == 0,
        k < 65535 ==> sequence_gap(last, last.wrapping_add(1).wrapping_add(k)) == k,
{
}

} // verus!
