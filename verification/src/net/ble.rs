use vstd::prelude::*;

use crate::text::has_prefix;
use crate::net::protocol::{
    decodes, frame_payload, ImuDataPacket, FRAME_MAGIC_HI, FRAME_MAGIC_LO, RAW_PACKET_SIZE,
};

verus! {

/// How a notification buffer splits into packets: a frame header with a
/// complete frame behind it takes the whole frame (kept when it decodes);
/// otherwise, with at least 45 bytes left, a decodable raw packet takes 45
/// bytes and anything else skips one byte; with less left, scanning stops.
/// Gives the chunks that decoded, in order, and the number of bytes consumed.
pub open spec fn scan(s: Seq<u8>) -> (Seq<Seq<u8>>, nat)
    decreases s.len(),
{
    if s.len() >= 3 && s[0] == FRAME_MAGIC_LO && s[1] == FRAME_MAGIC_HI {
        let total = s[2] + 5;
        if s.len() < total {
            (seq![], 0)
        } else {
            let rest = scan(s.skip(total));
            (
                if decodes(s.take(total)) {
                    seq![s.take(total)] + rest.0
                } else {
                    rest.0
                },
                (total + rest.1) as nat,
            )
        }
    } else if s.len() >= RAW_PACKET_SIZE {
        if decodes(s.take(RAW_PACKET_SIZE as int)) {
            let rest = scan(s.skip(RAW_PACKET_SIZE as int));
            (seq![s.take(RAW_PACKET_SIZE as int)] + rest.0, (RAW_PACKET_SIZE + rest.1) as nat)
        } else {
            let rest = scan(s.skip(1));
            (rest.0, (1 + rest.1) as nat)
        }
    } else {
        (seq![], 0)
    }
}

/// Scanning never consumes more than it was given.
pub proof fn lemma_scan_within(s: Seq<u8>)
    ensures
        scan(s).1 <= s.len(),
        forall|i: int| 0 <= i < scan(s).0.len() ==> decodes(#[trigger] scan(s).0[i]),
    decreases s.len(),
{
    if s.len() >= 3 && s[0] == FRAME_MAGIC_LO && s[1] == FRAME_MAGIC_HI {
        let total = s[2] + 5;
        if s.len() >= total {
            lemma_scan_within(s.skip(total));
        }
    } else if s.len() >= RAW_PACKET_SIZE {
        if decodes(s.take(RAW_PACKET_SIZE as int)) {
            lemma_scan_within(s.skip(RAW_PACKET_SIZE as int));
        } else {
            lemma_scan_within(s.skip(1));
        }
    }
}

/// What scanning makes of the front of a buffer, with the frame header
/// `0xAA 0x55` and the raw packet size of 45 bytes written out. A complete
/// frame that decodes is the first chunk and is consumed whole; an incomplete
/// frame stops the scan with nothing consumed. Without a header, 45 leading
/// bytes that decode are the first chunk and are consumed; a buffer that is
/// exactly one such packet is consumed whole into that one chunk; leading bytes
/// that do not decode cost one byte; fewer than 45 bytes are left for later.
pub proof fn lemma_scan_front(s: Seq<u8>)
    ensures
        ({
            let header = s.len() >= 3 && s[0] == 0xAAu8 && s[1] == 0x55u8;
            let total = s[2] + 5;
            &&& header && s.len() >= total && decodes(s.take(total)) ==> {
                &&& scan(s).0.len() >= 1
                &&& scan(s).0[0] == s.take(total)
                &&& scan(s).1 >= total
            }
            &&& header && s.len() < total ==> scan(s).0.len() == 0 && scan(s).1 == 0
            &&& !header && s.len() >= 45 && decodes(s.take(45)) ==> {
                &&& scan(s).0.len() >= 1
                &&& scan(s).0[0] == s.take(45)
                &&& scan(s).1 >= 45
            }
            &&& !header && s.len() == 45 && decodes(s) ==> scan(s).0 == seq![s] && scan(s).1
                == 45
            &&& !header && s.len() >= 45 && !decodes(s.take(45)) ==> scan(s).0 == scan(
                s.skip(1),
            ).0 && scan(s).1 == scan(s.skip(1)).1 + 1
            &&& !header && s.len() < 45 ==> scan(s).0.len() == 0 && scan(s).1 == 0
        }),
{
    let header = s.len() >= 3 && s[0] == 0xAAu8 && s[1] == 0x55u8;
    if !header && s.len() == 45 && decodes(s) {
        assert(s.take(45) =~= s);
        assert(s.skip(45).len() == 0);
        assert(scan(s.skip(45)).0.len() == 0 && scan(s.skip(45)).1 == 0);
        assert(seq![s] + scan(s.skip(45)).0 =~= seq![s]);
    }
}

/// Whether a chunk came in a frame: it starts with the frame header.
pub open spec fn starts_framed(c: Seq<u8>) -> bool {
    c.len() >= 2 && c[0] == FRAME_MAGIC_LO && c[1] == FRAME_MAGIC_HI
}

/// Splits the bytes received so far on a notification stream into packets.
/// Returns the decoded packets, in order, how many leading bytes were
/// consumed (the rest is an incomplete packet to be completed by later
/// notifications), and for each packet whether it came in a frame.
pub fn scan_notification_buffer(buf: &[u8]) -> (res: (Vec<ImuDataPacket>, usize, Vec<bool>))
    ensures
        res.1 == scan(buf@).1,
        res.0.len() == scan(buf@).0.len(),
        forall|i: int|
            0 <= i < res.0.len() ==> #[trigger] res.0[i].describes(
                frame_payload(scan(buf@).0[i]).unwrap(),
            ),
        res.2.len() == res.0.len(),
        forall|i: int| 0 <= i < res.2.len() ==> #[trigger] res.2[i] == starts_framed(scan(buf@).0[i]),
{
    let mut packets: Vec<ImuDataPacket> = Vec::new();
    let mut framed: Vec<bool> = Vec::new();
    let ghost mut chunks: Seq<Seq<u8>> = seq![];
    let mut pos: usize = 0;
    assert(buf@.skip(0) =~= buf@);
    loop
        invariant
            pos <= buf.len(),
            scan(buf@).0 == chunks + scan(buf@.skip(pos as int)).0,
            scan(buf@).1 == pos + scan(buf@.skip(pos as int)).1,
            packets.len() == chunks.len(),
            forall|i: int|
                0 <= i < packets.len() ==> #[trigger] packets[i].describes(
                    frame_payload(chunks[i]).unwrap(),
                ),
            framed.len() == chunks.len(),
            forall|i: int| 0 <= i < framed.len() ==> #[trigger] framed[i] == starts_framed(chunks[i]),
        ensures
            scan(buf@).0 == chunks,
            scan(buf@).1 == pos,
            packets.len() == chunks.len(),
            forall|i: int|
                0 <= i < packets.len() ==> #[trigger] packets[i].describes(
                    frame_payload(chunks[i]).unwrap(),
                ),
            framed.len() == chunks.len(),
            forall|i: int| 0 <= i < framed.len() ==> #[trigger] framed[i] == starts_framed(chunks[i]),
        decreases buf.len() - pos,
    {
        let slice = &buf[pos..buf.len()];
        let ghost s = buf@.skip(pos as int);
        assert(slice@ =~= s);

        if slice.len() >= 3 && slice[0] == FRAME_MAGIC_LO && slice[1] == FRAME_MAGIC_HI {
            let total = slice[2] as usize + 5;
            if slice.len() < total {
                assert(chunks + seq![] =~= chunks);
                break ;
            }
            let frame = &slice[0..total];
            assert(frame@ =~= s.take(total as int));
            let ghost rest = s.skip(total as int);
            assert(rest =~= buf@.skip(pos + total));
            if let Some(packet) = ImuDataPacket::from_bytes(frame) {
                packets.push(packet);
                assert(frame@[0] == slice@[0] && frame@[1] == slice@[1]);
                framed.push(true);
                proof {
                    assert(chunks.push(frame@) + scan(rest).0 =~= chunks + (seq![frame@]
                        + scan(rest).0));
                    chunks = chunks.push(frame@);
                }
            }
            pos = pos + total;
            continue ;
        }
        let raw_size = RAW_PACKET_SIZE;
        if slice.len() >= raw_size {
            let raw = &slice[0..raw_size];
            assert(raw@ =~= s.take(RAW_PACKET_SIZE as int));
            if let Some(packet) = ImuDataPacket::from_bytes(raw) {
                let ghost rest = s.skip(RAW_PACKET_SIZE as int);
                assert(rest =~= buf@.skip(pos + raw_size));
                packets.push(packet);
                assert(raw@[0] == slice@[0] && raw@[1] == slice@[1]);
                framed.push(false);
                proof {
                    assert(chunks.push(raw@) + scan(rest).0 =~= chunks + (seq![raw@] + scan(
                        rest,
                    ).0));
                    chunks = chunks.push(raw@);
                }
                pos = pos + raw_size;
                continue ;
            } else {
                assert(s.skip(1) =~= buf@.skip(pos + 1));
                pos = pos + 1;
                continue ;
            }
        }
        assert(chunks + seq![] =~= chunks);
        break ;
    }
    (packets, pos, framed)
}

/// Prefix of the advertised name of a tracker.
pub open spec fn tracker_name_prefix() -> Seq<char> {
    "Aetherpose Tracker"@
}

/// Whether an advertising device is a tracker: its name starts with
/// `Aetherpose Tracker`, or it advertises the tracker service.
pub fn is_tracker_advertisement(local_name: Option<&str>, advertises_service: bool) -> (r: bool)
    ensures
        r == (advertises_service || match local_name {
            Some(n) => n@.len() >= tracker_name_prefix().len() && n@.take(
                tracker_name_prefix().len() as int,
            ) == tracker_name_prefix(),
            None => false,
        }),
{
    proof {
        reveal_strlit("Aetherpose Tracker");
    }
    let named = match local_name {
        Some(n) => has_prefix(n, "Aetherpose Tracker"),
        None => false,
    };
    named || advertises_service
}

/// Connection attempts made for a tracker before it is given up until seen again.
pub const CONNECT_ATTEMPTS: u32 = 5;

/// Wait after the failed connection attempt numbered `attempt` (from 0):
/// one second, half a second more for each earlier attempt.
pub fn connect_retry_delay_ms(attempt: u32) -> (d: u64)
    requires
        attempt < CONNECT_ATTEMPTS,
    ensures
        d == 1000 + 500 * attempt,
{
    1000 + attempt as u64 * 500
}

/// Shortest time between two orientation write-backs to a tracker, in ms.
pub const SYNC_INTERVAL_MS: u64 = 300;

/// Whether the host orientation is written back to the tracker: it is known,
/// and at least the sync interval has passed since the last write.
pub fn sync_due(since_last_ms: u64, has_orientation: bool) -> (r: bool)
    ensures
        r == (has_orientation && since_last_ms >= SYNC_INTERVAL_MS),
{
    has_orientation && since_last_ms >= SYNC_INTERVAL_MS
}

} // verus!
