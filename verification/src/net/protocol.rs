use vstd::prelude::*;

verus! {

/// First byte of a framed packet.
pub const FRAME_MAGIC_LO: u8 = 0xAA;

/// Second byte of a framed packet.
pub const FRAME_MAGIC_HI: u8 = 0x55;

/// Packet type of the legacy raw-IMU packet (45 bytes).
pub const PACKET_TYPE_RAW_IMU: u8 = 0x03;

/// Packet type of the raw-IMU packet that also carries the onboard quaternion (61 bytes).
pub const PACKET_TYPE_IMU_V2: u8 = 0x04;

/// Size in bytes of a legacy raw-IMU packet.
pub const RAW_PACKET_SIZE: usize = 45;

/// Size in bytes of a raw-IMU packet with quaternion.
pub const RAW_PACKET_V2_SIZE: usize = 61;

/// CRC-16/CCITT-FALSE: one shift of the register, with the polynomial 0x1021.
pub open spec fn crc_shift(c: u16) -> u16 {
    if c & 0x8000u16 != 0 {
        ((c << 1u16) ^ 0x1021u16) as u16
    } else {
        (c << 1u16) as u16
    }
}

/// `n` shifts of the register.
pub open spec fn crc_shifts(c: u16, n: nat) -> u16
    decreases n,
{
    if n == 0 {
        c
    } else {
        crc_shift(crc_shifts(c, (n - 1) as nat))
    }
}

/// The register after one more byte has been fed in.
pub open spec fn crc_feed(c: u16, b: u8) -> u16 {
    crc_shifts(c ^ ((b as u16) << 8u16), 8)
}

/// CRC-16/CCITT-FALSE of a byte sequence (initial value 0xFFFF, no reflection,
/// no final xor).
pub open spec fn crc16(data: Seq<u8>) -> u16
    decreases data.len(),
{
    if data.len() == 0 {
        0xFFFFu16
    } else {
        crc_feed(crc16(data.drop_last()), data.last())
    }
}

/// Computes the CRC-16/CCITT-FALSE checksum that guards a framed payload.
pub fn crc16_ccitt_false(data: &[u8]) -> (crc: u16)
    ensures
        crc == crc16(data@),
{
    let mut crc: u16 = 0xFFFF;
    let mut i: usize = 0;
    while i < data.len()
        invariant
            i <= data.len(),
            crc == crc16(data@.take(i as int)),
        decreases data.len() - i,
    {
        let b = data[i];
        assert(data@.take(i + 1).drop_last() =~= data@.take(i as int));
        crc = crc ^ ((b as u16) << 8u16);
        let ghost start = crc;
        let mut k: usize = 0;
        while k < 8
            invariant
                k <= 8,
                crc == crc_shifts(start, k as nat),
            decreases 8 - k,
        {
            crc = if (crc & 0x8000) != 0 {
                (crc << 1u16) ^ 0x1021
            } else {
                crc << 1u16
            };
            k = k + 1;
        }
        i = i + 1;
    }
    assert(data@.take(data.len() as int) =~= data@);
    crc
}


/// Little-endian `u16` at offset `i`.
pub open spec fn le16(b: Seq<u8>, i: int) -> u16 {
    (b[i] + 256 * b[i + 1]) as u16
}

/// Little-endian `u32` at offset `i`.
pub open spec fn le32(b: Seq<u8>, i: int) -> u32 {
    (b[i] + 256 * b[i + 1] + 65536 * b[i + 2] + 16777216 * b[i + 3]) as u32
}

/// Three consecutive little-endian `u32` words starting at offset `i`.
pub open spec fn le32x3(b: Seq<u8>, i: int) -> Seq<u32> {
    seq![le32(b, i), le32(b, i + 4), le32(b, i + 8)]
}

/// Four consecutive little-endian `u32` words starting at offset `i`.
pub open spec fn le32x4(b: Seq<u8>, i: int) -> Seq<u32> {
    seq![le32(b, i), le32(b, i + 4), le32(b, i + 8), le32(b, i + 12)]
}

/// Whether the IEEE-754 single-precision number with bit pattern `bits` lies in
/// `(0.0, 1.0]`. Positive floats are ordered like their bit patterns, `1.0` is
/// `0x3F80_0000`; zero, negative numbers, infinities and NaNs all fall outside.
pub open spec fn dt_in_range(bits: u32) -> bool {
    1 <= bits <= 0x3F80_0000
}

/// The checks the firmware packet must pass: its type matches its size, the
/// battery percentage is at most 100 and the sample interval is in `(0, 1]` s.
pub open spec fn payload_valid(p: Seq<u8>) -> bool {
    &&& (p.len() == RAW_PACKET_SIZE && p[0] == PACKET_TYPE_RAW_IMU) || (p.len()
        == RAW_PACKET_V2_SIZE && p[0] == PACKET_TYPE_IMU_V2)
    &&& p[28] <= 100
    &&& dt_in_range(le32(p, 41))
}

/// The checksum stored little-endian after a frame's payload.
pub open spec fn frame_crc(data: Seq<u8>) -> u16 {
    le16(data, 3 + data[2])
}

/// The packet bytes that `data` carries: `data` itself when it has the size of a
/// raw packet, else the payload of a well-formed frame
/// `[0xAA, 0x55, len, payload.., crc16_le]` whose checksum matches and whose
/// payload has the size of a raw packet.
pub open spec fn frame_payload(data: Seq<u8>) -> Option<Seq<u8>> {
    if data.len() == RAW_PACKET_V2_SIZE || data.len() == RAW_PACKET_SIZE {
        Some(data)
    } else if data.len() < 5 || data[0] != FRAME_MAGIC_LO || data[1] != FRAME_MAGIC_HI {
        None
    } else if data.len() != data[2] + 5 {
        None
    } else if crc16(data.subrange(3, 3 + data[2])) != frame_crc(data) {
        None
    } else if data[2] == RAW_PACKET_V2_SIZE || data[2] == RAW_PACKET_SIZE {
        Some(data.subrange(3, 3 + data[2]))
    } else {
        None
    }
}

/// Whether `data` decodes to a packet at all.
pub open spec fn decodes(data: Seq<u8>) -> bool {
    frame_payload(data) matches Some(p) && payload_valid(p)
}

/// A decoded tracker packet. Floating-point readings are carried as their
/// IEEE-754 single-precision bit patterns, exactly as they were on the wire.
#[derive(Debug, Clone)]
pub struct ImuDataPacket {
    pub packet_type: u8,
    pub id: u8,
    pub sequence: u16,
    /// rad/s, bit patterns of `f32`
    pub gyro: [u32; 3],
    /// m/s², bit patterns of `f32`
    pub accel: [u32; 3],
    pub batt: u8,
    /// uT, bit patterns of `f32` (zeros = 6-axis mode)
    pub mag: [u32; 3],
    /// seconds, bit pattern of `f32`
    pub dt: u32,
    /// `[x, y, z, w]` onboard estimate, bit patterns of `f32` (`None` for 45-byte packets)
    pub quat: Option<[u32; 4]>,
}

impl ImuDataPacket {
    /// The packet whose fields are read from the raw packet bytes `p`
    /// (layout: type, id, sequence u16, gyro 3×f32, accel 3×f32, battery u8,
    /// mag 3×f32, dt f32 and, in 61-byte packets, quaternion 4×f32; all little-endian).
    pub open spec fn describes(self, p: Seq<u8>) -> bool {
        &&& self.packet_type == p[0]
        &&& self.id == p[1]
        &&& self.sequence == le16(p, 2)
        &&& self.gyro@ == le32x3(p, 4)
        &&& self.accel@ == le32x3(p, 16)
        &&& self.batt == p[28]
        &&& self.mag@ == le32x3(p, 29)
        &&& self.dt == le32(p, 41)
        &&& if p.len() == RAW_PACKET_V2_SIZE {
            self.quat matches Some(q) && q@ == le32x4(p, 45)
        } else {
            self.quat is None
        }
    }

    /// Decodes a packet received raw (45 or 61 bytes) or framed as
    /// `[0xAA, 0x55, len, payload.., crc16_le]`.
    pub fn from_bytes(data: &[u8]) -> (res: Option<Self>)
        ensures
            res is Some <==> decodes(data@),
            res matches Some(pkt) ==> pkt.describes(frame_payload(data@).unwrap()),
            res matches Some(pkt) ==> packet_layout(pkt, frame_payload(data@).unwrap()),
    {
        proof {
            if decodes(data@) {
                lemma_describes_layout(frame_payload(data@).unwrap());
            }
        }
        let v1_size = RAW_PACKET_SIZE;
        let v2_size = RAW_PACKET_V2_SIZE;

        if data.len() == v2_size {
            return Self::try_parse_v2_raw(data);
        }
        if data.len() == v1_size {
            return Self::try_parse_v1_raw(data);
        }

        if data.len() < 5 || data[0] != FRAME_MAGIC_LO || data[1] != FRAME_MAGIC_HI {
            return None;
        }
        let plen = data[2] as usize;
        let expected = 2 + 1 + plen + 2;
        if data.len() != expected {
            return None;
        }
        let payload = &data[3..3 + plen];
        let crc_bytes = &data[3 + plen..3 + plen + 2];
        let seen_crc = crc_bytes[0] as u16 + (crc_bytes[1] as u16) * 256;
        if crc16_ccitt_false(payload) != seen_crc {
            return None;
        }

        if plen == v2_size {
            Self::try_parse_v2_raw(payload)
        } else if plen == v1_size {
            Self::try_parse_v1_raw(payload)
        } else {
            None
        }
    }

    fn try_parse_v1_raw(payload: &[u8]) -> (res: Option<Self>)
        requires
            payload@.len() == RAW_PACKET_SIZE,
        ensures
            res is Some <==> payload_valid(payload@),
            res matches Some(pkt) ==> pkt.describes(payload@),
    {
        let pkt = Self::read_fields(payload);
        if !raw_is_valid(&pkt, PACKET_TYPE_RAW_IMU) {
            return None;
        }
        Some(pkt)
    }

    fn try_parse_v2_raw(payload: &[u8]) -> (res: Option<Self>)
        requires
            payload@.len() == RAW_PACKET_V2_SIZE,
        ensures
            res is Some <==> payload_valid(payload@),
            res matches Some(pkt) ==> pkt.describes(payload@),
    {
        let mut pkt = Self::read_fields(payload);
        if !raw_is_valid(&pkt, PACKET_TYPE_IMU_V2) {
            return None;
        }
        pkt.quat = Some(read_le32x4(payload, 45));
        Some(pkt)
    }

    /// Reads the fields common to both packet sizes.
    fn read_fields(p: &[u8]) -> (pkt: Self)
        requires
            p@.len() == RAW_PACKET_SIZE || p@.len() == RAW_PACKET_V2_SIZE,
        ensures
            pkt.describes(p@.take(RAW_PACKET_SIZE as int)),
            pkt.quat is None,
    {
        let ghost q = p@.take(RAW_PACKET_SIZE as int);
        let pkt = Self {
            packet_type: p[0],
            id: p[1],
            sequence: p[2] as u16 + (p[3] as u16) * 256,
            gyro: read_le32x3(p, 4),
            accel: read_le32x3(p, 16),
            batt: p[28],
            mag: read_le32x3(p, 29),
            dt: read_le32(p, 41),
            quat: None,
        };
        assert(le16(q, 2) == le16(p@, 2));
        assert(le32x3(q, 4) == le32x3(p@, 4));
        assert(le32x3(q, 16) == le32x3(p@, 16));
        assert(le32x3(q, 29) == le32x3(p@, 29));
        assert(le32(q, 41) == le32(p@, 41));
        pkt
    }
}

/// The validity checks of `payload_valid`, on the decoded fields.
fn raw_is_valid(pkt: &ImuDataPacket, packet_type: u8) -> (ok: bool)
    ensures
        ok == (pkt.packet_type == packet_type && pkt.batt <= 100 && dt_in_range(pkt.dt)),
{
    pkt.packet_type == packet_type && pkt.batt <= 100 && 1 <= pkt.dt && pkt.dt <= 0x3F80_0000
}

fn read_le32(p: &[u8], i: usize) -> (v: u32)
    requires
        i + 4 <= p.len(),
    ensures
        v == le32(p@, i as int),
{
    p[i] as u32 + (p[i + 1] as u32) * 256 + (p[i + 2] as u32) * 65536 + (p[i + 3] as u32)
        * 16777216
}

fn read_le32x3(p: &[u8], i: usize) -> (v: [u32; 3])
    requires
        i + 12 <= p.len(),
    ensures
        v@ == le32x3(p@, i as int),
{
    let v = [read_le32(p, i), read_le32(p, i + 4), read_le32(p, i + 8)];
    assert(v@ =~= le32x3(p@, i as int));
    v
}

fn read_le32x4(p: &[u8], i: usize) -> (v: [u32; 4])
    requires
        i + 16 <= p.len(),
    ensures
        v@ == le32x4(p@, i as int),
{
    let v = [read_le32(p, i), read_le32(p, i + 4), read_le32(p, i + 8), read_le32(p, i + 12)];
    assert(v@ =~= le32x4(p@, i as int));
    v
}


/// The four little-endian bytes of `w`.
pub open spec fn le_bytes(w: u32) -> Seq<u8> {
    seq![(w % 256) as u8, (w / 256 % 256) as u8, (w / 65536 % 256) as u8, (w / 16777216) as u8]
}

fn write_le32(buf: &mut [u8; 16], at: usize, w: u32)
    requires
        at + 4 <= 16,
    ensures
        final(buf)@ == old(buf)@.take(at as int) + le_bytes(w) + old(buf)@.skip(at + 4),
{
    buf[at] = (w % 256) as u8;
    buf[at + 1] = (w / 256 % 256) as u8;
    buf[at + 2] = (w / 65536 % 256) as u8;
    buf[at + 3] = (w / 16777216) as u8;
    assert(buf@ =~= old(buf)@.take(at as int) + le_bytes(w) + old(buf)@.skip(at + 4));
}

/// Encodes a quaternion `[x, y, z, w]`, given as `f32` bit patterns, as the 16
/// little-endian bytes that are written back to a tracker.
pub fn encode_sync_quat(q: [u32; 4]) -> (buf: [u8; 16])
    ensures
        buf@ == le_bytes(q[0]) + le_bytes(q[1]) + le_bytes(q[2]) + le_bytes(q[3]),
{
    let mut buf = [0u8; 16];
    write_le32(&mut buf, 0, q[0]);
    write_le32(&mut buf, 4, q[1]);
    write_le32(&mut buf, 8, q[2]);
    write_le32(&mut buf, 12, q[3]);
    assert(buf@ =~= le_bytes(q[0]) + le_bytes(q[1]) + le_bytes(q[2]) + le_bytes(q[3]));
    buf
}

/// Reading back a word written by `le_bytes` gives the word.
pub proof fn lemma_le_bytes_roundtrip(w: u32)
    ensures
        le32(le_bytes(w), 0) == w,
{
    let b = le_bytes(w);
    let w0 = w % 256;
    let w1 = w / 256 % 256;
    let w2 = w / 65536 % 256;
    let w3 = w / 16777216;
    assert(w == w0 + 256 * w1 + 65536 * w2 + 16777216 * w3) by (nonlinear_arith)
        requires
            w0 == w % 256,
            w1 == w / 256 % 256,
            w2 == w / 65536 % 256,
            w3 == w / 16777216,
            0 <= w < 0x1_0000_0000,
    ;
    assert(b[0] == w0 && b[1] == w1 && b[2] == w2 && b[3] == w3);
}

/// The sync payload of `encode_sync_quat` reads back, word by word, as the
/// quaternion it was made from.
pub proof fn lemma_sync_quat_roundtrip(q: [u32; 4])
    ensures
        le32x4(le_bytes(q[0]) + le_bytes(q[1]) + le_bytes(q[2]) + le_bytes(q[3]), 0) == q@,
{
    let b = le_bytes(q[0]) + le_bytes(q[1]) + le_bytes(q[2]) + le_bytes(q[3]);
    lemma_le_bytes_roundtrip(q[0]);
    lemma_le_bytes_roundtrip(q[1]);
    lemma_le_bytes_roundtrip(q[2]);
    lemma_le_bytes_roundtrip(q[3]);
    assert(le32(b, 0) == le32(le_bytes(q[0]), 0));
    assert(le32(b, 4) == le32(le_bytes(q[1]), 0));
    assert(le32(b, 8) == le32(le_bytes(q[2]), 0));
    assert(le32(b, 12) == le32(le_bytes(q[3]), 0));
    assert(le32x4(b, 0) =~= q@);
}


/// The two little-endian bytes of `w`.
pub open spec fn le16_bytes(w: u16) -> Seq<u8> {
    seq![(w % 256) as u8, (w / 256) as u8]
}

/// A payload wrapped as a frame: magic, length, payload, CRC-16 little-endian.
pub open spec fn framed(p: Seq<u8>) -> Seq<u8> {
    seq![FRAME_MAGIC_LO, FRAME_MAGIC_HI, p.len() as u8] + p + le16_bytes(crc16(p))
}

/// The byte offsets of the packet fields, each written out: type at 0, id at 1,
/// the sequence number at 2..4, gyro x, y, z at 4, 8 and 12, accel x, y, z at 16,
/// 20 and 24, battery at 28, mag x, y, z at 29, 33 and 37, dt at 41 and, in a
/// 61-byte packet, the quaternion x, y, z, w at 45, 49, 53 and 57; every
/// multi-byte field is little-endian.
pub open spec fn packet_layout(pkt: ImuDataPacket, p: Seq<u8>) -> bool {
    &&& pkt.packet_type == p[0]
    &&& pkt.id == p[1]
    &&& pkt.sequence == p[2] + 256 * p[3]
    &&& pkt.gyro@[0] == p[4] + 256 * p[5] + 65536 * p[6] + 16777216 * p[7]
    &&& pkt.gyro@[1] == p[8] + 256 * p[9] + 65536 * p[10] + 16777216 * p[11]
    &&& pkt.gyro@[2] == p[12] + 256 * p[13] + 65536 * p[14] + 16777216 * p[15]
    &&& pkt.accel@[0] == p[16] + 256 * p[17] + 65536 * p[18] + 16777216 * p[19]
    &&& pkt.accel@[1] == p[20] + 256 * p[21] + 65536 * p[22] + 16777216 * p[23]
    &&& pkt.accel@[2] == p[24] + 256 * p[25] + 65536 * p[26] + 16777216 * p[27]
    &&& pkt.batt == p[28]
    &&& pkt.mag@[0] == p[29] + 256 * p[30] + 65536 * p[31] + 16777216 * p[32]
    &&& pkt.mag@[1] == p[33] + 256 * p[34] + 65536 * p[35] + 16777216 * p[36]
    &&& pkt.mag@[2] == p[37] + 256 * p[38] + 65536 * p[39] + 16777216 * p[40]
    &&& pkt.dt == p[41] + 256 * p[42] + 65536 * p[43] + 16777216 * p[44]
    &&& p.len() == 61 ==> (pkt.quat matches Some(q) && {
        &&& q@[0] == p[45] + 256 * p[46] + 65536 * p[47] + 16777216 * p[48]
        &&& q@[1] == p[49] + 256 * p[50] + 65536 * p[51] + 16777216 * p[52]
        &&& q@[2] == p[53] + 256 * p[54] + 65536 * p[55] + 16777216 * p[56]
        &&& q@[3] == p[57] + 256 * p[58] + 65536 * p[59] + 16777216 * p[60]
    })
    &&& p.len() == 45 ==> pkt.quat is None
}

/// Which raw packets are accepted, with the protocol's numbers written out: a
/// 45-byte packet of type 3 or a 61-byte packet of type 4, whose battery byte
/// (28) is at most 100 and whose sample interval (bytes 41..45, an `f32`) lies
/// in `(0, 1]`, that is, has a bit pattern from 1 to `0x3F80_0000`. A frame
/// starts with `0xAA 0x55`.
pub proof fn lemma_raw_packet_accepted(p: Seq<u8>)
    requires
        p.len() == 45 || p.len() == 61,
    ensures
        FRAME_MAGIC_LO == 0xAA && FRAME_MAGIC_HI == 0x55,
        RAW_PACKET_SIZE == 45 && RAW_PACKET_V2_SIZE == 61,
        decodes(p) <==> ((p.len() == 45 && p[0] == 3) || (p.len() == 61 && p[0] == 4)) && p[28]
            <= 100 && 1 <= p[41] + 256 * p[42] + 65536 * p[43] + 16777216 * p[44] <= 0x3F80_0000,
{
    lemma_bytes_le(p);
}

/// Every packet read from the bytes `p` of a 45- or 61-byte packet has its
/// fields at the documented offsets: gyro z, for one, is the little-endian
/// word at bytes 12..16.
pub proof fn lemma_packet_layout(pkt: ImuDataPacket, p: Seq<u8>)
    requires
        p.len() == 45 || p.len() == 61,
        pkt.describes(p),
    ensures
        packet_layout(pkt, p),
{
    lemma_bytes_le(p);
}

/// The packet that `describes` a 45- or 61-byte packet has the documented layout.
proof fn lemma_describes_layout(p: Seq<u8>)
    requires
        p.len() == 45 || p.len() == 61,
    ensures
        forall|pkt: ImuDataPacket| #[trigger] pkt.describes(p) ==> packet_layout(pkt, p),
{
    assert forall|pkt: ImuDataPacket| #[trigger] pkt.describes(p) implies packet_layout(pkt, p) by {
        lemma_packet_layout(pkt, p);
    }
}

/// A little-endian word of bytes fits its type, so reading it loses nothing.
proof fn lemma_bytes_le(p: Seq<u8>)
    ensures
        forall|i: int| #![trigger le32(p, i)] 0 <= i && i + 4 <= p.len() ==> le32(p, i) as int
            == p[i] + 256 * p[i + 1] + 65536 * p[i + 2] + 16777216 * p[i + 3],
        forall|i: int| #![trigger le16(p, i)] 0 <= i && i + 2 <= p.len() ==> le16(p, i) as int
            == p[i] + 256 * p[i + 1],
{
    assert forall|i: int| 0 <= i && i + 4 <= p.len() implies #[trigger] le32(p, i) as int
        == p[i] + 256 * p[i + 1] + 65536 * p[i + 2] + 16777216 * p[i + 3] by {
        let a = p[i];
        let b = p[i + 1];
        let c = p[i + 2];
        let d = p[i + 3];
        assert(0 <= a + 256 * b + 65536 * c + 16777216 * d <= 0xffff_ffff);
    }
    assert forall|i: int| 0 <= i && i + 2 <= p.len() implies #[trigger] le16(p, i) as int
        == p[i] + 256 * p[i + 1] by {
        let a = p[i];
        let b = p[i + 1];
        assert(0 <= a + 256 * b <= 0xffff);
    }
}

/// A raw packet and the same packet wrapped in a frame carry the same payload,
/// so `from_bytes` gives the same result on both.
pub proof fn lemma_framed_payload(p: Seq<u8>)
    requires
        p.len() == RAW_PACKET_SIZE || p.len() == RAW_PACKET_V2_SIZE,
    ensures
        frame_payload(framed(p)) == Some(p),
        frame_payload(p) == Some(p),
        decodes(framed(p)) == decodes(p),
{
    let f = framed(p);
    let c = crc16(p);
    assert(f.len() == p.len() + 5);
    assert(f[2] == p.len());
    assert(f.subrange(3, 3 + f[2]) =~= p);
    let lo = c % 256;
    let hi = c / 256;
    assert(c == lo + 256 * hi) by (nonlinear_arith)
        requires
            lo == c % 256,
            hi == c / 256,
    ;
    assert(f[3 + p.len() as int] == lo);
    assert(f[4 + p.len() as int] == hi);
    assert(frame_crc(f) == c);
}

} // verus!
