use aetherpose::net::ble::scan_notification_buffer;
use aetherpose::net::protocol::{
    crc16_ccitt_false, encode_sync_quat, ImuDataPacket, FRAME_MAGIC_HI, FRAME_MAGIC_LO,
    PACKET_TYPE_IMU_V2, PACKET_TYPE_RAW_IMU, RAW_PACKET_SIZE, RAW_PACKET_V2_SIZE,
};

fn push_f32s(out: &mut Vec<u8>, values: &[f32]) {
    for v in values {
        out.extend_from_slice(&v.to_le_bytes());
    }
}

fn make_v1(id: u8, seq: u16, batt: u8) -> Vec<u8> {
    let mut b = vec![PACKET_TYPE_RAW_IMU, id];
    b.extend_from_slice(&seq.to_le_bytes());
    push_f32s(&mut b, &[0.01, -0.02, 0.03]);
    push_f32s(&mut b, &[0.0, 0.0, 9.81]);
    b.push(batt);
    push_f32s(&mut b, &[20.0, 5.0, -40.0]);
    push_f32s(&mut b, &[1.0 / 119.0]);
    b
}

fn make_v2(id: u8, seq: u16, batt: u8) -> Vec<u8> {
    let mut b = make_v1(id, seq, batt);
    b[0] = PACKET_TYPE_IMU_V2;
    push_f32s(&mut b, &[0.0, 0.0, 0.0, 1.0]);
    b
}

fn frame(payload: &[u8]) -> Vec<u8> {
    let mut f = vec![FRAME_MAGIC_LO, FRAME_MAGIC_HI, payload.len() as u8];
    f.extend_from_slice(payload);
    f.extend_from_slice(&crc16_ccitt_false(payload).to_le_bytes());
    f
}

#[test]
fn sizes() {
    assert_eq!(RAW_PACKET_SIZE, 45);
    assert_eq!(RAW_PACKET_V2_SIZE, 61);
}

#[test]
fn parse_v1_direct() {
    let bytes = make_v1(1, 42, 80);
    let pkt = ImuDataPacket::from_bytes(&bytes).unwrap();
    assert_eq!(pkt.id, 1);
    assert!(pkt.quat.is_none());
}

#[test]
fn parse_v2_direct() {
    let bytes = make_v2(2, 10, 90);
    let pkt = ImuDataPacket::from_bytes(&bytes).unwrap();
    assert_eq!(pkt.id, 2);
    assert!(pkt.quat.is_some());
}

#[test]
fn parse_v2_framed() {
    let payload = make_v2(7, 321, 90);
    let frame = frame(&payload);
    let pkt = ImuDataPacket::from_bytes(&frame).unwrap();
    assert_eq!(pkt.id, 7);
    assert!(pkt.quat.is_some());
}

#[test]
fn decoded_fields_carry_the_wire_values() {
    let bytes = make_v2(9, 0xBEEF, 55);
    let pkt = ImuDataPacket::from_bytes(&bytes).unwrap();
    assert_eq!(pkt.packet_type, PACKET_TYPE_IMU_V2);
    assert_eq!(pkt.sequence, 0xBEEF);
    assert_eq!(pkt.batt, 55);
    assert_eq!(f32::from_bits(pkt.gyro[1]), -0.02);
    assert_eq!(f32::from_bits(pkt.accel[2]), 9.81);
    assert_eq!(f32::from_bits(pkt.mag[2]), -40.0);
    assert_eq!(f32::from_bits(pkt.dt), 1.0 / 119.0);
    assert_eq!(pkt.quat.map(|q| f32::from_bits(q[3])), Some(1.0));
}

#[test]
fn crc16_check_value() {
    assert_eq!(crc16_ccitt_false(b"123456789"), 0x29B1);
    assert_eq!(crc16_ccitt_false(&[]), 0xFFFF);
}

#[test]
fn rejects_bad_crc_and_bad_length() {
    let mut f = frame(&make_v1(3, 1, 50));
    let last = f.len() - 1;
    f[last] ^= 0x01;
    assert!(ImuDataPacket::from_bytes(&f).is_none());
    assert!(ImuDataPacket::from_bytes(&make_v1(3, 1, 50)[..44]).is_none());
    let mut short = frame(&make_v1(3, 1, 50));
    short.pop();
    assert!(ImuDataPacket::from_bytes(&short).is_none());
}

#[test]
fn rejects_invalid_fields() {
    let mut wrong_type = make_v1(1, 1, 50);
    wrong_type[0] = PACKET_TYPE_IMU_V2;
    assert!(ImuDataPacket::from_bytes(&wrong_type).is_none());
    assert!(ImuDataPacket::from_bytes(&make_v1(1, 1, 101)).is_none());
    assert!(ImuDataPacket::from_bytes(&make_v1(1, 1, 100)).is_some());
    let mut zero_dt = make_v1(1, 1, 50);
    zero_dt[41..45].copy_from_slice(&0.0f32.to_le_bytes());
    assert!(ImuDataPacket::from_bytes(&zero_dt).is_none());
    let mut one_dt = make_v1(1, 1, 50);
    one_dt[41..45].copy_from_slice(&1.0f32.to_le_bytes());
    assert!(ImuDataPacket::from_bytes(&one_dt).is_some());
    let mut big_dt = make_v1(1, 1, 50);
    big_dt[41..45].copy_from_slice(&1.5f32.to_le_bytes());
    assert!(ImuDataPacket::from_bytes(&big_dt).is_none());
    let mut nan_dt = make_v1(1, 1, 50);
    nan_dt[41..45].copy_from_slice(&f32::NAN.to_le_bytes());
    assert!(ImuDataPacket::from_bytes(&nan_dt).is_none());
}

#[test]
fn framed_and_raw_decode_alike() {
    let payload = make_v1(4, 77, 20);
    let a = ImuDataPacket::from_bytes(&payload).unwrap();
    let b = ImuDataPacket::from_bytes(&frame(&payload)).unwrap();
    assert_eq!(a.id, b.id);
    assert_eq!(a.sequence, b.sequence);
    assert_eq!(a.gyro, b.gyro);
    assert_eq!(a.dt, b.dt);
}

#[test]
fn sync_quat_is_little_endian() {
    let q = [1.0f32, -2.5, 0.0, 0.5];
    let bytes = encode_sync_quat([q[0].to_bits(), q[1].to_bits(), q[2].to_bits(), q[3].to_bits()]);
    let mut expected = Vec::new();
    push_f32s(&mut expected, &q);
    assert_eq!(bytes.to_vec(), expected);
}

#[test]
fn stream_splits_frames_raw_packets_and_noise() {
    let mut buf = vec![0x00, 0x11];
    buf.extend(frame(&make_v2(5, 1, 60)));
    buf.extend(make_v1(6, 2, 60));
    buf.extend(frame(&make_v1(7, 3, 60)));
    let partial = frame(&make_v2(8, 4, 60));
    buf.extend_from_slice(&partial[..10]);
    let (packets, consumed, framed) = scan_notification_buffer(&buf);
    let ids: Vec<u8> = packets.iter().map(|p| p.id).collect();
    assert_eq!(ids, vec![5, 6, 7]);
    assert_eq!(framed, vec![true, false, true]);
    assert_eq!(consumed, buf.len() - 10);
}

#[test]
fn stream_skips_a_bad_frame_whole() {
    let mut bad = frame(&make_v1(1, 1, 60));
    bad[10] ^= 0xFF;
    let mut buf = bad.clone();
    buf.extend(frame(&make_v1(2, 2, 60)));
    let (packets, consumed, framed) = scan_notification_buffer(&buf);
    assert_eq!(packets.len(), 1);
    assert_eq!(framed, vec![true]);
    assert_eq!(packets[0].id, 2);
    assert_eq!(consumed, buf.len());
}

#[test]
fn stream_waits_for_an_incomplete_frame() {
    let f = frame(&make_v1(1, 1, 60));
    let (packets, consumed, framed) = scan_notification_buffer(&f[..20]);
    assert!(packets.is_empty());
    assert!(framed.is_empty());
    assert_eq!(consumed, 0);
}
