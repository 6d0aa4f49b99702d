use vstd::prelude::*;

verus! {

/// Unified packet received from a tracker (BLE, USB serial or UDP). All fields
/// but the id are optional to allow partial updates. Floating-point readings
/// are carried as IEEE-754 single-precision bit patterns.
#[derive(Clone, Debug)]
pub struct PacketData {
    pub id: u8,
    pub sequence: Option<u16>,
    /// battery percentage, bit pattern of `f32`
    pub batt: Option<u32>,
    /// raw gyroscope reading, rad/s `[x, y, z]`, bit patterns of `f32`
    pub gyro: Option<[u32; 3]>,
    /// accelerometer, m/s² `[x, y, z]`, bit patterns of `f32`
    pub accel: Option<[u32; 3]>,
    /// magnetometer, uT `[x, y, z]`, bit patterns of `f32`; `None` or zeros means 6-axis mode
    pub mag: Option<[u32; 3]>,
    /// seconds since the previous sample, bit pattern of `f32`
    pub dt: Option<u32>,
    /// onboard quaternion `[x, y, z, w]`, bit patterns of `f32` (v2 packets only)
    pub quat: Option<[u32; 4]>,
}

} // verus!
