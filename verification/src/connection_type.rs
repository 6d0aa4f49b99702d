use vstd::prelude::*;

verus! {

/// The transport a tracker's packets arrived on.
#[derive(Debug, Clone, Copy, PartialEq, Eq, Structural)]
pub enum ConnectionType {
    Serial,
    Ble,
    Udp,
    Unknown,
}

impl Default for ConnectionType {
    fn default() -> (c: Self)
        ensures
            c == ConnectionType::Unknown,
    {
        ConnectionType::Unknown
    }
}

} // verus!
