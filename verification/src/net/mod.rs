pub mod protocol;
pub mod ble;
pub mod connection;
pub mod packet;
pub mod time;
pub mod tracker;
pub mod link;
