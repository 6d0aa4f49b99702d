//! Verified core of a motion-tracking backend: the wire format of tracker
//! packets, stream reassembly, link-quality bookkeeping, tracker-to-bone
//! assignment, translations and configuration defaults.

pub mod net;
pub mod fusion;
pub mod imu;
pub mod skeleton;
pub mod i18n;
pub mod backpress;
pub mod config;
pub mod connection_type;
pub mod theme;
pub mod recording;
pub mod settings;
pub mod text;
pub mod i18n_sweep;
