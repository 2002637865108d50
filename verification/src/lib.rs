//! Core of a user-space packet-routing engine: packet codec, TUN ring, DNS
//! snooping, host policy, telemetry and the per-flow state machine, with the
//! behaviour of each piece stated as a contract and proved.

pub mod addr;
pub mod bytes;
pub mod device;
pub mod dns;
pub mod engine;
pub mod ffi;
pub mod flow_manager;
pub mod ip_table;
pub mod logger;
pub mod policy;
pub mod quic;
pub mod rules;
pub mod telemetry;
pub mod text;
