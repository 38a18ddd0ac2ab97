//! EA SPORTS F1 UDP telemetry.
//!
//! Packet identity selects a protocol-specific decoder before any packet
//! layout is interpreted.
pub mod decode_laws;
pub mod diagnostics;
pub mod diagnostics_laws;
pub mod drain;
pub mod f1_2025;
pub mod f1_2026;
pub mod frame_laws;
pub mod layout;
pub mod packet_laws;
pub mod protocol;
pub mod router;
pub mod state;
pub mod state_laws;
