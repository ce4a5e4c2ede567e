//! FTC Robocol: the UDP protocol spoken between the Driver Station and the
//! Robot Controller (Control Hub).
//!
//! Both peers bind UDP port [`ROBOCOL_PORT`]. The Driver Station broadcasts
//! a peer-discovery packet until the Robot Controller answers, then keeps the
//! link alive with heartbeats. Everything else rides on command, gamepad and
//! telemetry packets.
//!
//! Every codec in this crate is specified by a pure byte-level model, and the
//! round-trip laws between serializers and parsers are proved. The session
//! ([`client`]) is a state machine whose steps are specified as functions
//! from state to state and actions; camera streams ([`video`]) and packet
//! captures ([`capture`]) are read by functions specified on their bytes,
//! and a capture is reported on line by line. A stand-in Robot Controller
//! ([`fake_rc`]) is a state machine too.

pub mod base64;
pub mod capture;
pub mod chunked;
pub mod client;
pub mod fake_rc;
pub mod cmd;
pub mod packets;
pub mod text;
pub mod tracked_rc;
pub mod types;
pub mod video;
pub mod wire;

pub use packets::Packet;
pub use types::RobotState;

use vstd::prelude::*;

verus! {

/// UDP port both peers bind.
pub const ROBOCOL_PORT: u16 = 20884;

/// Default addresses a Control Hub (.43.1) or RC phone (.49.1) answers on.
pub const DEFAULT_PEER_ADDRS: [&'static str; 2] = ["192.168.43.1", "192.168.49.1"];

} // verus!
