//! Packet codecs. Byte offsets match what real Control Hubs send and accept.

mod command;
mod gamepad;
mod heartbeat;
mod keep_alive;
mod peer_discovery;
mod telemetry;

pub use command::{
    command_as_sent, command_bytes, command_payload_len, command_round_trip, parse_command, Command,
    CommandView,
};
pub use gamepad::{
    buttons_round_trip, flags_word, default_gamepad, gamepad_bytes, gamepad_layout, gamepad_round_trip,
    parse_gamepad, Gamepad,
};
pub use heartbeat::{heartbeat_bytes, heartbeat_payload_len, heartbeat_round_trip, parse_heartbeat, Heartbeat, HeartbeatView};
pub use keep_alive::{keep_alive_bytes, keep_alive_round_trip, parse_keep_alive, KeepAlive};
pub use peer_discovery::{
    default_peer_discovery, parse_peer_discovery, peer_discovery_bytes, peer_discovery_round_trip,
    peer_type_byte, peer_type_of_byte, PeerDiscovery, PeerType,
};
pub use telemetry::{
    first_value, insert_keeps_sorted, insert_number, insert_number_entry, insert_then_lookup,
    lookup, numbers_view, parse_telemetry, sorted_keys, strings_view, telemetry_bytes,
    telemetry_fits_wire, telemetry_fixed_fields, telemetry_layout, telemetry_round_trip, telemetry_wire_round_trip, BatteryLevel, Telemetry, TelemetryView,
    BATTERY_LEVEL_KEY, NO_VOLTAGE_SENSOR, SYSTEM_KEY_PREFIX,
};

use vstd::prelude::*;

use crate::wire::{utf8, Error};

verus! {

pub const UID_HEARTBEAT: u8 = 1;
pub const UID_GAMEPAD: u8 = 2;
pub const UID_PEER_DISCOVERY: u8 = 3;
pub const UID_COMMAND: u8 = 4;
pub const UID_TELEMETRY: u8 = 5;
pub const UID_KEEP_ALIVE: u8 = 6;

/// A decoded packet of any kind.
#[derive(Debug, Clone, PartialEq)]
pub enum Packet {
    Heartbeat(Heartbeat),
    Gamepad(Gamepad),
    PeerDiscovery(PeerDiscovery),
    Command(Command),
    Telemetry(Telemetry),
    KeepAlive(KeepAlive),
}

/// A packet as a value.
pub enum PacketView {
    Heartbeat(HeartbeatView),
    Gamepad(Gamepad),
    PeerDiscovery(PeerDiscovery),
    Command(CommandView),
    Telemetry(TelemetryView),
    KeepAlive(KeepAlive),
}

impl View for Packet {
    type V = PacketView;

    open spec fn view(&self) -> PacketView {
        match self {
            Packet::Heartbeat(h) => PacketView::Heartbeat(h@),
            Packet::Gamepad(g) => PacketView::Gamepad(*g),
            Packet::PeerDiscovery(p) => PacketView::PeerDiscovery(*p),
            Packet::Command(c) => PacketView::Command(c@),
            Packet::Telemetry(t) => PacketView::Telemetry(t@),
            Packet::KeepAlive(k) => PacketView::KeepAlive(*k),
        }
    }
}

/// The wire bytes of a packet.
pub open spec fn packet_bytes(p: PacketView) -> Seq<u8> {
    match p {
        PacketView::Heartbeat(h) => heartbeat_bytes(h),
        PacketView::Gamepad(g) => gamepad_bytes(g),
        PacketView::PeerDiscovery(d) => peer_discovery_bytes(d),
        PacketView::Command(c) => command_bytes(c),
        PacketView::Telemetry(t) => telemetry_bytes(t),
        PacketView::KeepAlive(k) => keep_alive_bytes(k),
    }
}

/// The conditions under which a packet's fields fit their length fields.
pub open spec fn packet_fits_wire(p: PacketView) -> bool {
    match p {
        PacketView::Heartbeat(h) => utf8(h.timezone_id).len() <= 255,
        PacketView::Command(c) => utf8(c.name).len() <= 65535 && utf8(c.extra).len() <= 65535,
        PacketView::Telemetry(t) => telemetry_fits_wire(t),
        _ => true,
    }
}

/// What the peer receives of a packet: an acknowledgement drops its extra.
pub open spec fn packet_as_sent(p: PacketView) -> PacketView {
    match p {
        PacketView::Command(c) => PacketView::Command(command_as_sent(c)),
        _ => p,
    }
}

/// The packet `buf` holds, chosen by its first byte.
pub open spec fn parse_packet(buf: Seq<u8>) -> Result<PacketView, Error> {
    if buf.len() == 0 {
        Err(Error::Truncated)
    } else if buf[0] == UID_HEARTBEAT {
        match parse_heartbeat(buf) {
            Ok(h) => Ok(PacketView::Heartbeat(h)),
            Err(e) => Err(e),
        }
    } else if buf[0] == UID_GAMEPAD {
        match parse_gamepad(buf) {
            Ok(g) => Ok(PacketView::Gamepad(g)),
            Err(e) => Err(e),
        }
    } else if buf[0] == UID_PEER_DISCOVERY {
        match parse_peer_discovery(buf) {
            Ok(d) => Ok(PacketView::PeerDiscovery(d)),
            Err(e) => Err(e),
        }
    } else if buf[0] == UID_COMMAND {
        match parse_command(buf) {
            Ok(c) => Ok(PacketView::Command(c)),
            Err(e) => Err(e),
        }
    } else if buf[0] == UID_TELEMETRY {
        match parse_telemetry(buf) {
            Ok(t) => Ok(PacketView::Telemetry(t)),
            Err(e) => Err(e),
        }
    } else if buf[0] == UID_KEEP_ALIVE {
        match parse_keep_alive(buf) {
            Ok(k) => Ok(PacketView::KeepAlive(k)),
            Err(e) => Err(e),
        }
    } else {
        Err(Error::UnknownPacketType(buf[0]))
    }
}

pub open spec fn packet_result(r: Result<Packet, Error>) -> Result<PacketView, Error> {
    match r {
        Ok(p) => Ok(p@),
        Err(e) => Err(e),
    }
}

proof fn heartbeat_packet(h: HeartbeatView)
    requires
        utf8(h.timezone_id).len() <= 255,
    ensures
        parse_packet(heartbeat_bytes(h)) == Ok::<PacketView, Error>(PacketView::Heartbeat(h)),
{
    heartbeat_round_trip(h);
    assert(heartbeat_bytes(h)[0] == UID_HEARTBEAT);
}

proof fn gamepad_packet(g: Gamepad)
    ensures
        parse_packet(gamepad_bytes(g)) == Ok::<PacketView, Error>(PacketView::Gamepad(g)),
{
    gamepad_round_trip(g);
    gamepad_layout(g);
}

proof fn peer_discovery_packet(d: PeerDiscovery)
    ensures
        parse_packet(peer_discovery_bytes(d)) == Ok::<PacketView, Error>(
            PacketView::PeerDiscovery(d),
        ),
{
    peer_discovery_round_trip(d);
    assert(peer_discovery_bytes(d)[0] == UID_PEER_DISCOVERY);
}

proof fn command_packet(c: CommandView)
    requires
        utf8(c.name).len() <= 65535,
        utf8(c.extra).len() <= 65535,
    ensures
        parse_packet(command_bytes(c)) == Ok::<PacketView, Error>(
            PacketView::Command(command_as_sent(c)),
        ),
{
    command_round_trip(c);
    assert(command_bytes(c)[0] == UID_COMMAND);
}

proof fn telemetry_packet(t: TelemetryView)
    requires
        telemetry_fits_wire(t),
    ensures
        parse_packet(telemetry_bytes(t)) == Ok::<PacketView, Error>(PacketView::Telemetry(t)),
{
    telemetry_round_trip(t);
    assert(telemetry_bytes(t)[0] == UID_TELEMETRY);
}

proof fn keep_alive_packet(k: KeepAlive)
    ensures
        parse_packet(keep_alive_bytes(k)) == Ok::<PacketView, Error>(PacketView::KeepAlive(k)),
{
    keep_alive_round_trip(k);
    assert(keep_alive_bytes(k)[0] == UID_KEEP_ALIVE);
}

/// Any packet that fits the wire parses back from its bytes as the packet
/// its peer receives.
pub proof fn packet_round_trip(p: PacketView)
    requires
        packet_fits_wire(p),
    ensures
        parse_packet(packet_bytes(p)) == Ok::<PacketView, Error>(packet_as_sent(p)),
{
    match p {
        PacketView::Heartbeat(h) => heartbeat_packet(h),
        PacketView::Gamepad(g) => gamepad_packet(g),
        PacketView::PeerDiscovery(d) => peer_discovery_packet(d),
        PacketView::Command(c) => command_packet(c),
        PacketView::Telemetry(t) => telemetry_packet(t),
        PacketView::KeepAlive(k) => keep_alive_packet(k),
    }
}

impl Packet {
    /// Decodes a packet of any kind, dispatching on its first byte.
    pub fn parse(buf: &[u8]) -> (r: Result<Packet, Error>)
        ensures
            packet_result(r) == parse_packet(buf@),
    {
        if buf.len() == 0 {
            return Err(Error::Truncated);
        }
        let uid = buf[0];
        if uid == UID_HEARTBEAT {
            Ok(Packet::Heartbeat(Heartbeat::parse(buf)?))
        } else if uid == UID_GAMEPAD {
            Ok(Packet::Gamepad(Gamepad::parse(buf)?))
        } else if uid == UID_PEER_DISCOVERY {
            Ok(Packet::PeerDiscovery(PeerDiscovery::parse(buf)?))
        } else if uid == UID_COMMAND {
            Ok(Packet::Command(Command::parse(buf)?))
        } else if uid == UID_TELEMETRY {
            Ok(Packet::Telemetry(Telemetry::parse(buf)?))
        } else if uid == UID_KEEP_ALIVE {
            Ok(Packet::KeepAlive(KeepAlive::parse(buf)?))
        } else {
            Err(Error::UnknownPacketType(uid))
        }
    }
}

} // verus!
