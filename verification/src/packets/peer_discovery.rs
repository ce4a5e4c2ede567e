//! Handshake packet (uid 3). The DS broadcasts this until the RC answers
//! with its own. Layout is legacy/special: 13 bytes total, the length field
//! holds 10 (payload after the 3-byte uid+length prefix) and the sequence
//! number lives at offset 5 instead of 3.

use vstd::prelude::*;

use crate::wire::{self, read_u16, read_u8, u16_be, Error};

verus! {

#[derive(Debug, Clone, Copy, PartialEq, Eq, Structural)]
pub enum PeerType {
    Unset,
    Peer,
    GroupOwner,
    NotConnectedDueToPreexistingConnection,
}

/// The wire byte of a peer type.
pub open spec fn peer_type_byte(t: PeerType) -> u8 {
    match t {
        PeerType::Unset => 0,
        PeerType::Peer => 1,
        PeerType::GroupOwner => 2,
        PeerType::NotConnectedDueToPreexistingConnection => 3,
    }
}

/// The peer type a wire byte denotes; bytes outside 1..=3 read as `Unset`.
pub open spec fn peer_type_of_byte(b: u8) -> PeerType {
    if b == 1 {
        PeerType::Peer
    } else if b == 2 {
        PeerType::GroupOwner
    } else if b == 3 {
        PeerType::NotConnectedDueToPreexistingConnection
    } else {
        PeerType::Unset
    }
}

impl PeerType {
    pub fn from_byte(b: u8) -> (t: PeerType)
        ensures
            t == peer_type_of_byte(b),
    {
        match b {
            1 => PeerType::Peer,
            2 => PeerType::GroupOwner,
            3 => PeerType::NotConnectedDueToPreexistingConnection,
            _ => PeerType::Unset,
        }
    }

    pub fn to_byte(self) -> (b: u8)
        ensures
            b == peer_type_byte(self),
    {
        match self {
            PeerType::Unset => 0,
            PeerType::Peer => 1,
            PeerType::GroupOwner => 2,
            PeerType::NotConnectedDueToPreexistingConnection => 3,
        }
    }
}

impl Default for PeerType {
    fn default() -> (t: PeerType)
        ensures
            t == PeerType::Peer,
    {
        PeerType::Peer
    }
}

#[derive(Debug, Clone, Copy, PartialEq, Eq, Structural)]
pub struct PeerDiscovery {
    pub seq: u16,
    pub robocol_version: u8,
    pub peer_type: PeerType,
    pub sdk_build_month: u8,
    pub sdk_build_year: u16,
    pub sdk_major_version: u8,
    pub sdk_minor_version: u8,
}

/// The discovery packet this Driver Station advertises.
pub open spec fn default_peer_discovery() -> PeerDiscovery {
    PeerDiscovery {
        seq: 0,
        robocol_version: 124,
        peer_type: PeerType::Peer,
        sdk_build_month: 7,
        sdk_build_year: 2026,
        sdk_major_version: 11,
        sdk_minor_version: 2,
    }
}

impl Default for PeerDiscovery {
    fn default() -> (p: PeerDiscovery)
        ensures
            p == default_peer_discovery(),
    {
        PeerDiscovery {
            seq: 0,
            robocol_version: 124,
            peer_type: PeerType::Peer,
            sdk_build_month: 7,
            sdk_build_year: 2026,
            sdk_major_version: 11,
            sdk_minor_version: 2,
        }
    }
}

/// The 13 wire bytes of a discovery packet.
pub open spec fn peer_discovery_bytes(p: PeerDiscovery) -> Seq<u8> {
    seq![super::UID_PEER_DISCOVERY] + u16_be(10) + seq![
        p.robocol_version,
        peer_type_byte(p.peer_type),
    ] + u16_be(p.seq) + seq![p.sdk_build_month] + u16_be(p.sdk_build_year) + seq![
        p.sdk_major_version,
        p.sdk_minor_version,
        0u8,
    ]
}

/// The discovery packet `buf` holds.
pub open spec fn parse_peer_discovery(buf: Seq<u8>) -> Result<PeerDiscovery, Error> {
    if buf.len() < 12 {
        Err(Error::Truncated)
    } else {
        Ok(
            PeerDiscovery {
                robocol_version: buf[3],
                peer_type: peer_type_of_byte(buf[4]),
                seq: wire::u16_of(buf[5], buf[6]),
                sdk_build_month: buf[7],
                sdk_build_year: wire::u16_of(buf[8], buf[9]),
                sdk_major_version: buf[10],
                sdk_minor_version: buf[11],
            },
        )
    }
}

impl PeerDiscovery {
    pub const TOTAL_LEN: usize = 13;

    pub fn serialize(&self) -> (buf: Vec<u8>)
        ensures
            buf@ == peer_discovery_bytes(*self),
    {
        let mut buf = vec![0u8; 13];
        buf[0] = super::UID_PEER_DISCOVERY;
        wire::put_u16(buf.as_mut_slice(), 1, 10);
        buf[3] = self.robocol_version;
        buf[4] = self.peer_type.to_byte();
        wire::put_u16(buf.as_mut_slice(), 5, self.seq);
        buf[7] = self.sdk_build_month;
        wire::put_u16(buf.as_mut_slice(), 8, self.sdk_build_year);
        buf[10] = self.sdk_major_version;
        buf[11] = self.sdk_minor_version;
        assert(buf@ =~= peer_discovery_bytes(*self));
        buf
    }

    pub fn parse(buf: &[u8]) -> (r: Result<PeerDiscovery, Error>)
        ensures
            r == parse_peer_discovery(buf@),
    {
        Ok(
            PeerDiscovery {
                robocol_version: wire::get_u8(buf, 3)?,
                peer_type: PeerType::from_byte(wire::get_u8(buf, 4)?),
                seq: wire::get_u16(buf, 5)?,
                sdk_build_month: wire::get_u8(buf, 7)?,
                sdk_build_year: wire::get_u16(buf, 8)?,
                sdk_major_version: wire::get_u8(buf, 10)?,
                sdk_minor_version: wire::get_u8(buf, 11)?,
            },
        )
    }
}

/// Parsing the bytes of a discovery packet gives it back.
pub proof fn peer_discovery_round_trip(p: PeerDiscovery)
    ensures
        parse_peer_discovery(peer_discovery_bytes(p)) == Ok::<PeerDiscovery, Error>(p),
{
    wire::u16_round_trip(p.seq);
    wire::u16_round_trip(p.sdk_build_year);
    let b = peer_discovery_bytes(p);
    assert(b.len() == 13);
    assert(b[5] == u16_be(p.seq)[0] && b[6] == u16_be(p.seq)[1]);
    assert(b[8] == u16_be(p.sdk_build_year)[0] && b[9] == u16_be(p.sdk_build_year)[1]);
}

} // verus!
