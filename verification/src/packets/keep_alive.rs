//! KeepAlive packet (uid 6): single-byte id, minimal liveness signal.

use vstd::prelude::*;

use crate::wire::{self, header, read_u16, read_u8, zeros, Error};

verus! {

#[derive(Debug, Clone, Copy, PartialEq, Eq, Structural)]
pub struct KeepAlive {
    pub seq: u16,
    pub id: u8,
}

impl Default for KeepAlive {
    fn default() -> (k: KeepAlive)
        ensures
            k == (KeepAlive { seq: 0, id: 0 }),
    {
        KeepAlive { seq: 0, id: 0 }
    }
}

/// Wire bytes of a KeepAlive: the header, then the id.
pub open spec fn keep_alive_bytes(k: KeepAlive) -> Seq<u8> {
    header(super::UID_KEEP_ALIVE, 1, k.seq) + seq![k.id]
}

/// The KeepAlive that `buf` holds: sequence number at 3, id at 5.
pub open spec fn parse_keep_alive(buf: Seq<u8>) -> Result<KeepAlive, Error> {
    match read_u16(buf, 3) {
        Ok(seq) => match read_u8(buf, 5) {
            Ok(id) => Ok(KeepAlive { seq, id }),
            Err(e) => Err(e),
        },
        Err(e) => Err(e),
    }
}

impl KeepAlive {
    pub fn serialize(&self) -> (buf: Vec<u8>)
        ensures
            buf@ == keep_alive_bytes(*self),
    {
        let mut buf = wire::with_header(super::UID_KEEP_ALIVE, 1, self.seq);
        buf[5] = self.id;
        assert(buf@ =~= keep_alive_bytes(*self));
        buf
    }

    pub fn parse(buf: &[u8]) -> (r: Result<KeepAlive, Error>)
        ensures
            r == parse_keep_alive(buf@),
    {
        Ok(KeepAlive { seq: wire::get_u16(buf, 3)?, id: wire::get_u8(buf, 5)? })
    }
}

/// Parsing the bytes of a KeepAlive gives it back.
pub proof fn keep_alive_round_trip(k: KeepAlive)
    ensures
        parse_keep_alive(keep_alive_bytes(k)) == Ok::<KeepAlive, Error>(k),
{
    wire::u16_round_trip(k.seq);
}

} // verus!
