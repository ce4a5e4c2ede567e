//! Command packet (uid 4): a named RPC with a string payload (`extra`,
//! usually JSON). Commands are acked: the receiver echoes name + timestamp
//! with `acknowledged = true`, and senders retransmit until acked.

use vstd::prelude::*;

use crate::wire::{
    self, header, i64_be, read_i64, read_str_u16, read_u16, read_u8, str_u16_field, utf8, zeros,
    Error,
};

verus! {

#[derive(Debug, Clone, PartialEq)]
pub struct Command {
    pub seq: u16,
    pub timestamp: i64,
    pub acknowledged: bool,
    pub name: String,
    pub extra: String,
}

/// A command as a value: its strings taken as their characters.
pub struct CommandView {
    pub seq: u16,
    pub timestamp: i64,
    pub acknowledged: bool,
    pub name: Seq<char>,
    pub extra: Seq<char>,
}

impl View for Command {
    type V = CommandView;

    open spec fn view(&self) -> CommandView {
        CommandView {
            seq: self.seq,
            timestamp: self.timestamp,
            acknowledged: self.acknowledged,
            name: self.name@,
            extra: self.extra@,
        }
    }
}

/// Payload length: ts(8) + acked(1) + name field, plus the extra field on
/// an unacknowledged command.
pub open spec fn command_payload_len(c: CommandView) -> nat {
    11 + utf8(c.name).len() + if c.acknowledged {
        0
    } else {
        2 + utf8(c.extra).len()
    }
}

/// The wire bytes of a command; an acknowledgement carries no extra.
pub open spec fn command_bytes(c: CommandView) -> Seq<u8> {
    header(super::UID_COMMAND, command_payload_len(c), c.seq) + i64_be(c.timestamp) + seq![
        if c.acknowledged {
            1u8
        } else {
            0u8
        },
    ] + str_u16_field(utf8(c.name)) + if c.acknowledged {
        Seq::<u8>::empty()
    } else {
        str_u16_field(utf8(c.extra))
    }
}

/// The command `buf` holds: the acknowledged flag at 13 decides whether an
/// extra field follows the name at 14.
pub open spec fn parse_command(buf: Seq<u8>) -> Result<CommandView, Error> {
    match read_u8(buf, 13) {
        Err(e) => Err(e),
        Ok(ack_byte) => {
            let acknowledged = ack_byte != 0;
            match read_str_u16(buf, 14) {
                Err(e) => Err(e),
                Ok((name, off)) => {
                    let extra: Result<Seq<char>, Error> = if acknowledged {
                        Ok(Seq::empty())
                    } else {
                        match read_str_u16(buf, off) {
                            Ok((x, _)) => Ok(x),
                            Err(e) => Err(e),
                        }
                    };
                    match (extra, read_u16(buf, 3), read_i64(buf, 5)) {
                        (Err(e), _, _) => Err(e),
                        (Ok(extra), Ok(seq), Ok(timestamp)) => Ok(
                            CommandView { seq, timestamp, acknowledged, name, extra },
                        ),
                        _ => Err(Error::Truncated),
                    }
                },
            }
        },
    }
}

pub open spec fn command_result(r: Result<Command, Error>) -> Result<CommandView, Error> {
    match r {
        Ok(c) => Ok(c@),
        Err(e) => Err(e),
    }
}

impl Command {
    /// True when the command's wire size fits the address space.
    pub open spec fn fits(&self) -> bool {
        command_payload_len(self@) + 5 <= usize::MAX
    }

    pub fn new(name: &str, extra: &str, timestamp: i64) -> (c: Command)
        ensures
            c.seq == 0,
            c.timestamp == timestamp,
            !c.acknowledged,
            c.name@ == name@,
            c.extra@ == extra@,
    {
        Command {
            seq: 0,
            timestamp,
            acknowledged: false,
            name: name.to_owned(),
            extra: extra.to_owned(),
        }
    }

    /// The acknowledgement of `other`: same sequence number, name and
    /// timestamp, flagged acknowledged, with no extra.
    pub fn ack_of(other: &Command) -> (c: Command)
        ensures
            c.seq == other.seq,
            c.timestamp == other.timestamp,
            c.acknowledged,
            c.name@ == other.name@,
            c.extra@ == Seq::<char>::empty(),
    {
        Command {
            seq: other.seq,
            timestamp: other.timestamp,
            acknowledged: true,
            name: other.name.clone(),
            extra: String::new(),
        }
    }

    pub fn serialize(&self) -> (buf: Vec<u8>)
        requires
            self.fits(),
        ensures
            buf@ == command_bytes(self@),
    {
        let name = self.name.as_str().as_bytes();
        let extra = self.extra.as_str().as_bytes();
        assert(name@ == utf8(self.name@));
        assert(extra@ == utf8(self.extra@));
        let n = name.len();
        let e = extra.len();
        let payload = 11 + n + if self.acknowledged {
            0
        } else {
            2 + e
        };
        let mut buf = wire::with_header(super::UID_COMMAND, payload, self.seq);
        let ghost hdr = header(super::UID_COMMAND, payload as nat, self.seq);
        wire::put_i64(buf.as_mut_slice(), 5, self.timestamp);
        proof {
            wire::write_after_prefix(hdr, payload as nat, i64_be(self.timestamp));
        }
        let ghost p1 = hdr + i64_be(self.timestamp);
        let ack_byte: u8 = if self.acknowledged {
            1
        } else {
            0
        };
        buf[13] = ack_byte;
        let ghost p2 = p1 + seq![ack_byte];
        assert(buf@ =~= p2 + zeros((payload - 9) as nat));
        let off = wire::put_str_u16(buf.as_mut_slice(), 14, name);
        proof {
            wire::write_after_prefix(p2, (payload - 9) as nat, str_u16_field(name@));
        }
        let ghost p3 = p2 + str_u16_field(name@);
        if !self.acknowledged {
            wire::put_str_u16(buf.as_mut_slice(), off, extra);
            proof {
                wire::write_after_prefix(p3, (payload - 11 - n) as nat, str_u16_field(extra@));
            }
        }
        assert(buf@ =~= command_bytes(self@));
        buf
    }

    pub fn parse(buf: &[u8]) -> (r: Result<Command, Error>)
        ensures
            command_result(r) == parse_command(buf@),
    {
        let acknowledged = wire::get_u8(buf, 13)? != 0;
        let (name, off) = wire::get_str_u16(buf, 14)?;
        let extra = if acknowledged {
            String::new()
        } else {
            wire::get_str_u16(buf, off)?.0
        };
        Ok(
            Command {
                seq: wire::get_u16(buf, 3)?,
                timestamp: wire::get_i64(buf, 5)?,
                acknowledged,
                name,
                extra,
            },
        )
    }
}

/// The command that comes back from the wire: an acknowledgement carries no
/// extra, so it reads back empty.
pub open spec fn command_as_sent(c: CommandView) -> CommandView {
    CommandView {
        extra: if c.acknowledged {
            Seq::empty()
        } else {
            c.extra
        },
        ..c
    }
}

/// Parsing the bytes of a command whose strings fit their `u16` length
/// fields gives the command back (an acknowledgement with its extra emptied).
pub proof fn command_round_trip(c: CommandView)
    requires
        utf8(c.name).len() <= 65535,
        utf8(c.extra).len() <= 65535,
    ensures
        parse_command(command_bytes(c)) == Ok::<CommandView, Error>(command_as_sent(c)),
{
    let name = utf8(c.name);
    let extra = utf8(c.extra);
    let ack_byte: u8 = if c.acknowledged {
        1u8
    } else {
        0u8
    };
    let hdr = header(super::UID_COMMAND, command_payload_len(c), c.seq);
    let pre = hdr + i64_be(c.timestamp) + seq![ack_byte];
    let tail = if c.acknowledged {
        Seq::<u8>::empty()
    } else {
        str_u16_field(extra)
    };
    let b = command_bytes(c);
    assert(b == pre + str_u16_field(name) + tail);
    assert(pre.len() == 14);
    wire::u16_round_trip(c.seq);
    wire::i64_round_trip(c.timestamp);
    wire::u16_round_trip(name.len() as u16);
    assert(b.subrange(5, 13) =~= i64_be(c.timestamp));
    assert(b[3] == wire::u16_be(c.seq)[0] && b[4] == wire::u16_be(c.seq)[1]);
    assert(b[13] == ack_byte);
    assert(b[14] == wire::u16_be(name.len() as u16)[0]);
    assert(b[15] == wire::u16_be(name.len() as u16)[1]);
    let pre2 = pre + wire::u16_be(name.len() as u16);
    assert(b =~= pre2 + name + tail);
    wire::read_str_of_utf8(pre2, c.name, tail);
    if !c.acknowledged {
        let off: int = 16 + name.len() as int;
        wire::u16_round_trip(extra.len() as u16);
        let pre3 = pre2 + name;
        assert(pre3.len() == off);
        assert(b[off] == wire::u16_be(extra.len() as u16)[0]);
        assert(b[off + 1] == wire::u16_be(extra.len() as u16)[1]);
        let pre4 = pre3 + wire::u16_be(extra.len() as u16);
        assert(b =~= pre4 + extra + Seq::<u8>::empty());
        wire::read_str_of_utf8(pre4, c.extra, Seq::<u8>::empty());
    }
}

} // verus!
