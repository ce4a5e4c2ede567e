//! Heartbeat packet (uid 1): liveness + clock sync, sent by the DS every
//! ~200 ms once a peer is known. The RC's replies carry its current
//! RobotState. (Distinct from the minimal KeepAlive packet, uid 6.)

use vstd::prelude::*;

use crate::types::{robot_state_byte, robot_state_of_byte, RobotState};
use crate::wire::{
    self, header, i64_be, read_i64, read_str_u8, read_u16, read_u8, str_u8_field, utf8, zeros,
    Error,
};

verus! {

#[derive(Debug, Clone, PartialEq)]
pub struct Heartbeat {
    pub seq: u16,
    /// Nanoseconds (the stock DS sends wall-clock ms * 1e6).
    pub timestamp: i64,
    pub robot_state: RobotState,
    /// Clock-sync scratch values; the DS fills t0, the RC echoes/fills t1/t2.
    pub t0: i64,
    pub t1: i64,
    pub t2: i64,
    pub timezone_id: String,
}

/// A heartbeat as a value: its string taken as its characters.
pub struct HeartbeatView {
    pub seq: u16,
    pub timestamp: i64,
    pub robot_state: RobotState,
    pub t0: i64,
    pub t1: i64,
    pub t2: i64,
    pub timezone_id: Seq<char>,
}

impl View for Heartbeat {
    type V = HeartbeatView;

    open spec fn view(&self) -> HeartbeatView {
        HeartbeatView {
            seq: self.seq,
            timestamp: self.timestamp,
            robot_state: self.robot_state,
            t0: self.t0,
            t1: self.t1,
            t2: self.t2,
            timezone_id: self.timezone_id@,
        }
    }
}

impl Default for Heartbeat {
    fn default() -> (h: Heartbeat)
        ensures
            h.seq == 0,
            h.timestamp == 0,
            h.robot_state == RobotState::Unknown,
            h.t0 == 0,
            h.t1 == 0,
            h.t2 == 0,
            h.timezone_id@ == "GMT"@,
    {
        Heartbeat {
            seq: 0,
            timestamp: 0,
            robot_state: RobotState::Unknown,
            t0: 0,
            t1: 0,
            t2: 0,
            timezone_id: "GMT".to_owned(),
        }
    }
}

/// Payload length of a heartbeat: ts(8) + state(1) + t0..t2(24) +
/// timezone length(1) + timezone bytes.
pub open spec fn heartbeat_payload_len(h: HeartbeatView) -> nat {
    34 + utf8(h.timezone_id).len()
}

/// The wire bytes of a heartbeat.
pub open spec fn heartbeat_bytes(h: HeartbeatView) -> Seq<u8> {
    header(super::UID_HEARTBEAT, heartbeat_payload_len(h), h.seq) + i64_be(h.timestamp) + seq![
        robot_state_byte(h.robot_state),
    ] + i64_be(h.t0) + i64_be(h.t1) + i64_be(h.t2) + str_u8_field(utf8(h.timezone_id))
}

/// The heartbeat `buf` holds, fields read in declaration order.
pub open spec fn parse_heartbeat(buf: Seq<u8>) -> Result<HeartbeatView, Error> {
    match (
        read_u16(buf, 3),
        read_i64(buf, 5),
        read_u8(buf, 13),
        read_i64(buf, 14),
        read_i64(buf, 22),
        read_i64(buf, 30),
    ) {
        (Ok(seq), Ok(timestamp), Ok(state), Ok(t0), Ok(t1), Ok(t2)) => match read_str_u8(buf, 38) {
            Ok((tz, _)) => Ok(
                HeartbeatView {
                    seq,
                    timestamp,
                    robot_state: robot_state_of_byte(state),
                    t0,
                    t1,
                    t2,
                    timezone_id: tz,
                },
            ),
            Err(e) => Err(e),
        },
        _ => Err(Error::Truncated),
    }
}

pub open spec fn heartbeat_result(r: Result<Heartbeat, Error>) -> Result<HeartbeatView, Error> {
    match r {
        Ok(h) => Ok(h@),
        Err(e) => Err(e),
    }
}

impl Heartbeat {
    /// True when the heartbeat's wire size fits the address space.
    pub open spec fn fits(&self) -> bool {
        heartbeat_payload_len(self@) + 5 <= usize::MAX
    }

    pub fn serialize(&self) -> (buf: Vec<u8>)
        requires
            self.fits(),
        ensures
            buf@ == heartbeat_bytes(self@),
    {
        let tz = self.timezone_id.as_str().as_bytes();
        assert(tz@ == utf8(self.timezone_id@));
        let n = tz.len();
        let mut buf = wire::with_header(super::UID_HEARTBEAT, 34 + n, self.seq);
        let ghost hdr = header(super::UID_HEARTBEAT, (34 + n) as nat, self.seq);
        wire::put_i64(buf.as_mut_slice(), 5, self.timestamp);
        proof {
            wire::write_after_prefix(hdr, (34 + n) as nat, i64_be(self.timestamp));
        }
        let ghost p1 = hdr + i64_be(self.timestamp);
        buf[13] = self.robot_state.to_byte();
        let ghost p2 = p1 + seq![robot_state_byte(self.robot_state)];
        assert(buf@ =~= p2 + zeros((25 + n) as nat));
        wire::put_i64(buf.as_mut_slice(), 14, self.t0);
        proof {
            wire::write_after_prefix(p2, (25 + n) as nat, i64_be(self.t0));
        }
        let ghost p3 = p2 + i64_be(self.t0);
        wire::put_i64(buf.as_mut_slice(), 22, self.t1);
        proof {
            wire::write_after_prefix(p3, (17 + n) as nat, i64_be(self.t1));
        }
        let ghost p4 = p3 + i64_be(self.t1);
        wire::put_i64(buf.as_mut_slice(), 30, self.t2);
        proof {
            wire::write_after_prefix(p4, (9 + n) as nat, i64_be(self.t2));
        }
        let ghost p5 = p4 + i64_be(self.t2);
        wire::put_str_u8(buf.as_mut_slice(), 38, tz);
        proof {
            wire::write_after_prefix(p5, (1 + n) as nat, str_u8_field(tz@));
        }
        assert(buf@ =~= heartbeat_bytes(self@));
        buf
    }

    pub fn parse(buf: &[u8]) -> (r: Result<Heartbeat, Error>)
        ensures
            heartbeat_result(r) == parse_heartbeat(buf@),
    {
        Ok(
            Heartbeat {
                seq: wire::get_u16(buf, 3)?,
                timestamp: wire::get_i64(buf, 5)?,
                robot_state: RobotState::from_byte(wire::get_u8(buf, 13)?),
                t0: wire::get_i64(buf, 14)?,
                t1: wire::get_i64(buf, 22)?,
                t2: wire::get_i64(buf, 30)?,
                timezone_id: wire::get_str_u8(buf, 38)?.0,
            },
        )
    }
}

/// Parsing the bytes of a heartbeat whose timezone fits the one-byte length
/// field gives the heartbeat back.
pub proof fn heartbeat_round_trip(h: HeartbeatView)
    requires
        utf8(h.timezone_id).len() <= 255,
    ensures
        parse_heartbeat(heartbeat_bytes(h)) == Ok::<HeartbeatView, Error>(h),
{
    let tz = utf8(h.timezone_id);
    let hdr = header(super::UID_HEARTBEAT, heartbeat_payload_len(h), h.seq);
    let b = heartbeat_bytes(h);
    let pre = hdr + i64_be(h.timestamp) + seq![robot_state_byte(h.robot_state)] + i64_be(h.t0)
        + i64_be(h.t1) + i64_be(h.t2);
    assert(b == pre + str_u8_field(tz));
    assert(pre.len() == 38);
    wire::u16_round_trip(h.seq);
    wire::i64_round_trip(h.timestamp);
    wire::i64_round_trip(h.t0);
    wire::i64_round_trip(h.t1);
    wire::i64_round_trip(h.t2);
    assert(b.subrange(5, 13) =~= i64_be(h.timestamp));
    assert(b.subrange(14, 22) =~= i64_be(h.t0));
    assert(b.subrange(22, 30) =~= i64_be(h.t1));
    assert(b.subrange(30, 38) =~= i64_be(h.t2));
    assert(b[3] == wire::u16_be(h.seq)[0] && b[4] == wire::u16_be(h.seq)[1]);
    assert(b[13] == robot_state_byte(h.robot_state));
    assert(b[38] == tz.len() as u8);
    assert(b =~= (pre + seq![tz.len() as u8]) + tz + Seq::<u8>::empty());
    wire::read_str_of_utf8(pre + seq![tz.len() as u8], h.timezone_id, Seq::<u8>::empty());
    crate::types::robot_state_byte_round_trip(h.robot_state);
}

} // verus!
