//! Link, IP and UDP unwrapping, including IPv4 reassembly. Reassembly is not
//! optional here: a CMD_NOTIFY_OP_MODE_LIST with a full OpMode registry, a
//! config XML response, or a large webcam frame chunk all exceed the MTU and
//! arrive fragmented. Without it the interesting payloads are exactly the
//! ones that cannot be read.

use vstd::prelude::*;
use vstd::slice::{slice_subrange, slice_to_vec};

use super::pcap::{frames_view, Frame, FrameView, Timestamp};
use crate::client::{Endpoint, Ip};
use crate::packets::{parse_packet, Packet, PacketView};
use crate::text;

verus! {

broadcast use vstd::seq_lib::group_seq_properties;

pub const LINKTYPE_NULL: u32 = 0;
pub const LINKTYPE_ETHERNET: u32 = 1;
pub const LINKTYPE_RAW: u32 = 101;
pub const LINKTYPE_LINUX_SLL: u32 = 113;
pub const LINKTYPE_LINUX_SLL2: u32 = 276;

pub const PROTO_UDP: u8 = 17;

/// One UDP datagram: when its (first) frame was captured, its endpoints,
/// its payload, and whether it was reassembled from fragments.
#[derive(Debug, Clone, PartialEq)]
pub struct Datagram {
    pub ts: Timestamp,
    pub src: Ip,
    pub dst: Ip,
    pub sport: u16,
    pub dport: u16,
    pub payload: Vec<u8>,
    pub fragmented: bool,
}

pub struct DatagramView {
    pub ts: Timestamp,
    pub src: Ip,
    pub dst: Ip,
    pub sport: u16,
    pub dport: u16,
    pub payload: Seq<u8>,
    pub fragmented: bool,
}

impl View for Datagram {
    type V = DatagramView;

    open spec fn view(&self) -> DatagramView {
        DatagramView {
            ts: self.ts,
            src: self.src,
            dst: self.dst,
            sport: self.sport,
            dport: self.dport,
            payload: self.payload@,
            fragmented: self.fragmented,
        }
    }
}

pub open spec fn datagrams_view(v: Seq<Datagram>) -> Seq<DatagramView> {
    v.map_values(|d: Datagram| d@)
}

// ---------------------------------------------------------------------------
// The layers
// ---------------------------------------------------------------------------

/// The big-endian `u16` at `off` of `b`.
pub open spec fn be16(b: Seq<u8>, off: int) -> u16 {
    (256 * b[off] + b[off + 1]) as u16
}

/// The big-endian number the bytes `b` spell.
pub open spec fn be_num(b: Seq<u8>) -> nat
    decreases b.len(),
{
    if b.len() == 0 {
        0
    } else {
        be_num(b.drop_last()) * 256 + b.last() as nat
    }
}

/// Past the Ethernet header at `pos`, VLAN tags (0x8100, 0x88a8) are
/// skipped; the position and EtherType after them, if the frame holds them.
pub open spec fn vlan_walk(data: Seq<u8>, pos: int, et: u16) -> Option<(int, u16)>
    decreases data.len() - pos,
{
    if et == 0x8100 || et == 0x88a8 {
        if 0 <= pos && pos + 4 <= data.len() {
            vlan_walk(data, pos + 4, be16(data, pos + 2))
        } else {
            None
        }
    } else {
        Some((pos, et))
    }
}

pub open spec fn is_ip_type(et: u16) -> bool {
    et == 0x0800 || et == 0x86dd
}

/// Where the IP packet in a frame of link type `linktype` starts.
pub open spec fn ip_start(linktype: u32, data: Seq<u8>) -> Option<int> {
    if linktype == LINKTYPE_ETHERNET {
        if data.len() < 14 {
            None
        } else {
            match vlan_walk(data, 14, be16(data, 12)) {
                Some((pos, et)) => if is_ip_type(et) && pos <= data.len() {
                    Some(pos)
                } else {
                    None
                },
                None => None,
            }
        }
    } else if linktype == LINKTYPE_LINUX_SLL {
        if data.len() >= 16 && is_ip_type(be16(data, 14)) {
            Some(16)
        } else {
            None
        }
    } else if linktype == LINKTYPE_LINUX_SLL2 {
        if data.len() >= 20 && is_ip_type(be16(data, 0)) {
            Some(20)
        } else {
            None
        }
    } else if linktype == LINKTYPE_RAW {
        Some(0)
    } else if linktype == LINKTYPE_NULL {
        if data.len() >= 4 {
            Some(4)
        } else {
            None
        }
    } else {
        None
    }
}

/// The datagram a UDP packet `body` carries: its length field bounds the
/// payload when it is at least the header's 8 bytes.
pub open spec fn udp_of(ts: Timestamp, src: Ip, dst: Ip, body: Seq<u8>, fragmented: bool) -> Option<
    DatagramView,
> {
    if body.len() < 8 {
        None
    } else {
        let len = be16(body, 4) as int;
        let end = if len >= 8 {
            if len < body.len() {
                len
            } else {
                body.len() as int
            }
        } else {
            body.len() as int
        };
        Some(
            DatagramView {
                ts,
                src,
                dst,
                sport: be16(body, 0),
                dport: be16(body, 2),
                payload: body.subrange(8, end),
                fragmented,
            },
        )
    }
}

/// The datagram of an IPv6 packet, if it carries UDP right after its fixed
/// header.
pub open spec fn v6_datagram(ts: Timestamp, ip: Seq<u8>) -> Option<DatagramView> {
    if ip.len() < 40 || ip[6] != PROTO_UDP {
        None
    } else {
        udp_of(
            ts,
            Ip::V6(be_num(ip.subrange(8, 24)) as u128),
            Ip::V6(be_num(ip.subrange(24, 40)) as u128),
            ip.skip(40),
            false,
        )
    }
}

// ---------------------------------------------------------------------------
// IPv4 reassembly
// ---------------------------------------------------------------------------

/// Fragments are grouped by source, destination and identification.
pub type FragKey = (u32, u32, u16);

/// The fragments of one datagram seen so far: each with its byte offset,
/// the total length once the last fragment is seen, and when the first one
/// arrived.
pub struct PendingView {
    pub chunks: Seq<(nat, Seq<u8>)>,
    pub total: Option<nat>,
    pub ts: Timestamp,
}

/// The bytes `chunks` fill into `total` bytes, and which bytes they fill;
/// later chunks overwrite earlier ones, and what lies past `total` is cut.
pub open spec fn fill(chunks: Seq<(nat, Seq<u8>)>, total: nat) -> (Seq<u8>, Seq<bool>)
    decreases chunks.len(),
{
    if chunks.len() == 0 {
        (Seq::new(total, |i: int| 0u8), Seq::new(total, |i: int| false))
    } else {
        let (b, f) = fill(chunks.drop_last(), total);
        let (off, c) = chunks.last();
        if off >= total {
            (b, f)
        } else {
            let hi: int = if off + c.len() < total {
                (off + c.len()) as int
            } else {
                total as int
            };
            (
                b.take(off as int) + c.take(hi - off) + b.skip(hi),
                f.take(off as int) + Seq::new((hi - off) as nat, |i: int| true) + f.skip(hi),
            )
        }
    }
}

/// `c` is a piece of `d`: the bytes of `d` at the offset it claims.
pub open spec fn is_piece_of(c: (nat, Seq<u8>), d: Seq<u8>) -> bool {
    c.0 + c.1.len() <= d.len() && c.1 == d.subrange(c.0 as int, (c.0 + c.1.len()) as int)
}

/// Some chunk of `chunks` holds byte `i`.
pub open spec fn covers(chunks: Seq<(nat, Seq<u8>)>, i: int) -> bool
    decreases chunks.len(),
{
    if chunks.len() == 0 {
        false
    } else {
        covers(chunks.drop_last(), i) || (chunks.last().0 <= i < chunks.last().0
            + chunks.last().1.len())
    }
}

proof fn fill_pieces(chunks: Seq<(nat, Seq<u8>)>, d: Seq<u8>)
    requires
        forall|k: int| 0 <= k < chunks.len() ==> is_piece_of(#[trigger] chunks[k], d),
    ensures
        ({
            let (b, f) = fill(chunks, d.len());
            &&& b.len() == d.len()
            &&& f.len() == d.len()
            &&& forall|i: int|
                0 <= i < d.len() ==> #[trigger] f[i] == covers(chunks, i) && (covers(chunks, i)
                    ==> b[i] == d[i])
        }),
    decreases chunks.len(),
{
    if chunks.len() > 0 {
        let init = chunks.drop_last();
        assert forall|k: int| 0 <= k < init.len() implies is_piece_of(#[trigger] init[k], d) by {
            assert(init[k] == chunks[k]);
        }
        fill_pieces(init, d);
        let (off, c) = chunks.last();
        assert(is_piece_of(chunks[chunks.len() - 1], d));
        let (b1, f1) = fill(init, d.len());
        let (b, f) = fill(chunks, d.len());
        if off < d.len() {
            let hi = off + c.len();
            assert forall|i: int| 0 <= i < d.len() implies #[trigger] f[i] == covers(chunks, i) && (
            covers(chunks, i) ==> b[i] == d[i]) by {
                if off <= i < hi {
                    assert(b[i] == c[i - off]);
                    assert(c[i - off] == d.subrange(off as int, hi as int)[i - off]);
                } else if i < off {
                    assert(b[i] == b1[i]);
                    assert(f[i] == f1[i]);
                } else {
                    assert(b[i] == b1[i]);
                    assert(f[i] == f1[i]);
                }
            }
        }
    }
}

/// Reassembly gives back the datagram: fragments that are pieces of a
/// datagram and together hold all of its bytes fill exactly its bytes, and
/// all of them, whatever their order, overlaps and repetitions.
pub proof fn reassembly_restores(chunks: Seq<(nat, Seq<u8>)>, d: Seq<u8>)
    requires
        forall|k: int| 0 <= k < chunks.len() ==> is_piece_of(#[trigger] chunks[k], d),
        forall|i: int| 0 <= i < d.len() ==> #[trigger] covers(chunks, i),
    ensures
        fill(chunks, d.len()).0 == d,
        all_filled(fill(chunks, d.len()).1),
{
    fill_pieces(chunks, d);
    let (b, f) = fill(chunks, d.len());
    assert forall|i: int| 0 <= i < d.len() implies b[i] == d[i] && f[i] by {
        assert(f[i] == covers(chunks, i));
    }
    assert(b =~= d);
}

pub open spec fn all_filled(f: Seq<bool>) -> bool {
    forall|i: int| 0 <= i < f.len() ==> #[trigger] f[i]
}

/// Where `key`'s fragments are kept, if anywhere.
pub open spec fn find_key(st: Seq<(FragKey, PendingView)>, key: FragKey, from: int) -> Option<int>
    decreases st.len() - from,
{
    if from < 0 || from >= st.len() {
        None
    } else if st[from].0 == key {
        Some(from)
    } else {
        find_key(st, key, from + 1)
    }
}

/// A fragment of the datagram `key` arrives at `ts`, at byte `offset`,
/// with `more` fragments to follow or not: it joins the others, and once
/// the last fragment has fixed the total length and every byte up to it has
/// arrived, the datagram's bytes are handed out with the time of its first
/// fragment, and forgotten.
pub open spec fn frag_step(
    st: Seq<(FragKey, PendingView)>,
    key: FragKey,
    ts: Timestamp,
    offset: nat,
    more: bool,
    body: Seq<u8>,
) -> (Seq<(FragKey, PendingView)>, Option<(Seq<u8>, Timestamp)>) {
    let found = find_key(st, key, 0);
    let idx = match found {
        Some(i) => i,
        None => st.len() as int,
    };
    let p0 = match found {
        Some(i) => st[i].1,
        None => PendingView { chunks: Seq::empty(), total: None, ts },
    };
    let p1 = PendingView {
        chunks: p0.chunks.push((offset, body)),
        total: if !more {
            Some(offset + body.len())
        } else {
            p0.total
        },
        ts: if p0.chunks.len() == 0 {
            ts
        } else {
            p0.ts
        },
    };
    let st1 = match found {
        Some(i) => st.update(i, (key, p1)),
        None => st.push((key, p1)),
    };
    match p1.total {
        None => (st1, None),
        Some(total) => {
            let (buf, filled) = fill(p1.chunks, total);
            if all_filled(filled) {
                (st1.remove(idx), Some((buf, p1.ts)))
            } else {
                (st1, None)
            }
        },
    }
}

/// One IPv4 packet carrying UDP: whole, it is a datagram at once; a
/// fragment goes through reassembly (`frag_step`).
pub open spec fn v4_step(st: Seq<(FragKey, PendingView)>, ts: Timestamp, ip: Seq<u8>) -> (
    Seq<(FragKey, PendingView)>,
    Option<DatagramView>,
) {
    if ip.len() < 20 || ip[9] != PROTO_UDP {
        (st, None)
    } else {
        let ihl = (ip[0] % 16) * 4;
        let total_len = be16(ip, 2) as int;
        if ihl < 20 || total_len < ihl || ip.len() < ihl {
            (st, None)
        } else {
            let end = if total_len < ip.len() {
                total_len
            } else {
                ip.len() as int
            };
            let body = ip.subrange(ihl as int, end);
            let src = be_num(ip.subrange(12, 16)) as u32;
            let dst = be_num(ip.subrange(16, 20)) as u32;
            let ident = be16(ip, 4);
            let ff = be16(ip, 6);
            let more = (ff / 8192) % 2 == 1;
            let offset = ((ff % 8192) * 8) as nat;
            if !more && offset == 0 {
                (st, udp_of(ts, Ip::V4(src), Ip::V4(dst), body, false))
            } else {
                let (st2, done) = frag_step(st, (src, dst, ident), ts, offset, more, body);
                (
                    st2,
                    match done {
                        Some((buf, t0)) => udp_of(t0, Ip::V4(src), Ip::V4(dst), buf, true),
                        None => None,
                    },
                )
            }
        }
    }
}

pub open spec fn opt_seq(d: Option<DatagramView>) -> Seq<DatagramView> {
    match d {
        Some(d) => seq![d],
        None => Seq::empty(),
    }
}

/// One frame: the datagram it completes, if any, and whether it was
/// skipped (no IP on a known link, or neither IPv4 nor IPv6).
pub open spec fn frame_step(st: Seq<(FragKey, PendingView)>, f: FrameView) -> (
    Seq<(FragKey, PendingView)>,
    Seq<DatagramView>,
    bool,
) {
    match ip_start(f.linktype, f.data) {
        None => (st, Seq::empty(), true),
        Some(s) => {
            let ip = f.data.skip(s);
            if ip.len() > 0 && ip[0] / 16 == 4 {
                let (st1, d) = v4_step(st, f.ts, ip);
                (st1, opt_seq(d), false)
            } else if ip.len() > 0 && ip[0] / 16 == 6 {
                (st, opt_seq(v6_datagram(f.ts, ip)), false)
            } else {
                (st, Seq::empty(), true)
            }
        },
    }
}

/// The datagrams of `frames` in order, with the number of frames skipped.
pub open spec fn walk_frames(frames: Seq<FrameView>, st: Seq<(FragKey, PendingView)>) -> (
    Seq<DatagramView>,
    nat,
)
    decreases frames.len(),
{
    if frames.len() == 0 {
        (Seq::empty(), 0)
    } else {
        let (st1, d, skipped) = frame_step(st, frames[0]);
        let (rest, n) = walk_frames(frames.drop_first(), st1);
        (
            d + rest,
            n + if skipped {
                1nat
            } else {
                0nat
            },
        )
    }
}

// ---------------------------------------------------------------------------
// Executable layers
// ---------------------------------------------------------------------------

fn be16_exec(b: &[u8], off: usize) -> (r: u16)
    requires
        off + 2 <= b@.len(),
    ensures
        r == be16(b@, off as int),
{
    256 * (b[off] as u16) + b[off + 1] as u16
}

proof fn be_num_bound(b: Seq<u8>)
    ensures
        be_num(b) < pow256(b.len()),
    decreases b.len(),
{
    if b.len() > 0 {
        be_num_bound(b.drop_last());
        assert(be_num(b) < pow256(b.len())) by (nonlinear_arith)
            requires
                be_num(b) == be_num(b.drop_last()) * 256 + b.last(),
                be_num(b.drop_last()) < pow256(b.drop_last().len()),
                pow256(b.len()) == pow256(b.drop_last().len()) * 256,
                b.last() < 256,
        ;
    }
}

pub open spec fn pow256(n: nat) -> nat
    decreases n,
{
    if n == 0 {
        1
    } else {
        pow256((n - 1) as nat) * 256
    }
}

/// The big-endian number of `b[from..to]`, at most 16 bytes.
fn be_exec(b: &[u8], from: usize, to: usize) -> (r: u128)
    requires
        from <= to <= b@.len(),
        to - from <= 16,
    ensures
        r == be_num(b@.subrange(from as int, to as int)),
{
    let ghost s = b@.subrange(from as int, to as int);
    let mut acc: u128 = 0;
    let mut i = from;
    proof {
        pow256_16();
    }
    while i < to
        invariant
            from <= i <= to <= b@.len(),
            to - from <= 16,
            s == b@.subrange(from as int, to as int),
            acc == be_num(s.take(i - from)),
            pow256(16) == 0x1_0000_0000_0000_0000_0000_0000_0000_0000,
        decreases to - i,
    {
        let ghost t = s.take(i + 1 - from);
        assert(t.drop_last() =~= s.take(i - from));
        assert(t.last() == b@[i as int]);
        proof {
            be_num_bound(t);
            pow256_mono((i + 1 - from) as nat, 16);
        }
        acc = acc * 256 + b[i] as u128;
        i = i + 1;
    }
    assert(s.take(i - from) =~= s);
    acc
}

proof fn pow256_16()
    ensures
        pow256(16) == 0x1_0000_0000_0000_0000_0000_0000_0000_0000,
{
    reveal_with_fuel(pow256, 17);
}

proof fn pow256_mono(a: nat, b: nat)
    requires
        a <= b,
    ensures
        pow256(a) <= pow256(b),
    decreases b,
{
    if a < b {
        pow256_mono(a, (b - 1) as nat);
    }
}

/// Where the IP packet of a frame starts (see `ip_start`).
pub fn strip_link(linktype: u32, data: &[u8]) -> (r: Option<usize>)
    ensures
        match ip_start(linktype, data@) {
            Some(s) => r == Some(s as usize),
            None => r is None,
        },
{
    let n = data.len();
    if linktype == LINKTYPE_ETHERNET {
        if n < 14 {
            return None;
        }
        let mut pos: usize = 14;
        let mut ethertype = be16_exec(data, 12);
        let ghost first = vlan_walk(data@, 14, ethertype);
        while ethertype == 0x8100 || ethertype == 0x88a8
            invariant
                n == data@.len(),
                linktype == LINKTYPE_ETHERNET,
                14 <= pos <= n,
                first == vlan_walk(data@, 14, be16(data@, 12)),
                first == vlan_walk(data@, pos as int, ethertype),
            decreases n - pos,
        {
            if n - pos < 4 {
                return None;
            }
            ethertype = be16_exec(data, pos + 2);
            pos = pos + 4;
        }
        if ethertype == 0x0800 || ethertype == 0x86dd {
            Some(pos)
        } else {
            None
        }
    } else if linktype == LINKTYPE_LINUX_SLL {
        if n >= 16 {
            let et = be16_exec(data, 14);
            if et == 0x0800 || et == 0x86dd {
                return Some(16);
            }
        }
        None
    } else if linktype == LINKTYPE_LINUX_SLL2 {
        if n >= 2 {
            let et = be16_exec(data, 0);
            if (et == 0x0800 || et == 0x86dd) && n >= 20 {
                return Some(20);
            }
        }
        None
    } else if linktype == LINKTYPE_RAW {
        Some(0)
    } else if linktype == LINKTYPE_NULL {
        if n >= 4 {
            Some(4)
        } else {
            None
        }
    } else {
        None
    }
}

pub open spec fn datagram_result(r: Option<Datagram>) -> Option<DatagramView> {
    match r {
        Some(d) => Some(d@),
        None => None,
    }
}

/// The datagram of a UDP packet `body[from..to]` (see `udp_of`).
pub fn parse_udp(
    ts: Timestamp,
    src: Ip,
    dst: Ip,
    body: &[u8],
    from: usize,
    to: usize,
    fragmented: bool,
) -> (r: Option<Datagram>)
    requires
        from <= to <= body@.len(),
    ensures
        datagram_result(r) == udp_of(ts, src, dst, body@.subrange(from as int, to as int), fragmented),
{
    let ghost b = body@.subrange(from as int, to as int);
    if to - from < 8 {
        return None;
    }
    let sport = be16_exec(body, from);
    let dport = be16_exec(body, from + 2);
    let len = be16_exec(body, from + 4) as usize;
    assert(sport == be16(b, 0) && dport == be16(b, 2) && len == be16(b, 4));
    let blen = to - from;
    let end = if len >= 8 {
        if len < blen {
            len
        } else {
            blen
        }
    } else {
        blen
    };
    let payload = slice_to_vec(slice_subrange(body, from + 8, from + end));
    assert(payload@ =~= b.subrange(8, end as int));
    Some(Datagram { ts, src, dst, sport, dport, payload, fragmented })
}

fn push_datagram(out: &mut Vec<Datagram>, d: Option<Datagram>)
    ensures
        datagrams_view(final(out)@) == datagrams_view(old(out)@) + opt_seq(datagram_result(d)),
{
    match d {
        Some(d) => {
            let ghost v = d@;
            out.push(d);
            assert(datagrams_view(out@) =~= datagrams_view(old(out)@) + seq![v]);
        },
        None => {
            assert(datagrams_view(out@) =~= datagrams_view(old(out)@) + Seq::<DatagramView>::empty());
        },
    }
}

/// The datagram of an IPv6 packet `data[start..]` (see `v6_datagram`).
fn handle_v6(ts: Timestamp, data: &[u8], start: usize) -> (r: Option<Datagram>)
    requires
        start <= data@.len(),
    ensures
        datagram_result(r) == v6_datagram(ts, data@.skip(start as int)),
{
    let ghost ip = data@.skip(start as int);
    let n = data.len();
    if n - start < 40 || data[start + 6] != PROTO_UDP {
        return None;
    }
    let src = be_exec(data, start + 8, start + 24);
    let dst = be_exec(data, start + 24, start + 40);
    assert(data@.subrange(start + 8, start + 24) =~= ip.subrange(8, 24));
    assert(data@.subrange(start + 24, start + 40) =~= ip.subrange(24, 40));
    assert(data@.subrange(start + 40, n as int) =~= ip.skip(40));
    parse_udp(ts, Ip::V6(src), Ip::V6(dst), data, start + 40, n, false)
}

/// The fragments of one datagram seen so far.
pub struct Pending {
    pub chunks: Vec<(usize, Vec<u8>)>,
    pub total: Option<usize>,
    pub ts: Timestamp,
}

pub open spec fn chunks_view(v: Seq<(usize, Vec<u8>)>) -> Seq<(nat, Seq<u8>)> {
    v.map_values(|c: (usize, Vec<u8>)| (c.0 as nat, c.1@))
}

impl View for Pending {
    type V = PendingView;

    open spec fn view(&self) -> PendingView {
        PendingView {
            chunks: chunks_view(self.chunks@),
            total: match self.total {
                Some(t) => Some(t as nat),
                None => None,
            },
            ts: self.ts,
        }
    }
}

pub open spec fn reasm_view(v: Seq<(FragKey, Pending)>) -> Seq<(FragKey, PendingView)> {
    v.map_values(|e: (FragKey, Pending)| (e.0, e.1@))
}

/// The bytes the fragments fill into `total` bytes, and whether they fill
/// all of them.
fn assemble(chunks: &Vec<(usize, Vec<u8>)>, total: usize) -> (r: (Vec<u8>, bool))
    ensures
        r.0@ == fill(chunks_view(chunks@), total as nat).0,
        r.1 == all_filled(fill(chunks_view(chunks@), total as nat).1),
{
    let ghost cv = chunks_view(chunks@);
    let mut buf: Vec<u8> = Vec::new();
    let mut filled: Vec<bool> = Vec::new();
    let mut z: usize = 0;
    while z < total
        invariant
            z <= total,
            buf@ == Seq::new(z as nat, |i: int| 0u8),
            filled@ == Seq::new(z as nat, |i: int| false),
        decreases total - z,
    {
        buf.push(0);
        filled.push(false);
        z = z + 1;
        assert(buf@ =~= Seq::new(z as nat, |i: int| 0u8));
        assert(filled@ =~= Seq::new(z as nat, |i: int| false));
    }
    assert(cv.take(0) =~= Seq::<(nat, Seq<u8>)>::empty());
    let mut k: usize = 0;
    while k < chunks.len()
        invariant
            k <= chunks@.len(),
            cv == chunks_view(chunks@),
            (buf@, filled@) == fill(cv.take(k as int), total as nat),
            buf@.len() == total,
            filled@.len() == total,
        decreases chunks@.len() - k,
    {
        assert(cv.take(k + 1).drop_last() =~= cv.take(k as int));
        assert(cv.take(k + 1).last() == cv[k as int]);
        let off = chunks[k].0;
        let c = &chunks[k].1;
        if off < total {
            let hi = if c.len() < total - off {
                off + c.len()
            } else {
                total
            };
            let ghost b0 = buf@;
            let ghost f0 = filled@;
            let mut j = off;
            while j < hi
                invariant
                    off <= j <= hi <= total,
                    hi - off <= c@.len(),
                    buf@.len() == total,
                    filled@.len() == total,
                    buf@ == b0.take(off as int) + c@.take(j - off) + b0.skip(j as int),
                    filled@ == f0.take(off as int) + Seq::new((j - off) as nat, |i: int| true)
                        + f0.skip(j as int),
                    b0.len() == total,
                    f0.len() == total,
                decreases hi - j,
            {
                buf.set(j, c[j - off]);
                filled.set(j, true);
                assert(buf@ =~= b0.take(off as int) + c@.take(j + 1 - off) + b0.skip(j + 1));
                assert(filled@ =~= f0.take(off as int) + Seq::new((j + 1 - off) as nat, |i: int| true)
                    + f0.skip(j + 1));
                j = j + 1;
            }
        }
        k = k + 1;
    }
    assert(cv.take(k as int) =~= cv);
    let mut all = true;
    let mut x: usize = 0;
    while x < total
        invariant
            x <= total,
            filled@.len() == total,
            all == (forall|i: int| 0 <= i < x ==> #[trigger] filled@[i]),
        decreases total - x,
    {
        if !filled[x] {
            all = false;
        }
        x = x + 1;
    }
    (buf, all)
}

proof fn find_key_in_range(st: Seq<(FragKey, PendingView)>, key: FragKey, from: int)
    ensures
        find_key(st, key, from) matches Some(i) ==> from <= i < st.len() && st[i].0 == key,
    decreases st.len() - from,
{
    if 0 <= from < st.len() && st[from].0 != key {
        find_key_in_range(st, key, from + 1);
    }
}

proof fn vlan_walk_moves_on(data: Seq<u8>, pos: int, et: u16)
    ensures
        vlan_walk(data, pos, et) matches Some((p, _)) ==> pos <= p,
    decreases data.len() - pos,
{
    if (et == 0x8100 || et == 0x88a8) && 0 <= pos && pos + 4 <= data.len() {
        vlan_walk_moves_on(data, pos + 4, be16(data, pos + 2));
    }
}

proof fn ip_start_in_range(linktype: u32, data: Seq<u8>)
    ensures
        ip_start(linktype, data) matches Some(s) ==> 0 <= s <= data.len(),
{
    if linktype == LINKTYPE_ETHERNET && data.len() >= 14 {
        vlan_walk_moves_on(data, 14, be16(data, 12));
    }
}

fn find_entry(reasm: &Vec<(FragKey, Pending)>, key: FragKey) -> (r: Option<usize>)
    ensures
        match find_key(reasm_view(reasm@), key, 0) {
            Some(i) => r == Some(i as usize),
            None => r is None,
        },
{
    let ghost st = reasm_view(reasm@);
    let mut idx: usize = 0;
    while idx < reasm.len()
        invariant
            st == reasm_view(reasm@),
            idx <= reasm@.len(),
            find_key(st, key, 0) == find_key(st, key, idx as int),
        decreases reasm@.len() - idx,
    {
        assert(st[idx as int].0 == reasm@[idx as int].0);
        let k = reasm[idx].0;
        if k.0 == key.0 && k.1 == key.1 && k.2 == key.2 {
            return Some(idx);
        }
        idx = idx + 1;
    }
    None
}

/// A fragment arrives (see `frag_step`).
fn add_fragment(
    reasm: &mut Vec<(FragKey, Pending)>,
    key: FragKey,
    ts: Timestamp,
    offset: usize,
    more: bool,
    body: Vec<u8>,
) -> (r: Option<(Vec<u8>, Timestamp)>)
    requires
        offset <= 65528,
        body@.len() <= 65535,
    ensures
        ({
            let (st2, done) = frag_step(
                reasm_view(old(reasm)@),
                key,
                ts,
                offset as nat,
                more,
                body@,
            );
            &&& reasm_view(final(reasm)@) == st2
            &&& match done {
                Some((buf, t0)) => r matches Some((b, t)) && b@ == buf && t == t0,
                None => r is None,
            }
        }),
{
    let ghost st = reasm_view(reasm@);
    let ghost bv = body@;
    let entries = reasm.len();
    assert(st.len() == entries);
    let found = find_entry(reasm, key);
    proof {
        find_key_in_range(st, key, 0);
    }
    let idx = match found {
        Some(i) => i,
        None => reasm.len(),
    };
    let mut p = if found.is_some() {
        assert(st[idx as int] == (reasm@[idx as int].0, reasm@[idx as int].1@));
        let (_, p) = reasm.remove(idx);
        assert(reasm_view(reasm@) =~= st.remove(idx as int));
        assert(p@ == st[idx as int].1);
        p
    } else {
        Pending { chunks: Vec::new(), total: None, ts }
    };
    assert(found is Some ==> p@ == st[idx as int].1);
    assert(found is Some ==> find_key(st, key, 0) == Some(idx as int));
    let ghost p0 = p@;
    assert(found is None ==> p0.chunks =~= Seq::<(nat, Seq<u8>)>::empty());
    if p.chunks.len() == 0 {
        p.ts = ts;
    }
    let blen = body.len();
    let ghost before = p.chunks@;
    p.chunks.push((offset, body));
    assert(chunks_view(p.chunks@) =~= chunks_view(before).push((offset as nat, bv)));
    if !more {
        p.total = Some(offset + blen);
    }
    let ghost p1 = p@;
    let ghost sp = frag_step(st, key, ts, offset as nat, more, bv);
    let ghost sp0 = match find_key(st, key, 0) {
        Some(i) => st[i].1,
        None => PendingView { chunks: Seq::empty(), total: None, ts },
    };
    assert(sp0 == p0);
    assert(p1.chunks == p0.chunks.push((offset as nat, bv)));
    assert(p1.total == if !more {
        Some((offset + bv.len()) as nat)
    } else {
        sp0.total
    });
    assert(p1.ts == if sp0.chunks.len() == 0 {
        ts
    } else {
        sp0.ts
    });
    let ghost st1 = match found {
        Some(i) => st.update(i as int, (key, p1)),
        None => st.push((key, p1)),
    };
    match p.total {
        None => {
            reasm.insert(idx, (key, p));
            assert(reasm_view(reasm@) =~= st1);
            None
        },
        Some(total) => {
            let (buf, complete) = assemble(&p.chunks, total);
            if complete {
                assert(reasm_view(reasm@) =~= st1.remove(idx as int));
                Some((buf, p.ts))
            } else {
                reasm.insert(idx, (key, p));
                assert(reasm_view(reasm@) =~= st1);
                None
            }
        },
    }
}

/// One IPv4 packet `data[start..]` (see `v4_step`).
fn handle_v4(ts: Timestamp, data: &[u8], start: usize, reasm: &mut Vec<(FragKey, Pending)>) -> (r:
    Option<Datagram>)
    requires
        start <= data@.len(),
    ensures
        (reasm_view(final(reasm)@), datagram_result(r)) == v4_step(
            reasm_view(old(reasm)@),
            ts,
            data@.skip(start as int),
        ),
{
    let ghost ip = data@.skip(start as int);
    let n = data.len();
    if n - start < 20 || data[start + 9] != PROTO_UDP {
        return None;
    }
    let ihl = ((data[start] % 16) as usize) * 4;
    let total_len = be16_exec(data, start + 2) as usize;
    assert(ihl == (ip[0] % 16) * 4);
    assert(total_len == be16(ip, 2));
    if ihl < 20 || total_len < ihl || n - start < ihl {
        return None;
    }
    let end = if total_len < n - start {
        total_len
    } else {
        n - start
    };
    let ghost body = ip.subrange(ihl as int, end as int);
    assert(data@.subrange(start + ihl, start + end) =~= body);
    let src32 = be_exec(data, start + 12, start + 16);
    let dst32 = be_exec(data, start + 16, start + 20);
    assert(data@.subrange(start + 12, start + 16) =~= ip.subrange(12, 16));
    assert(data@.subrange(start + 16, start + 20) =~= ip.subrange(16, 20));
    proof {
        be_num_bound(ip.subrange(12, 16));
        be_num_bound(ip.subrange(16, 20));
        reveal_with_fuel(pow256, 5);
    }
    let src = src32 as u32;
    let dst = dst32 as u32;
    let ident = be16_exec(data, start + 4);
    let ff = be16_exec(data, start + 6);
    assert(ident == be16(ip, 4));
    assert(ff == be16(ip, 6));
    let more = (ff / 8192) % 2 == 1;
    let offset = ((ff % 8192) as usize) * 8;
    if !more && offset == 0 {
        return parse_udp(ts, Ip::V4(src), Ip::V4(dst), data, start + ihl, start + end, false);
    }
    let body_vec = slice_to_vec(slice_subrange(data, start + ihl, start + end));
    match add_fragment(reasm, (src, dst, ident), ts, offset, more, body_vec) {
        None => None,
        Some((buf, first_ts)) => {
            let len = buf.len();
            assert(buf@.subrange(0, len as int) =~= buf@);
            parse_udp(first_ts, Ip::V4(src), Ip::V4(dst), &buf, 0, len, true)
        },
    }
}

/// One frame's datagrams, appended to `out`; whether the frame was
/// skipped (see `frame_step`).
fn frame_datagrams(f: &Frame, reasm: &mut Vec<(FragKey, Pending)>, out: &mut Vec<Datagram>) -> (skipped: bool)
    ensures
        ({
            let (st1, d, sk) = frame_step(reasm_view(old(reasm)@), f@);
            &&& reasm_view(final(reasm)@) == st1
            &&& datagrams_view(final(out)@) == datagrams_view(old(out)@) + d
            &&& skipped == sk
        }),
{
    let ghost before = datagrams_view(out@);
    proof {
        ip_start_in_range(f.linktype, f.data@);
    }
    match strip_link(f.linktype, f.data.as_slice()) {
        None => {
            assert(datagrams_view(out@) =~= before + Seq::<DatagramView>::empty());
            true
        },
        Some(s) => {
            let n = f.data.len();
            if s < n && f.data[s] / 16 == 4 {
                let d = handle_v4(f.ts, f.data.as_slice(), s, reasm);
                push_datagram(out, d);
                false
            } else if s < n && f.data[s] / 16 == 6 {
                let d = handle_v6(f.ts, f.data.as_slice(), s);
                push_datagram(out, d);
                false
            } else {
                assert(datagrams_view(out@) =~= before + Seq::<DatagramView>::empty());
                true
            }
        },
    }
}

proof fn walk_unfold(frames: Seq<FrameView>, st: Seq<(FragKey, PendingView)>)
    requires
        frames.len() > 0,
    ensures
        ({
            let (st1, d, sk) = frame_step(st, frames[0]);
            let rest = walk_frames(frames.drop_first(), st1);
            walk_frames(frames, st) == (
                d + rest.0,
                rest.1 + if sk {
                    1nat
                } else {
                    0nat
                },
            )
        }),
{
}

/// The datagrams a capture carries, in order, and how many frames were
/// skipped (see `walk_frames`).
#[verifier::rlimit(40)]
pub fn datagrams(frames: &[Frame]) -> (r: (Vec<Datagram>, usize))
    ensures
        (datagrams_view(r.0@), r.1 as nat) == walk_frames(frames_view(frames@), Seq::empty()),
{
    let ghost fv = frames_view(frames@);
    let mut out: Vec<Datagram> = Vec::new();
    let mut reasm: Vec<(FragKey, Pending)> = Vec::new();
    let mut skipped: usize = 0;
    let mut i: usize = 0;
    assert(fv.skip(0) =~= fv);
    assert(datagrams_view(out@) =~= Seq::<DatagramView>::empty());
    assert(reasm_view(reasm@) =~= Seq::<(FragKey, PendingView)>::empty());
    while i < frames.len()
        invariant
            i <= frames@.len(),
            fv == frames_view(frames@),
            skipped <= i,
            walk_frames(fv, Seq::empty()) == ({
                let rest = walk_frames(fv.skip(i as int), reasm_view(reasm@));
                (datagrams_view(out@) + rest.0, (skipped + rest.1) as nat)
            }),
        decreases frames@.len() - i,
    {
        let f = &frames[i];
        assert(fv.skip(i as int)[0] == f@);
        assert(fv.skip(i as int).drop_first() =~= fv.skip(i + 1));
        let ghost before = datagrams_view(out@);
        let ghost st = reasm_view(reasm@);
        proof {
            walk_unfold(fv.skip(i as int), st);
        }
        let sk = frame_datagrams(f, &mut reasm, &mut out);
        if sk {
            skipped = skipped + 1;
        }
        proof {
            let (st1, d, _) = frame_step(st, f@);
            let rest = walk_frames(fv.skip(i + 1), st1);
            assert(datagrams_view(out@) + rest.0 =~= before + (d + rest.0));
        }
        i = i + 1;
    }
    assert(fv.skip(i as int) =~= Seq::<FrameView>::empty());
    assert(datagrams_view(out@) + Seq::<DatagramView>::empty() =~= datagrams_view(out@));
    (out, skipped)
}

// ---------------------------------------------------------------------------
// Who is the Robot Controller
// ---------------------------------------------------------------------------

/// The endpoint a datagram came from.
pub open spec fn sender(d: DatagramView) -> Endpoint {
    Endpoint { ip: d.src, port: d.sport }
}

/// Telemetry only ever flows from the Robot Controller.
#[verifier::opaque]
pub open spec fn carries_telemetry(d: DatagramView) -> bool {
    parse_packet(d.payload) matches Ok(PacketView::Telemetry(_))
}

/// Notifications (`CMD_NOTIFY*`) come from the Robot Controller too.
#[verifier::opaque]
pub open spec fn carries_notify(d: DatagramView) -> bool {
    parse_packet(d.payload) matches Ok(PacketView::Command(c)) && "CMD_NOTIFY"@.len() <= c.name.len()
        && c.name.take("CMD_NOTIFY"@.len() as int) == "CMD_NOTIFY"@
}

/// The endpoints that sent telemetry, where any did; otherwise those that
/// sent notifications. A set rather than one endpoint, so that a capture
/// spanning several sessions labels every one of them.
pub open spec fn is_rc_endpoint(ds: Seq<DatagramView>, e: Endpoint) -> bool {
    if exists|i: int| 0 <= i < ds.len() && carries_telemetry(#[trigger] ds[i]) {
        exists|i: int| 0 <= i < ds.len() && carries_telemetry(#[trigger] ds[i]) && sender(ds[i]) == e
    } else {
        exists|i: int| 0 <= i < ds.len() && carries_notify(#[trigger] ds[i]) && sender(ds[i]) == e
    }
}

fn add_endpoint(v: &mut Vec<Endpoint>, e: Endpoint)
    requires
        old(v)@.no_duplicates(),
    ensures
        final(v)@.no_duplicates(),
        forall|x: Endpoint| final(v)@.contains(x) <==> (old(v)@.contains(x) || x == e),
{
    let mut i: usize = 0;
    while i < v.len()
        invariant
            i <= v@.len(),
            v@ == old(v)@,
            old(v)@.no_duplicates(),
            forall|j: int| 0 <= j < i ==> v@[j] != e,
        decreases v@.len() - i,
    {
        if v[i] == e {
            return;
        }
        i = i + 1;
    }
    v.push(e);
    assert forall|x: Endpoint| v@.contains(x) <==> (old(v)@.contains(x) || x == e) by {
        if x == e {
            assert(v@[v@.len() - 1] == e);
        }
        if old(v)@.contains(x) {
            let j = choose|j: int| 0 <= j < old(v)@.len() && old(v)@[j] == x;
            assert(v@[j] == x);
        }
        if v@.contains(x) && x != e {
            let j = choose|j: int| 0 <= j < v@.len() && v@[j] == x;
            assert(old(v)@[j] == x);
        }
    }
}

fn is_notify_name(name: &str) -> (r: bool)
    ensures
        r == ("CMD_NOTIFY"@.len() <= name@.len() && name@.take("CMD_NOTIFY"@.len() as int)
            == "CMD_NOTIFY"@),
{
    let n = text::chars_of(name);
    let p = text::chars_of("CMD_NOTIFY");
    if p.len() > n.len() {
        return false;
    }
    let mut k: usize = 0;
    while k < p.len()
        invariant
            p@ == "CMD_NOTIFY"@,
            n@ == name@,
            p@.len() <= n@.len(),
            k <= p@.len(),
            forall|j: int| 0 <= j < k ==> n@[j] == p@[j],
        decreases p@.len() - k,
    {
        if n[k] != p[k] {
            assert(n@.take(p@.len() as int)[k as int] != p@[k as int]);
            return false;
        }
        k = k + 1;
    }
    assert(n@.take(p@.len() as int) =~= p@);
    true
}

/// Whether a datagram carries telemetry, and whether it carries a
/// notification.
fn classify(d: &Datagram) -> (r: (bool, bool))
    ensures
        r.0 == carries_telemetry(d@),
        r.1 == carries_notify(d@),
{
    reveal(carries_telemetry);
    reveal(carries_notify);
    match Packet::parse(d.payload.as_slice()) {
        Ok(Packet::Telemetry(_)) => (true, false),
        Ok(Packet::Command(c)) => (false, is_notify_name(c.name.as_str())),
        _ => (false, false),
    }
}

/// The endpoints that speak as the Robot Controller (see `is_rc_endpoint`),
/// each once.
pub fn infer_rc(datagrams: &[Datagram]) -> (r: Vec<Endpoint>)
    ensures
        r@.no_duplicates(),
        forall|e: Endpoint| r@.contains(e) <==> is_rc_endpoint(datagrams_view(datagrams@), e),
{
    let ghost ds = datagrams_view(datagrams@);
    let mut telemetry: Vec<Endpoint> = Vec::new();
    let mut notify: Vec<Endpoint> = Vec::new();
    let mut i: usize = 0;
    while i < datagrams.len()
        invariant
            i <= datagrams@.len(),
            ds == datagrams_view(datagrams@),
            telemetry@.no_duplicates(),
            notify@.no_duplicates(),
            forall|e: Endpoint|
                telemetry@.contains(e) <==> exists|j: int|
                    0 <= j < i && carries_telemetry(#[trigger] ds[j]) && sender(ds[j]) == e,
            forall|e: Endpoint|
                notify@.contains(e) <==> exists|j: int|
                    0 <= j < i && carries_notify(#[trigger] ds[j]) && sender(ds[j]) == e,
        decreases datagrams@.len() - i,
    {
        let d = &datagrams[i];
        assert(ds[i as int] == d@);
        let e = Endpoint { ip: d.src, port: d.sport };
        let ghost old_t = telemetry@;
        let ghost old_n = notify@;
        let (is_telemetry, is_notify) = classify(d);
        if is_telemetry {
            add_endpoint(&mut telemetry, e);
        }
        if is_notify {
            add_endpoint(&mut notify, e);
        }
        assert forall|x: Endpoint| telemetry@.contains(x) <==> exists|j: int|
            0 <= j < i + 1 && carries_telemetry(#[trigger] ds[j]) && sender(ds[j]) == x by {
            if telemetry@.contains(x) && !old_t.contains(x) {
                assert(carries_telemetry(ds[i as int]) && sender(ds[i as int]) == x);
            }
        }
        assert forall|x: Endpoint| notify@.contains(x) <==> exists|j: int|
            0 <= j < i + 1 && carries_notify(#[trigger] ds[j]) && sender(ds[j]) == x by {
            if notify@.contains(x) && !old_n.contains(x) {
                assert(carries_notify(ds[i as int]) && sender(ds[i as int]) == x);
            }
        }
        i = i + 1;
    }
    if telemetry.len() == 0 {
        assert(!exists|j: int| 0 <= j < ds.len() && carries_telemetry(#[trigger] ds[j])) by {
            if exists|j: int| 0 <= j < ds.len() && carries_telemetry(#[trigger] ds[j]) {
                let j = choose|j: int| 0 <= j < ds.len() && carries_telemetry(#[trigger] ds[j]);
                assert(telemetry@.contains(sender(ds[j])));
            }
        }
        notify
    } else {
        assert(telemetry@.contains(telemetry@[0]));
        telemetry
    }
}


// ---------------------------------------------------------------------------
// Which datagrams are Robocol
// ---------------------------------------------------------------------------

/// A datagram is taken as Robocol when it is to or from `port`; with port
/// 0, when its payload parses as a Robocol packet (for captures on
/// ephemeral ports).
pub open spec fn is_robocol(d: DatagramView, port: u16) -> bool {
    if port == 0 {
        parse_packet(d.payload) is Ok
    } else {
        d.sport == port || d.dport == port
    }
}

/// The Robocol datagrams of `ds`, in order.
pub open spec fn robocol_only(ds: Seq<DatagramView>, port: u16) -> Seq<DatagramView>
    decreases ds.len(),
{
    if ds.len() == 0 {
        Seq::empty()
    } else if is_robocol(ds.last(), port) {
        robocol_only(ds.drop_last(), port).push(ds.last())
    } else {
        robocol_only(ds.drop_last(), port)
    }
}

fn copy_datagram(d: &Datagram) -> (r: Datagram)
    ensures
        r@ == d@,
{
    Datagram {
        ts: d.ts,
        src: d.src,
        dst: d.dst,
        sport: d.sport,
        dport: d.dport,
        payload: slice_to_vec(d.payload.as_slice()),
        fragmented: d.fragmented,
    }
}

/// The datagrams of `ds` that are Robocol (see `is_robocol`), in order.
pub fn robocol_datagrams(ds: &[Datagram], port: u16) -> (r: Vec<Datagram>)
    ensures
        datagrams_view(r@) == robocol_only(datagrams_view(ds@), port),
{
    let ghost v = datagrams_view(ds@);
    let mut r: Vec<Datagram> = Vec::new();
    let mut i: usize = 0;
    assert(v.take(0) =~= Seq::<DatagramView>::empty());
    assert(datagrams_view(r@) =~= Seq::<DatagramView>::empty());
    while i < ds.len()
        invariant
            i <= ds@.len(),
            v == datagrams_view(ds@),
            datagrams_view(r@) == robocol_only(v.take(i as int), port),
        decreases ds@.len() - i,
    {
        assert(v.take(i + 1).drop_last() =~= v.take(i as int));
        assert(v.take(i + 1).last() == ds@[i as int]@);
        let d = &ds[i];
        let keep = if port == 0 {
            Packet::parse(d.payload.as_slice()).is_ok()
        } else {
            d.sport == port || d.dport == port
        };
        if keep {
            let ghost before = r@;
            let c = copy_datagram(d);
            r.push(c);
            assert(datagrams_view(r@) =~= datagrams_view(before).push(d@));
        }
        i = i + 1;
    }
    assert(v.take(i as int) =~= v);
    r
}

} // verus!
