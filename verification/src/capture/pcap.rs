//! Minimal reader for both capture container formats: classic pcap (what
//! `tcpdump -w` writes) and pcapng (what Wireshark's "Save As" writes).
//!
//! Timestamps are kept as the file states them (seconds and fraction, or
//! ticks at a resolution); turning them into seconds is arithmetic on
//! floating point, left to the caller.

use vstd::prelude::*;
use vstd::slice::{slice_subrange, slice_to_vec};

use crate::text;

verus! {

#[derive(Debug, Clone, Copy, PartialEq, Eq, Structural)]
pub enum Endian {
    Little,
    Big,
}

/// The `u16` at `off` of `b`, in byte order `e`.
pub open spec fn u16_in(e: Endian, b: Seq<u8>, off: int) -> u16 {
    match e {
        Endian::Little => (b[off] + 256 * b[off + 1]) as u16,
        Endian::Big => (256 * b[off] + b[off + 1]) as u16,
    }
}

/// The `u32` at `off` of `b`, in byte order `e`.
pub open spec fn u32_in(e: Endian, b: Seq<u8>, off: int) -> u32 {
    match e {
        Endian::Little => (b[off] + 256 * b[off + 1] + 65536 * b[off + 2] + 16777216 * b[off
            + 3]) as u32,
        Endian::Big => (16777216 * b[off] + 65536 * b[off + 1] + 256 * b[off + 2] + b[off
            + 3]) as u32,
    }
}

impl Endian {
    pub fn u16(self, b: &[u8], off: usize) -> (r: u16)
        requires
            off + 2 <= b@.len(),
        ensures
            r == u16_in(self, b@, off as int),
    {
        let (x, y) = (b[off] as u16, b[off + 1] as u16);
        match self {
            Endian::Little => x + 256 * y,
            Endian::Big => 256 * x + y,
        }
    }

    pub fn u32(self, b: &[u8], off: usize) -> (r: u32)
        requires
            off + 4 <= b@.len(),
        ensures
            r == u32_in(self, b@, off as int),
    {
        let (w, x, y, z) = (b[off] as u32, b[off + 1] as u32, b[off + 2] as u32, b[off + 3] as u32);
        match self {
            Endian::Little => w + 256 * x + 65536 * y + 16777216 * z,
            Endian::Big => 16777216 * w + 65536 * x + 256 * y + z,
        }
    }
}

/// How long one tick of a timestamp is.
#[derive(Debug, Clone, Copy, PartialEq, Eq, Structural)]
pub enum Resolution {
    /// 10^-n seconds.
    Decimal(u8),
    /// 2^-n seconds.
    Binary(u8),
}

/// When a frame was captured, as the file states it.
#[derive(Debug, Clone, Copy, PartialEq, Eq, Structural)]
pub enum Timestamp {
    /// Whole seconds, and a fraction in microseconds (nanoseconds when
    /// `nanos`).
    Split { sec: u32, frac: u32, nanos: bool },
    /// A count of ticks of the interface's resolution.
    Ticks { ticks: u64, resolution: Resolution },
}

/// One captured frame: the link type of its interface and its bytes.
#[derive(Debug, Clone, PartialEq)]
pub struct Frame {
    pub ts: Timestamp,
    pub linktype: u32,
    pub data: Vec<u8>,
}

pub struct FrameView {
    pub ts: Timestamp,
    pub linktype: u32,
    pub data: Seq<u8>,
}

impl View for Frame {
    type V = FrameView;

    open spec fn view(&self) -> FrameView {
        FrameView { ts: self.ts, linktype: self.linktype, data: self.data@ }
    }
}

pub open spec fn frames_view(v: Seq<Frame>) -> Seq<FrameView> {
    v.map_values(|f: Frame| f@)
}

pub const PCAP_MAGIC_US: u32 = 0xa1b2_c3d4;
pub const PCAP_MAGIC_NS: u32 = 0xa1b2_3c4d;
pub const PCAPNG_SHB: u32 = 0x0a0d_0d0a;
pub const PCAPNG_BYTE_ORDER: u32 = 0x1a2b_3c4d;

// ---------------------------------------------------------------------------
// The formats
// ---------------------------------------------------------------------------

pub open spec fn hex_char(d: nat) -> char {
    if d < 10 {
        (d + 48) as char
    } else {
        (d + 87) as char
    }
}

/// The `n` lowest hexadecimal digits of `v`, most significant first.
pub open spec fn hex_digits(v: nat, n: nat) -> Seq<char>
    decreases n,
{
    if n == 0 {
        Seq::empty()
    } else {
        hex_digits(v / 16, (n - 1) as nat).push(hex_char(v % 16))
    }
}

/// The records of a classic capture from `pos` on. A record whose bytes
/// run past the end ends the capture.
pub open spec fn classic_frames(b: Seq<u8>, e: Endian, nanos: bool, lt: u32, pos: int) -> Seq<
    FrameView,
>
    decreases b.len() - pos,
{
    if pos < 0 || pos + 16 > b.len() {
        Seq::empty()
    } else {
        let incl = u32_in(e, b, pos + 8) as int;
        let p = pos + 16;
        if p + incl > b.len() {
            Seq::empty()
        } else {
            seq![
                FrameView {
                    ts: Timestamp::Split {
                        sec: u32_in(e, b, pos),
                        frac: u32_in(e, b, pos + 4),
                        nanos,
                    },
                    linktype: lt,
                    data: b.subrange(p, p + incl),
                },
            ] + classic_frames(b, e, nanos, lt, p + incl)
        }
    }
}

/// A classic capture: the magic number gives the byte order and whether
/// fractions are nanoseconds; the link type is at 20; records start at 24.
pub open spec fn classic_read(b: Seq<u8>) -> Result<Seq<FrameView>, Seq<char>> {
    if b.len() < 24 {
        Err("truncated pcap header"@)
    } else {
        let le = u32_in(Endian::Little, b, 0);
        let be = u32_in(Endian::Big, b, 0);
        let head: Result<(Endian, bool), Seq<char>> = if le == PCAP_MAGIC_US {
            Ok((Endian::Little, false))
        } else if le == PCAP_MAGIC_NS {
            Ok((Endian::Little, true))
        } else if be == PCAP_MAGIC_US {
            Ok((Endian::Big, false))
        } else if be == PCAP_MAGIC_NS {
            Ok((Endian::Big, true))
        } else {
            Err("not a pcap file (magic 0x"@ + hex_digits(be as nat, 8) + ")"@)
        };
        match head {
            Err(m) => Err(m),
            Ok((e, nanos)) => Ok(classic_frames(b, e, nanos, u32_in(e, b, 20), 24)),
        }
    }
}

/// `n` rounded up to a multiple of four.
pub open spec fn round4(n: int) -> int {
    (n + 3) / 4 * 4
}

/// The interface's timestamp resolution from its options (option 9,
/// `if_tsresol`: one byte, high bit set for a power of two rather than of
/// ten); microseconds when absent.
pub open spec fn tsresol_of(e: Endian, opts: Seq<u8>, pos: int) -> Resolution
    decreases opts.len() - pos,
{
    if pos < 0 || pos + 4 > opts.len() {
        Resolution::Decimal(6)
    } else {
        let code = u16_in(e, opts, pos);
        let len = u16_in(e, opts, pos + 2) as int;
        if code == 0 {
            Resolution::Decimal(6)
        } else if code == 9 && len >= 1 && pos + 4 < opts.len() {
            let raw = opts[pos + 4];
            if raw >= 128 {
                Resolution::Binary((raw - 128) as u8)
            } else {
                Resolution::Decimal(raw)
            }
        } else if pos + 4 + round4(len) > opts.len() {
            Resolution::Decimal(6)
        } else {
            tsresol_of(e, opts, pos + 4 + round4(len))
        }
    }
}

/// One pcapng block, read at `pos` with the interfaces described so far.
pub enum NgStep {
    /// No complete block here: the capture ends.
    End,
    /// An interface description too short to read.
    Unreadable,
    /// The block's effect: the next block's position, the interfaces after
    /// it, and the frames it gives.
    Step { next: int, ifaces: Seq<(u32, Resolution)>, frames: Seq<FrameView> },
}

/// Interface descriptions (type 1) add an interface; enhanced packets
/// (type 6) with a complete body give a frame, stamped with their
/// interface's link type and resolution (Ethernet and microseconds for an
/// unknown interface); other blocks are skipped.
pub open spec fn ng_block(b: Seq<u8>, e: Endian, pos: int, ifaces: Seq<(u32, Resolution)>) -> NgStep {
    if pos < 0 || pos + 12 > b.len() {
        NgStep::End
    } else {
        let bt = u32_in(e, b, pos);
        let tl = u32_in(e, b, pos + 4) as int;
        if tl < 12 || pos + tl > b.len() {
            NgStep::End
        } else {
            let body = b.subrange(pos + 8, pos + tl - 4);
            let next = pos + tl;
            if bt == 1 {
                if body.len() < 8 {
                    NgStep::Unreadable
                } else {
                    NgStep::Step {
                        next,
                        ifaces: ifaces.push(
                            (u16_in(e, body, 0) as u32, tsresol_of(e, body.skip(8), 0)),
                        ),
                        frames: Seq::empty(),
                    }
                }
            } else if bt == 6 && body.len() >= 20 {
                let iface = u32_in(e, body, 0) as int;
                let ticks = (u32_in(e, body, 4) * 4294967296 + u32_in(e, body, 8)) as u64;
                let cap = u32_in(e, body, 12) as int;
                let known = iface < ifaces.len();
                let lt: u32 = if known {
                    ifaces[iface].0
                } else {
                    1
                };
                let res = if known {
                    ifaces[iface].1
                } else {
                    Resolution::Decimal(6)
                };
                let frames: Seq<FrameView> = if 20 + cap <= body.len() {
                    seq![
                        FrameView {
                            ts: Timestamp::Ticks { ticks, resolution: res },
                            linktype: lt,
                            data: body.subrange(20, 20 + cap),
                        },
                    ]
                } else {
                    Seq::empty()
                };
                NgStep::Step { next, ifaces, frames }
            } else {
                NgStep::Step { next, ifaces, frames: Seq::empty() }
            }
        }
    }
}

/// The frames of the pcapng blocks from `pos` on, given the interfaces
/// described so far; a block that runs past the end ends the capture.
/// `None` where an interface description is too short to read.
pub open spec fn ng_frames(b: Seq<u8>, e: Endian, pos: int, ifaces: Seq<(u32, Resolution)>) -> Option<
    Seq<FrameView>,
>
    decreases b.len() - pos,
{
    match ng_block(b, e, pos, ifaces) {
        NgStep::End => Some(Seq::empty()),
        NgStep::Unreadable => None,
        NgStep::Step { next, ifaces: i2, frames } => if pos < next <= b.len() {
            match ng_frames(b, e, next, i2) {
                Some(rest) => Some(frames + rest),
                None => None,
            }
        } else {
            Some(Seq::empty())
        },
    }
}

/// What reading a capture gives: the frames, or what is wrong with the
/// file. `None` for the files the reader cannot take: a pcapng file too
/// short for its byte-order magic, or one with an interface description too
/// short to read.
pub open spec fn capture_read(b: Seq<u8>) -> Option<Result<Seq<FrameView>, Seq<char>>> {
    if b.len() < 4 {
        Some(Err("file too short to be a capture"@))
    } else if u32_in(Endian::Little, b, 0) == PCAPNG_SHB || u32_in(Endian::Big, b, 0) == PCAPNG_SHB {
        if b.len() < 12 {
            None
        } else {
            let e: Option<Endian> = if u32_in(Endian::Little, b, 8) == PCAPNG_BYTE_ORDER {
                Some(Endian::Little)
            } else if u32_in(Endian::Big, b, 8) == PCAPNG_BYTE_ORDER {
                Some(Endian::Big)
            } else {
                None
            };
            match e {
                None => Some(Err("pcapng byte-order magic not recognized"@)),
                Some(e) => match ng_frames(b, e, 0, Seq::empty()) {
                    Some(f) => Some(Ok(f)),
                    None => None,
                },
            }
        }
    } else {
        Some(classic_read(b))
    }
}

pub open spec fn read_result(r: Result<Vec<Frame>, String>) -> Result<Seq<FrameView>, Seq<char>> {
    match r {
        Ok(v) => Ok(frames_view(v@)),
        Err(m) => Err(m@),
    }
}

// ---------------------------------------------------------------------------
// Reading
// ---------------------------------------------------------------------------

fn push_hex(s: &mut String, v: u32, n: u32)
    ensures
        final(s)@ == old(s)@ + hex_digits(v as nat, n as nat),
    decreases n,
{
    if n > 0 {
        push_hex(s, v / 16, n - 1);
        let d = v % 16;
        let c = if d < 10 {
            ((d as u8) + 48) as char
        } else {
            ((d as u8) + 87) as char
        };
        text::push_char(s, c);
        assert(hex_digits(v as nat, n as nat) == hex_digits((v / 16) as nat, (n - 1) as nat).push(
            hex_char((v % 16) as nat),
        ));
    }
}

fn push_frame(frames: &mut Vec<Frame>, f: Frame)
    ensures
        frames_view(final(frames)@) == frames_view(old(frames)@).push(f@),
{
    let ghost v = f@;
    frames.push(f);
    assert(frames_view(frames@) =~= frames_view(old(frames)@).push(v));
}

/// Reads a capture file of either format.
pub fn read(bytes: &[u8]) -> (r: Result<Vec<Frame>, String>)
    requires
        capture_read(bytes@) is Some,
        bytes@.len() <= isize::MAX,
    ensures
        read_result(r) == capture_read(bytes@)->0,
{
    if bytes.len() < 4 {
        return Err("file too short to be a capture".to_owned());
    }
    let le = Endian::Little.u32(bytes, 0);
    let be = Endian::Big.u32(bytes, 0);
    if le == PCAPNG_SHB || be == PCAPNG_SHB {
        read_pcapng(bytes)
    } else {
        read_classic(bytes)
    }
}

fn read_classic(bytes: &[u8]) -> (r: Result<Vec<Frame>, String>)
    ensures
        read_result(r) == classic_read(bytes@),
{
    if bytes.len() < 24 {
        return Err("truncated pcap header".to_owned());
    }
    let le = Endian::Little.u32(bytes, 0);
    let be = Endian::Big.u32(bytes, 0);
    let (endian, nanos) = if le == PCAP_MAGIC_US {
        (Endian::Little, false)
    } else if le == PCAP_MAGIC_NS {
        (Endian::Little, true)
    } else if be == PCAP_MAGIC_US {
        (Endian::Big, false)
    } else if be == PCAP_MAGIC_NS {
        (Endian::Big, true)
    } else {
        let mut m = "not a pcap file (magic 0x".to_owned();
        push_hex(&mut m, be, 8);
        let tail = ")".to_owned();
        let ghost before = m@;
        let mut i: usize = 0;
        let tail_chars = text::chars_of(tail.as_str());
        while i < tail_chars.len()
            invariant
                i <= tail_chars@.len(),
                tail_chars@ == ")"@,
                m@ == before + tail_chars@.take(i as int),
            decreases tail_chars@.len() - i,
        {
            text::push_char(&mut m, tail_chars[i]);
            assert(tail_chars@.take(i + 1) =~= tail_chars@.take(i as int).push(tail_chars@[i as int]));
            i = i + 1;
        }
        assert(tail_chars@.take(i as int) =~= tail_chars@);
        return Err(m);
    };
    let linktype = endian.u32(bytes, 20);
    let ghost b = bytes@;
    assert(classic_read(b) == Ok::<Seq<FrameView>, Seq<char>>(
        classic_frames(b, endian, nanos, linktype, 24),
    ));
    let n = bytes.len();
    let mut frames: Vec<Frame> = Vec::new();
    let mut pos: usize = 24;
    assert(frames_view(frames@) =~= Seq::<FrameView>::empty());
    while pos <= n && n - pos >= 16
        invariant
            n == b.len(),
            b == bytes@,
            24 <= pos,
            classic_read(b) == Ok::<Seq<FrameView>, Seq<char>>(
                classic_frames(b, endian, nanos, linktype, 24),
            ),
            frames_view(frames@) + classic_frames(b, endian, nanos, linktype, pos as int)
                == classic_frames(b, endian, nanos, linktype, 24),
        decreases n - pos,
    {
        let sec = endian.u32(bytes, pos);
        let frac = endian.u32(bytes, pos + 4);
        let incl_len = endian.u32(bytes, pos + 8) as usize;
        let p = pos + 16;
        if incl_len > n - p {
            assert(classic_frames(b, endian, nanos, linktype, pos as int) == Seq::<FrameView>::empty());
            assert(frames_view(frames@) + Seq::<FrameView>::empty() =~= frames_view(frames@));
            return Ok(frames);
        }
        let data = slice_to_vec(slice_subrange(bytes, p, p + incl_len));
        let ghost before = frames_view(frames@);
        push_frame(
            &mut frames,
            Frame { ts: Timestamp::Split { sec, frac, nanos }, linktype, data },
        );
        let ghost rest = classic_frames(b, endian, nanos, linktype, (p + incl_len) as int);
        assert(before + classic_frames(b, endian, nanos, linktype, pos as int) =~= frames_view(
            frames@,
        ) + rest);
        pos = p + incl_len;
    }
    assert(classic_frames(b, endian, nanos, linktype, pos as int) == Seq::<FrameView>::empty());
    assert(frames_view(frames@) + Seq::<FrameView>::empty() =~= frames_view(frames@));
    Ok(frames)
}

/// The resolution the options `bytes[start..end]` give.
fn tsresol(endian: Endian, bytes: &[u8], start: usize, end: usize) -> (r: Resolution)
    requires
        start <= end <= bytes@.len(),
        bytes@.len() <= isize::MAX,
    ensures
        r == tsresol_of(endian, bytes@.subrange(start as int, end as int), 0),
{
    let ghost opts = bytes@.subrange(start as int, end as int);
    let len_opts = end - start;
    let mut pos: usize = 0;
    while pos <= len_opts && len_opts - pos >= 4
        invariant
            start <= end <= bytes@.len(),
            bytes@.len() <= isize::MAX,
            len_opts == end - start,
            opts == bytes@.subrange(start as int, end as int),
            tsresol_of(endian, opts, 0) == tsresol_of(endian, opts, pos as int),
        decreases len_opts - pos,
    {
        let code = endian.u16(bytes, start + pos);
        let len = endian.u16(bytes, start + pos + 2) as usize;
        assert(code == u16_in(endian, opts, pos as int));
        assert(len == u16_in(endian, opts, pos + 2));
        if code == 0 {
            return Resolution::Decimal(6);
        }
        if code == 9 && len >= 1 && pos + 4 < len_opts {
            let raw = bytes[start + pos + 4];
            assert(raw == opts[pos + 4]);
            return if raw >= 128 {
                Resolution::Binary(raw - 128)
            } else {
                Resolution::Decimal(raw)
            };
        }
        let step = 4 + (len + 3) / 4 * 4;
        if step > len_opts - pos {
            return Resolution::Decimal(6);
        }
        pos = pos + step;
    }
    Resolution::Decimal(6)
}

/// Reads the block at `pos` (of `total_len` bytes) into the interfaces and
/// frames read so far.
#[verifier::rlimit(50)]
fn read_block(
    bytes: &[u8],
    endian: Endian,
    pos: usize,
    total_len: usize,
    interfaces: &mut Vec<(u32, Resolution)>,
    frames: &mut Vec<Frame>,
)
    requires
        bytes@.len() <= isize::MAX,
        12 <= total_len,
        pos + total_len <= bytes@.len(),
        u32_in(endian, bytes@, pos + 4) == total_len,
        !(ng_block(bytes@, endian, pos as int, old(interfaces)@) is Unreadable),
    ensures
        ng_block(bytes@, endian, pos as int, old(interfaces)@) matches NgStep::Step {
            next,
            ifaces,
            frames: f,
        } && next == pos + total_len && ifaces == final(interfaces)@ && frames_view(
            final(frames)@,
        ) == frames_view(old(frames)@) + f,
{
    let ghost b = bytes@;
    let ghost step = ng_block(b, endian, pos as int, interfaces@);
    let block_type = endian.u32(bytes, pos);
    let bs = pos + 8;
    let be = pos + total_len - 4;
    let ghost body = b.subrange(bs as int, be as int);
    let ghost before = frames_view(frames@);
    let ghost ifaces0 = interfaces@;
    if block_type == 1 {
        let link = endian.u16(bytes, bs) as u32;
        assert(link == u16_in(endian, body, 0));
        let res = tsresol(endian, bytes, bs + 8, be);
        assert(b.subrange(bs + 8, be as int) =~= body.skip(8));
        interfaces.push((link, res));
        assert(frames_view(frames@) =~= before + Seq::<FrameView>::empty());
    } else if block_type == 6 && be - bs >= 20 {
        let iface = endian.u32(bytes, bs) as usize;
        let hi = endian.u32(bytes, bs + 4) as u64;
        let lo = endian.u32(bytes, bs + 8) as u64;
        let ticks = hi * 4294967296 + lo;
        let cap_len = endian.u32(bytes, bs + 12) as usize;
        assert(iface == u32_in(endian, body, 0));
        assert(hi == u32_in(endian, body, 4));
        assert(lo == u32_in(endian, body, 8));
        assert(cap_len == u32_in(endian, body, 12));
        let (linktype, scale) = if iface < interfaces.len() {
            interfaces[iface]
        } else {
            (1, Resolution::Decimal(6))
        };
        if cap_len <= be - bs - 20 {
            let data = slice_to_vec(slice_subrange(bytes, bs + 20, bs + 20 + cap_len));
            assert(data@ =~= body.subrange(20, 20 + cap_len));
            push_frame(
                frames,
                Frame { ts: Timestamp::Ticks { ticks, resolution: scale }, linktype, data },
            );
        } else {
            assert(frames_view(frames@) =~= before + Seq::<FrameView>::empty());
        }
    } else {
        assert(frames_view(frames@) =~= before + Seq::<FrameView>::empty());
    }
}

fn read_pcapng(bytes: &[u8]) -> (r: Result<Vec<Frame>, String>)
    requires
        bytes@.len() >= 4,
        u32_in(Endian::Little, bytes@, 0) == PCAPNG_SHB || u32_in(Endian::Big, bytes@, 0) == PCAPNG_SHB,
        capture_read(bytes@) is Some,
        bytes@.len() <= isize::MAX,
    ensures
        read_result(r) == capture_read(bytes@)->0,
{
    let ghost b = bytes@;
    let endian = if Endian::Little.u32(bytes, 8) == PCAPNG_BYTE_ORDER {
        Endian::Little
    } else if Endian::Big.u32(bytes, 8) == PCAPNG_BYTE_ORDER {
        Endian::Big
    } else {
        return Err("pcapng byte-order magic not recognized".to_owned());
    };
    let n = bytes.len();
    let mut interfaces: Vec<(u32, Resolution)> = Vec::new();
    let mut frames: Vec<Frame> = Vec::new();
    let mut pos: usize = 0;
    assert(frames_view(frames@) =~= Seq::<FrameView>::empty());
    assert(interfaces@ =~= Seq::<(u32, Resolution)>::empty());
    let ghost all = ng_frames(b, endian, 0, Seq::empty());
    assert(capture_read(b) == Some(Ok::<Seq<FrameView>, Seq<char>>(all->0)));
    loop
        invariant
            n == b.len(),
            b == bytes@,
            b.len() <= isize::MAX,
            pos <= n,
            all == ng_frames(b, endian, 0, Seq::empty()),
            capture_read(b) == Some(Ok::<Seq<FrameView>, Seq<char>>(all->0)),
            ng_frames(b, endian, pos as int, interfaces@) is Some,
            all->0 == frames_view(frames@) + ng_frames(b, endian, pos as int, interfaces@)->0,
        decreases n - pos,
    {
        let ghost step = ng_block(b, endian, pos as int, interfaces@);
        if n - pos < 12 {
            assert(step is End);
            assert(frames_view(frames@) + Seq::<FrameView>::empty() =~= frames_view(frames@));
            return Ok(frames);
        }
        let total_len = endian.u32(bytes, pos + 4) as usize;
        if total_len < 12 || total_len > n - pos {
            assert(step is End);
            assert(frames_view(frames@) + Seq::<FrameView>::empty() =~= frames_view(frames@));
            return Ok(frames);
        }
        let ghost before = frames_view(frames@);
        let ghost ifaces0 = interfaces@;
        assert(!(step is Unreadable));
        read_block(bytes, endian, pos, total_len, &mut interfaces, &mut frames);
        proof {
            let f = step->Step_frames;
            let rest = ng_frames(b, endian, (pos + total_len) as int, interfaces@);
            assert(ng_frames(b, endian, pos as int, ifaces0) == match rest {
                Some(r) => Some(f + r),
                None => None::<Seq<FrameView>>,
            });
            assert(all->0 =~= frames_view(frames@) + rest->0);
        }
        pos = pos + total_len;
    }
}

/// Whether `read` can take `bytes` (see `capture_read`).
pub fn readable(bytes: &[u8]) -> (r: bool)
    ensures
        r == capture_read(bytes@) is Some,
{
    if bytes.len() < 4 {
        return true;
    }
    let le = Endian::Little.u32(bytes, 0);
    let be = Endian::Big.u32(bytes, 0);
    if !(le == PCAPNG_SHB || be == PCAPNG_SHB) {
        return true;
    }
    if bytes.len() < 12 {
        return false;
    }
    let endian = if Endian::Little.u32(bytes, 8) == PCAPNG_BYTE_ORDER {
        Endian::Little
    } else if Endian::Big.u32(bytes, 8) == PCAPNG_BYTE_ORDER {
        Endian::Big
    } else {
        return true;
    };
    let ghost b = bytes@;
    let n = bytes.len();
    let ghost mut ifaces: Seq<(u32, Resolution)> = Seq::empty();
    let mut pos: usize = 0;
    assert((capture_read(b) is Some) == (ng_frames(b, endian, 0, Seq::empty()) is Some));
    loop
        invariant
            n == b.len(),
            b == bytes@,
            pos <= n,
            (capture_read(b) is Some) == (ng_frames(b, endian, pos as int, ifaces) is Some),
        decreases n - pos,
    {
        let ghost step = ng_block(b, endian, pos as int, ifaces);
        if n - pos < 12 {
            assert(step is End);
            return true;
        }
        let block_type = endian.u32(bytes, pos);
        let total_len = endian.u32(bytes, pos + 4) as usize;
        if total_len < 12 || total_len > n - pos {
            assert(step is End);
            return true;
        }
        let bs = pos + 8;
        let be = pos + total_len - 4;
        let ghost body = b.subrange(bs as int, be as int);
        if block_type == 1 {
            if be - bs < 8 {
                assert(step is Unreadable);
                return false;
            }
            proof {
                ifaces = ifaces.push(
                    (u16_in(endian, body, 0) as u32, tsresol_of(endian, body.skip(8), 0)),
                );
            }
        }
        assert(step matches NgStep::Step { next, ifaces: i2, frames: _ } && next == pos + total_len
            && i2 == ifaces);
        pos = pos + total_len;
    }
}

} // verus!
