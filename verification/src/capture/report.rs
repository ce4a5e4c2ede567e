//! What a capture shows: one line per packet, and the end-of-run report that
//! names every command, OpMode field and peer version the crate does not
//! already know.

use vstd::prelude::*;

use crate::capture::net::{Datagram, DatagramView};
use crate::client::{Endpoint, Ip};
use crate::cmd::{self, json_string_array, named_opmodes, opmodes_view, OpModeMeta};
use crate::packets::{default_peer_discovery, packet_result, Packet, PacketView, PeerDiscovery, PeerType};
use crate::text::{self, key_lt, push_dec, push_str};
use crate::types::RobotState;
use crate::wire::{decimal, error_message, Error};

verus! {

broadcast use vstd::seq_lib::group_seq_properties;

// ---------------------------------------------------------------------------
// Addresses as text
// ---------------------------------------------------------------------------

/// An IPv4 address in dotted decimal.
pub open spec fn v4_text(v: u32) -> Seq<char> {
    decimal((v / 0x100_0000) as nat) + "."@ + decimal(((v / 0x1_0000) % 0x100) as nat) + "."@
        + decimal(((v / 0x100) % 0x100) as nat) + "."@ + decimal((v % 0x100) as nat)
}

/// The eight 16-bit groups of an IPv6 address, most significant first.
pub open spec fn v6_groups(v: u128) -> Seq<u16> {
    seq![
        ((v / 0x1_0000_0000_0000_0000_0000_0000_0000) % 0x1_0000) as u16,
        ((v / 0x1_0000_0000_0000_0000_0000_0000) % 0x1_0000) as u16,
        ((v / 0x1_0000_0000_0000_0000_0000) % 0x1_0000) as u16,
        ((v / 0x1_0000_0000_0000_0000) % 0x1_0000) as u16,
        ((v / 0x1_0000_0000_0000) % 0x1_0000) as u16,
        ((v / 0x1_0000_0000) % 0x1_0000) as u16,
        ((v / 0x1_0000) % 0x1_0000) as u16,
        (v % 0x1_0000) as u16,
    ]
}

pub open spec fn hex_digit(d: nat) -> char {
    if d < 10 {
        (d + 48) as char
    } else {
        (d + 87) as char
    }
}

/// `n` in lower-case hexadecimal, without leading zeros.
pub open spec fn hex_text(n: nat) -> Seq<char>
    decreases n,
{
    if n < 16 {
        seq![hex_digit(n)]
    } else {
        hex_text(n / 16).push(hex_digit(n % 16))
    }
}

/// Groups in hexadecimal, separated by colons.
pub open spec fn groups_text(s: Seq<u16>) -> Seq<char>
    decreases s.len(),
{
    if s.len() == 0 {
        Seq::empty()
    } else if s.len() == 1 {
        hex_text(s[0] as nat)
    } else {
        groups_text(s.drop_last()) + ":"@ + hex_text(s.last() as nat)
    }
}

/// The longest run of zero groups from `i` on, given the run in progress
/// (`cs`, `cl`) and the longest so far (`bs`, `bl`); the first wins a tie.
pub open spec fn zero_run(s: Seq<u16>, i: int, cs: int, cl: int, bs: int, bl: int) -> (int, int)
    decreases s.len() - i,
{
    if i < 0 || i >= s.len() {
        (bs, bl)
    } else if s[i] == 0 {
        let cs2 = if cl == 0 {
            i
        } else {
            cs
        };
        if cl + 1 > bl {
            zero_run(s, i + 1, cs2, cl + 1, cs2, cl + 1)
        } else {
            zero_run(s, i + 1, cs2, cl + 1, bs, bl)
        }
    } else {
        zero_run(s, i + 1, 0, 0, bs, bl)
    }
}

/// An IPv6 address as text: an IPv4-mapped address as `::ffff:` and dotted
/// decimal; otherwise the groups in hexadecimal, with the longest run of two
/// or more zero groups (the first of equals) written as `::`.
pub open spec fn v6_text(v: u128) -> Seq<char> {
    let g = v6_groups(v);
    if g[0] == 0 && g[1] == 0 && g[2] == 0 && g[3] == 0 && g[4] == 0 && g[5] == 0xffff {
        "::ffff:"@ + v4_text(((g[6] as u32) * 0x1_0000 + g[7] as u32) as u32)
    } else {
        let (st, ln) = zero_run(g, 0, 0, 0, 0, 0);
        if ln > 1 {
            groups_text(g.subrange(0, st)) + "::"@ + groups_text(g.subrange(st + ln, 8))
        } else {
            groups_text(g)
        }
    }
}

pub open spec fn ip_text(ip: Ip) -> Seq<char> {
    match ip {
        Ip::V4(v) => v4_text(v),
        Ip::V6(v) => v6_text(v),
    }
}

/// `address:port`.
pub open spec fn endpoint_text(ip: Ip, port: u16) -> Seq<char> {
    ip_text(ip) + ":"@ + decimal(port as nat)
}

fn push_v4(s: &mut String, v: u32)
    ensures
        final(s)@ == old(s)@ + v4_text(v),
{
    push_dec(s, (v / 0x100_0000) as u64);
    push_str(s, ".");
    push_dec(s, ((v / 0x1_0000) % 0x100) as u64);
    push_str(s, ".");
    push_dec(s, ((v / 0x100) % 0x100) as u64);
    push_str(s, ".");
    push_dec(s, (v % 0x100) as u64);
    proof {
        reveal_strlit(".");
    }
    assert(s@ =~= old(s)@ + v4_text(v));
}

fn push_hex16(s: &mut String, n: u16)
    ensures
        final(s)@ == old(s)@ + hex_text(n as nat),
    decreases n,
{
    if n >= 16 {
        push_hex16(s, n / 16);
    }
    let d: u8 = (n % 16) as u8;
    let c = if d < 10 {
        (d + 48) as char
    } else {
        (d + 87) as char
    };
    text::push_char(s, c);
    proof {
        if n >= 16 {
            assert(hex_text(n as nat) == hex_text((n / 16) as nat).push(hex_digit((n % 16) as nat)));
        }
    }
}

fn push_groups(s: &mut String, g: &Vec<u16>, from: usize, to: usize)
    requires
        from <= to <= g@.len(),
    ensures
        final(s)@ == old(s)@ + groups_text(g@.subrange(from as int, to as int)),
{
    let mut i = from;
    assert(g@.subrange(from as int, from as int) =~= Seq::<u16>::empty());
    while i < to
        invariant
            from <= i <= to,
            to <= g@.len(),
            s@ == old(s)@ + groups_text(g@.subrange(from as int, i as int)),
        decreases to - i,
    {
        let ghost before = g@.subrange(from as int, i as int);
        let ghost after = g@.subrange(from as int, i + 1);
        assert(after.drop_last() =~= before);
        if i > from {
            push_str(s, ":");
            proof {
                reveal_strlit(":");
            }
        }
        push_hex16(s, g[i]);
        assert(s@ =~= old(s)@ + groups_text(after));
        i = i + 1;
    }
}

fn v6_group_vec(v: u128) -> (g: Vec<u16>)
    ensures
        g@ == v6_groups(v),
{
    let g = vec![
        ((v / 0x1_0000_0000_0000_0000_0000_0000_0000) % 0x1_0000) as u16,
        ((v / 0x1_0000_0000_0000_0000_0000_0000) % 0x1_0000) as u16,
        ((v / 0x1_0000_0000_0000_0000_0000) % 0x1_0000) as u16,
        ((v / 0x1_0000_0000_0000_0000) % 0x1_0000) as u16,
        ((v / 0x1_0000_0000_0000) % 0x1_0000) as u16,
        ((v / 0x1_0000_0000) % 0x1_0000) as u16,
        ((v / 0x1_0000) % 0x1_0000) as u16,
        (v % 0x1_0000) as u16,
    ];
    assert(g@ =~= v6_groups(v));
    g
}

fn push_v6(s: &mut String, v: u128)
    ensures
        final(s)@ == old(s)@ + v6_text(v),
{
    let g = v6_group_vec(v);
    if g[0] == 0 && g[1] == 0 && g[2] == 0 && g[3] == 0 && g[4] == 0 && g[5] == 0xffff {
        push_str(s, "::ffff:");
        push_v4(s, (g[6] as u32) * 0x1_0000 + g[7] as u32);
        proof {
            reveal_strlit("::ffff:");
        }
        assert(s@ =~= old(s)@ + v6_text(v));
        return;
    }
    let mut i: usize = 0;
    let mut cs: usize = 0;
    let mut cl: usize = 0;
    let mut bs: usize = 0;
    let mut bl: usize = 0;
    while i < 8
        invariant
            g@ == v6_groups(v),
            i <= 8,
            cl <= i,
            cl > 0 ==> cs + cl == i,
            bs + bl <= i,
            zero_run(g@, 0, 0, 0, 0, 0) == zero_run(g@, i as int, cs as int, cl as int, bs as int, bl as int),
        decreases 8 - i,
    {
        if g[i] == 0 {
            if cl == 0 {
                cs = i;
            }
            cl = cl + 1;
            if cl > bl {
                bs = cs;
                bl = cl;
            }
        } else {
            cs = 0;
            cl = 0;
        }
        i = i + 1;
    }
    assert(zero_run(g@, 0, 0, 0, 0, 0) == (bs as int, bl as int));
    if bl > 1 {
        push_groups(s, &g, 0, bs);
        push_str(s, "::");
        push_groups(s, &g, bs + bl, 8);
        proof {
            reveal_strlit("::");
        }
    } else {
        push_groups(s, &g, 0, 8);
        assert(g@.subrange(0, 8) =~= g@);
    }
    assert(s@ =~= old(s)@ + v6_text(v));
}

/// Appends `address:port`.
fn push_endpoint(s: &mut String, ip: Ip, port: u16)
    ensures
        final(s)@ == old(s)@ + endpoint_text(ip, port),
{
    match ip {
        Ip::V4(v) => push_v4(s, v),
        Ip::V6(v) => push_v6(s, v),
    }
    push_str(s, ":");
    push_dec(s, port as u64);
    proof {
        reveal_strlit(":");
    }
    assert(s@ =~= old(s)@ + endpoint_text(ip, port));
}


// ---------------------------------------------------------------------------
// Names and text pieces
// ---------------------------------------------------------------------------

/// Every command name `cmd` declares.
pub open spec fn is_known(n: Seq<char>) -> bool {
    ||| n == cmd::REQUEST_OP_MODE_LIST@
    ||| n == cmd::INIT_OP_MODE@
    ||| n == cmd::RUN_OP_MODE@
    ||| n == cmd::REQUEST_ACTIVE_CONFIG@
    ||| n == cmd::REQUEST_CONFIGURATIONS@
    ||| n == cmd::REQUEST_PARTICULAR_CONFIGURATION@
    ||| n == cmd::REQUEST_USER_DEVICE_TYPES@
    ||| n == cmd::SAVE_CONFIGURATION@
    ||| n == cmd::ACTIVATE_CONFIGURATION@
    ||| n == cmd::DELETE_CONFIGURATION@
    ||| n == cmd::RESTART_ROBOT@
    ||| n == cmd::SCAN@
    ||| n == cmd::DISCOVER_LYNX_MODULES@
    ||| n == cmd::REQUEST_FRAME@
    ||| n == cmd::NOTIFY_OP_MODE_LIST@
    ||| n == cmd::NOTIFY_INIT_OP_MODE@
    ||| n == cmd::NOTIFY_RUN_OP_MODE@
    ||| n == cmd::NOTIFY_ACTIVE_CONFIGURATION@
    ||| n == cmd::NOTIFY_USER_DEVICE_LIST@
    ||| n == cmd::REQUEST_CONFIGURATIONS_RESP@
    ||| n == cmd::REQUEST_PARTICULAR_CONFIGURATION_RESP@
    ||| n == cmd::SCAN_RESP@
    ||| n == cmd::DISCOVER_LYNX_MODULES_RESP@
    ||| n == cmd::SHOW_STACKTRACE@
    ||| n == cmd::STREAM_CHANGE@
    ||| n == cmd::RECEIVE_FRAME_BEGIN@
    ||| n == cmd::RECEIVE_FRAME_CHUNK@
}

/// Whether `cmd` declares the command name `n`.
pub fn known_command(n: &str) -> (r: bool)
    ensures
        r == is_known(n@),
{
    text::str_eq(n, cmd::REQUEST_OP_MODE_LIST) || text::str_eq(n, cmd::INIT_OP_MODE)
        || text::str_eq(n, cmd::RUN_OP_MODE) || text::str_eq(n, cmd::REQUEST_ACTIVE_CONFIG)
        || text::str_eq(n, cmd::REQUEST_CONFIGURATIONS) || text::str_eq(
        n,
        cmd::REQUEST_PARTICULAR_CONFIGURATION,
    ) || text::str_eq(n, cmd::REQUEST_USER_DEVICE_TYPES) || text::str_eq(n, cmd::SAVE_CONFIGURATION)
        || text::str_eq(n, cmd::ACTIVATE_CONFIGURATION) || text::str_eq(n, cmd::DELETE_CONFIGURATION)
        || text::str_eq(n, cmd::RESTART_ROBOT) || text::str_eq(n, cmd::SCAN) || text::str_eq(
        n,
        cmd::DISCOVER_LYNX_MODULES,
    ) || text::str_eq(n, cmd::REQUEST_FRAME) || text::str_eq(n, cmd::NOTIFY_OP_MODE_LIST)
        || text::str_eq(n, cmd::NOTIFY_INIT_OP_MODE) || text::str_eq(n, cmd::NOTIFY_RUN_OP_MODE)
        || text::str_eq(n, cmd::NOTIFY_ACTIVE_CONFIGURATION) || text::str_eq(
        n,
        cmd::NOTIFY_USER_DEVICE_LIST,
    ) || text::str_eq(n, cmd::REQUEST_CONFIGURATIONS_RESP) || text::str_eq(
        n,
        cmd::REQUEST_PARTICULAR_CONFIGURATION_RESP,
    ) || text::str_eq(n, cmd::SCAN_RESP) || text::str_eq(n, cmd::DISCOVER_LYNX_MODULES_RESP)
        || text::str_eq(n, cmd::SHOW_STACKTRACE) || text::str_eq(n, cmd::STREAM_CHANGE)
        || text::str_eq(n, cmd::RECEIVE_FRAME_BEGIN) || text::str_eq(n, cmd::RECEIVE_FRAME_CHUNK)
}

/// The high-rate packets a listing hides unless asked for all.
pub open spec fn is_noisy(p: PacketView) -> bool {
    match p {
        PacketView::Command(c) => c.name == cmd::RECEIVE_FRAME_CHUNK@ || c.name
            == cmd::RECEIVE_FRAME_BEGIN@,
        PacketView::PeerDiscovery(_) => false,
        _ => true,
    }
}

/// The name of a robot state.
pub open spec fn state_name(s: RobotState) -> Seq<char> {
    match s {
        RobotState::Unknown => "Unknown"@,
        RobotState::NotStarted => "NotStarted"@,
        RobotState::Init => "Init"@,
        RobotState::Running => "Running"@,
        RobotState::Stopped => "Stopped"@,
        RobotState::EmergencyStop => "EmergencyStop"@,
    }
}

pub fn state_str(s: RobotState) -> (r: &'static str)
    ensures
        r@ == state_name(s),
{
    match s {
        RobotState::Unknown => "Unknown",
        RobotState::NotStarted => "NotStarted",
        RobotState::Init => "Init",
        RobotState::Running => "Running",
        RobotState::Stopped => "Stopped",
        RobotState::EmergencyStop => "EmergencyStop",
    }
}

/// The name of a peer type.
pub open spec fn peer_type_name(t: PeerType) -> Seq<char> {
    match t {
        PeerType::Unset => "Unset"@,
        PeerType::Peer => "Peer"@,
        PeerType::GroupOwner => "GroupOwner"@,
        PeerType::NotConnectedDueToPreexistingConnection => "NotConnectedDueToPreexistingConnection"@,
    }
}

fn peer_type_str(t: PeerType) -> (r: &'static str)
    ensures
        r@ == peer_type_name(t),
{
    match t {
        PeerType::Unset => "Unset",
        PeerType::Peer => "Peer",
        PeerType::GroupOwner => "GroupOwner",
        PeerType::NotConnectedDueToPreexistingConnection => "NotConnectedDueToPreexistingConnection",
    }
}

/// What `{:?}` writes for a string: the string quoted, with its special
/// characters escaped.
pub uninterp spec fn debug_text(s: Seq<char>) -> Seq<char>;

/// `<str as Debug>::fmt`, through `format!("{:?}")`: a function of the
/// string alone (std's escaping rules; nothing here spells them out).
#[verifier::external_body]
fn debug_string(s: &str) -> (r: String)
    ensures
        r@ == debug_text(s@),
{
    format!("{:?}", s)
}

/// One character of a single-line rendering: a newline becomes `\n`, a
/// carriage return disappears.
pub open spec fn one_line_char(c: char) -> Seq<char> {
    if c == '\n' {
        seq!['\\', 'n']
    } else if c == '\r' {
        Seq::empty()
    } else {
        seq![c]
    }
}

pub open spec fn one_line(s: Seq<char>) -> Seq<char>
    decreases s.len(),
{
    if s.len() == 0 {
        Seq::empty()
    } else {
        one_line(s.drop_last()) + one_line_char(s.last())
    }
}

/// `s` on one line, cut after `max` characters (0: never) with a note of
/// its full length.
pub open spec fn clip(s: Seq<char>, max: nat) -> Seq<char> {
    let o = one_line(s);
    if max == 0 || o.len() <= max {
        o
    } else {
        o.take(max as int) + "... ["@ + decimal(o.len()) + " chars total]"@
    }
}

fn one_line_string(s: &str) -> (r: Vec<char>)
    ensures
        r@ == one_line(s@),
{
    let cs = text::chars_of(s);
    let mut r: Vec<char> = Vec::new();
    let mut i: usize = 0;
    while i < cs.len()
        invariant
            i <= cs@.len(),
            cs@ == s@,
            r@ == one_line(s@.take(i as int)),
        decreases cs@.len() - i,
    {
        let c = cs[i];
        assert(s@.take(i + 1).drop_last() =~= s@.take(i as int));
        if c == '\n' {
            r.push('\\');
            r.push('n');
            assert(r@ =~= one_line(s@.take(i + 1)));
        } else if c == '\r' {
            assert(r@ =~= one_line(s@.take(i + 1)));
        } else {
            r.push(c);
            assert(r@ =~= one_line(s@.take(i + 1)));
        }
        i = i + 1;
    }
    assert(s@.take(cs@.len() as int) =~= s@);
    r
}

/// Appends `clip(s, max)`.
fn push_clip(out: &mut String, s: &str, max: usize)
    ensures
        final(out)@ == old(out)@ + clip(s@, max as nat),
{
    let o = one_line_string(s);
    if max == 0 || o.len() <= max {
        let t = text::string_of(&o, 0, o.len());
        assert(o@.subrange(0, o@.len() as int) =~= o@);
        push_str(out, t.as_str());
    } else {
        let t = text::string_of(&o, 0, max);
        push_str(out, t.as_str());
        push_str(out, "... [");
        push_dec(out, o.len() as u64);
        push_str(out, " chars total]");
        assert(o@.subrange(0, max as int) =~= o@.take(max as int));
    }
    assert(out@ =~= old(out)@ + clip(s@, max as nat));
}

/// A byte in two lower-case hexadecimal digits.
pub open spec fn hex2(b: u8) -> Seq<char> {
    seq![hex_digit((b / 16) as nat), hex_digit((b % 16) as nat)]
}

/// Bytes in hexadecimal, separated by spaces.
pub open spec fn bytes_hex(s: Seq<u8>) -> Seq<char>
    decreases s.len(),
{
    if s.len() == 0 {
        Seq::empty()
    } else if s.len() == 1 {
        hex2(s[0])
    } else {
        bytes_hex(s.drop_last()) + " "@ + hex2(s.last())
    }
}

fn push_bytes_hex(out: &mut String, b: &[u8], n: usize)
    requires
        n <= b@.len(),
    ensures
        final(out)@ == old(out)@ + bytes_hex(b@.take(n as int)),
{
    let mut i: usize = 0;
    assert(b@.take(0) =~= Seq::<u8>::empty());
    while i < n
        invariant
            i <= n <= b@.len(),
            out@ == old(out)@ + bytes_hex(b@.take(i as int)),
        decreases n - i,
    {
        assert(b@.take(i + 1).drop_last() =~= b@.take(i as int));
        if i > 0 {
            push_str(out, " ");
        }
        let x = b[i];
        let hi: u8 = x / 16;
        let lo: u8 = x % 16;
        text::push_char(out, if hi < 10 { (hi + 48) as char } else { (hi + 87) as char });
        text::push_char(out, if lo < 10 { (lo + 48) as char } else { (lo + 87) as char });
        assert(out@ =~= old(out)@ + bytes_hex(b@.take(i + 1)));
        i = i + 1;
    }
}

// ---------------------------------------------------------------------------
// One line per packet
// ---------------------------------------------------------------------------

/// Which way a datagram went: from or to a Robot Controller endpoint, or
/// else between its two endpoints. Matched on the whole endpoint, since on
/// loopback both peers share an address.
pub open spec fn direction(d: DatagramView, rc: Seq<Endpoint>) -> Seq<char> {
    if rc.contains(Endpoint { ip: d.src, port: d.sport }) {
        "RC->DS"@
    } else if rc.contains(Endpoint { ip: d.dst, port: d.dport }) {
        "DS->RC"@
    } else {
        endpoint_text(d.src, d.sport) + "->"@ + endpoint_text(d.dst, d.dport)
    }
}

fn has_endpoint(rc: &[Endpoint], e: Endpoint) -> (r: bool)
    ensures
        r == rc@.contains(e),
{
    let mut i: usize = 0;
    while i < rc.len()
        invariant
            i <= rc@.len(),
            forall|j: int| 0 <= j < i ==> rc@[j] != e,
        decreases rc@.len() - i,
    {
        if rc[i] == e {
            assert(rc@[i as int] == e);
            return true;
        }
        i = i + 1;
    }
    false
}

fn direction_string(d: &Datagram, rc: &[Endpoint]) -> (r: String)
    ensures
        r@ == direction(d@, rc@),
{
    if has_endpoint(rc, Endpoint { ip: d.src, port: d.sport }) {
        "RC->DS".to_owned()
    } else if has_endpoint(rc, Endpoint { ip: d.dst, port: d.dport }) {
        "DS->RC".to_owned()
    } else {
        let mut r = String::new();
        push_endpoint(&mut r, d.src, d.sport);
        push_str(&mut r, "->");
        push_endpoint(&mut r, d.dst, d.dport);
        assert(r@ =~= direction(d@, rc@));
        r
    }
}

/// The peer-discovery fields as the report keys them.
pub open spec fn peer_fields(p: crate::packets::PeerDiscovery) -> Seq<char> {
    "robocol="@ + decimal(p.robocol_version as nat) + " sdk="@ + decimal(p.sdk_major_version as nat)
        + "."@ + decimal(p.sdk_minor_version as nat) + " build="@ + decimal(
        p.sdk_build_month as nat,
    ) + "/"@ + decimal(p.sdk_build_year as nat) + " type="@ + peer_type_name(p.peer_type)
}

fn push_peer_fields(out: &mut String, p: &crate::packets::PeerDiscovery)
    ensures
        final(out)@ == old(out)@ + peer_fields(*p),
{
    push_str(out, "robocol=");
    push_dec(out, p.robocol_version as u64);
    push_str(out, " sdk=");
    push_dec(out, p.sdk_major_version as u64);
    push_str(out, ".");
    push_dec(out, p.sdk_minor_version as u64);
    push_str(out, " build=");
    push_dec(out, p.sdk_build_month as u64);
    push_str(out, "/");
    push_dec(out, p.sdk_build_year as u64);
    push_str(out, " type=");
    push_str(out, peer_type_str(p.peer_type));
    assert(out@ =~= old(out)@ + peer_fields(*p));
}

/// What a listing says of a command.
pub open spec fn command_body(c: crate::packets::CommandView, max_extra: nat) -> Seq<char> {
    let tag = if c.acknowledged {
        "ack"@
    } else if is_known(c.name) {
        "cmd"@
    } else {
        "cmd NEW"@
    };
    let limit: nat = if c.name == cmd::NOTIFY_OP_MODE_LIST@ || !is_known(c.name) {
        0
    } else {
        max_extra
    };
    let head = tag + " "@ + c.name + " #"@ + decimal(c.seq as nat);
    if c.extra.len() == 0 {
        head
    } else {
        head + ": "@ + clip(c.extra, limit)
    }
}

/// What a listing says of a packet, after its direction.
pub open spec fn packet_body(p: PacketView, max_extra: nat) -> Seq<char> {
    match p {
        PacketView::Command(c) => command_body(c, max_extra),
        PacketView::PeerDiscovery(p) => "peer-discovery "@ + peer_fields(p),
        PacketView::Heartbeat(h) => "heartbeat #"@ + decimal(h.seq as nat) + " state="@ + state_name(
            h.robot_state,
        ),
        PacketView::Telemetry(t) => "telemetry #"@ + decimal(t.seq as nat) + " state="@
            + state_name(t.robot_state) + " tag="@ + debug_text(t.tag) + " "@ + decimal(
            t.strings.len(),
        ) + " strings "@ + decimal(t.numbers.len()) + " numbers"@,
        PacketView::Gamepad(g) => "gamepad #"@ + decimal(g.seq as nat),
        PacketView::KeepAlive(_) => "keep-alive"@,
    }
}

/// The line a listing prints for a datagram, after its time column: `None`
/// for a high-rate packet unless `all`. An undecodable payload is shown
/// with its error, length and first 24 bytes.
pub open spec fn packet_line(
    d: DatagramView,
    parsed: Result<PacketView, Error>,
    rc: Seq<Endpoint>,
    max_extra: nat,
    all: bool,
) -> Option<Seq<char>> {
    let dir = direction(d, rc);
    match parsed {
        Err(e) => Some(
            dir + "  !! undecodable ("@ + error_message(e) + "), "@ + decimal(d.payload.len())
                + " bytes: "@ + bytes_hex(
                d.payload.take(if d.payload.len() < 24 {
                    d.payload.len() as int
                } else {
                    24
                }),
            ),
        ),
        Ok(p) => if !all && is_noisy(p) {
            None
        } else {
            Some(
                dir + "  "@ + packet_body(p, max_extra) + if d.fragmented {
                    " [reassembled]"@
                } else {
                    Seq::empty()
                },
            )
        },
    }
}

fn push_command_body(out: &mut String, c: &crate::packets::Command, max_extra: usize)
    ensures
        final(out)@ == old(out)@ + command_body(c@, max_extra as nat),
{
    let known = known_command(c.name.as_str());
    if c.acknowledged {
        push_str(out, "ack");
    } else if known {
        push_str(out, "cmd");
    } else {
        push_str(out, "cmd NEW");
    }
    let limit = if text::str_eq(c.name.as_str(), cmd::NOTIFY_OP_MODE_LIST) || !known {
        0
    } else {
        max_extra
    };
    push_str(out, " ");
    push_str(out, c.name.as_str());
    push_str(out, " #");
    push_dec(out, c.seq as u64);
    if !c.extra.as_str().is_empty() {
        push_str(out, ": ");
        push_clip(out, c.extra.as_str(), limit);
    }
    assert(out@ =~= old(out)@ + command_body(c@, max_extra as nat));
}

#[verifier::spinoff_prover]
fn push_body(out: &mut String, p: &Packet, max_extra: usize)
    ensures
        final(out)@ == old(out)@ + packet_body(p@, max_extra as nat),
{
    match p {
        Packet::Command(c) => push_command_body(out, c, max_extra),
        Packet::PeerDiscovery(pd) => {
            push_str(out, "peer-discovery ");
            push_peer_fields(out, pd);
        },
        Packet::Heartbeat(h) => {
            push_str(out, "heartbeat #");
            push_dec(out, h.seq as u64);
            push_str(out, " state=");
            push_str(out, state_str(h.robot_state));
        },
        Packet::Telemetry(t) => {
            push_str(out, "telemetry #");
            push_dec(out, t.seq as u64);
            push_str(out, " state=");
            push_str(out, state_str(t.robot_state));
            push_str(out, " tag=");
            let d = debug_string(t.tag.as_str());
            push_str(out, d.as_str());
            push_str(out, " ");
            push_dec(out, t.strings.len() as u64);
            push_str(out, " strings ");
            push_dec(out, t.numbers.len() as u64);
            push_str(out, " numbers");
            assert(t@.strings.len() == t.strings@.len());
            assert(t@.numbers.len() == t.numbers@.len());
        },
        Packet::Gamepad(g) => {
            push_str(out, "gamepad #");
            push_dec(out, g.seq as u64);
        },
        Packet::KeepAlive(_) => {
            push_str(out, "keep-alive");
        },
    }
    assert(out@ =~= old(out)@ + packet_body(p@, max_extra as nat));
}

/// The line a listing prints for `d` after its time column (see
/// `packet_line`).
pub fn format_line(
    d: &Datagram,
    parsed: &Result<Packet, Error>,
    rc: &[Endpoint],
    max_extra: usize,
    all: bool,
) -> (r: Option<String>)
    ensures
        match r {
            Some(s) => packet_line(d@, packet_result(*parsed), rc@, max_extra as nat, all) == Some(s@),
            None => packet_line(d@, packet_result(*parsed), rc@, max_extra as nat, all) is None,
        },
{
    match parsed {
        Err(e) => {
            let mut out = direction_string(d, rc);
            push_str(&mut out, "  !! undecodable (");
            let m = e.message();
            push_str(&mut out, m.as_str());
            push_str(&mut out, "), ");
            push_dec(&mut out, d.payload.len() as u64);
            push_str(&mut out, " bytes: ");
            let n = if d.payload.len() < 24 {
                d.payload.len()
            } else {
                24
            };
            push_bytes_hex(&mut out, d.payload.as_slice(), n);
            assert(out@ =~= packet_line(d@, packet_result(*parsed), rc@, max_extra as nat, all)->0);
            Some(out)
        },
        Ok(p) => {
            let noisy = match p {
                Packet::Command(c) => text::str_eq(c.name.as_str(), cmd::RECEIVE_FRAME_CHUNK)
                    || text::str_eq(c.name.as_str(), cmd::RECEIVE_FRAME_BEGIN),
                Packet::PeerDiscovery(_) => false,
                _ => true,
            };
            if !all && noisy {
                return None;
            }
            let mut out = direction_string(d, rc);
            push_str(&mut out, "  ");
            push_body(&mut out, p, max_extra);
            if d.fragmented {
                push_str(&mut out, " [reassembled]");
            }
            assert(out@ =~= packet_line(d@, packet_result(*parsed), rc@, max_extra as nat, all)->0);
            Some(out)
        },
    }
}


// ---------------------------------------------------------------------------
// Ordered sets and tallies of strings
// ---------------------------------------------------------------------------

/// Where `k` goes among ordered keys: after every key that precedes it.
pub open spec fn slot(ks: Seq<Seq<char>>, k: Seq<char>) -> int
    decreases ks.len(),
{
    if ks.len() == 0 {
        0
    } else if key_lt(ks[0], k) {
        1 + slot(ks.drop_first(), k)
    } else {
        0
    }
}

pub open spec fn strings_view(v: Seq<String>) -> Seq<Seq<char>> {
    v.map_values(|s: String| s@)
}

pub open spec fn str_keys<V>(v: Seq<(String, V)>) -> Seq<Seq<char>> {
    v.map_values(|p: (String, V)| p.0@)
}

pub open spec fn keys_of<V>(m: Seq<(Seq<char>, V)>) -> Seq<Seq<char>> {
    m.map_values(|p: (Seq<char>, V)| p.0)
}

/// Adds `k` to an ordered set.
pub open spec fn set_ins(s: Seq<Seq<char>>, k: Seq<char>) -> Seq<Seq<char>> {
    let i = slot(s, k);
    if i < s.len() && s[i] == k {
        s
    } else {
        s.insert(i, k)
    }
}

/// Counts one more `k` in an ordered tally.
pub open spec fn bump(m: Seq<(Seq<char>, usize)>, k: Seq<char>) -> Seq<(Seq<char>, usize)> {
    let i = slot(keys_of(m), k);
    if i < m.len() && m[i].0 == k {
        m.update(i, (k, (m[i].1 + 1) as usize))
    } else {
        m.insert(i, (k, 1usize))
    }
}

/// Every count of a tally is at most `n`.
pub open spec fn counts_le(m: Seq<(Seq<char>, usize)>, n: int) -> bool {
    forall|i: int| 0 <= i < m.len() ==> #[trigger] m[i].1 <= n
}

proof fn slot_bound(ks: Seq<Seq<char>>, k: Seq<char>)
    ensures
        0 <= slot(ks, k) <= ks.len(),
    decreases ks.len(),
{
    if ks.len() > 0 && key_lt(ks[0], k) {
        slot_bound(ks.drop_first(), k);
    }
}

proof fn bump_le(m: Seq<(Seq<char>, usize)>, k: Seq<char>, n: int)
    requires
        counts_le(m, n),
        n >= 0,
    ensures
        counts_le(bump(m, k), n + 1),
{
    slot_bound(keys_of(m), k);
    let r = bump(m, k);
    assert forall|i: int| 0 <= i < r.len() implies #[trigger] r[i].1 <= n + 1 by {
        let j = slot(keys_of(m), k);
        if j < m.len() && m[j].0 == k {
            if i != j {
                assert(r[i] == m[i]);
            }
        } else if i < j {
            assert(r[i] == m[i]);
        } else if i > j {
            assert(r[i] == m[i - 1]);
        }
    }
}

fn find_slot<V>(v: &Vec<(String, V)>, k: &str) -> (r: usize)
    ensures
        r == slot(str_keys(v@), k@),
        r <= v@.len(),
{
    let ghost ks = str_keys(v@);
    let mut i: usize = 0;
    assert(ks.skip(0) =~= ks);
    while i < v.len()
        invariant
            ks == str_keys(v@),
            i <= v@.len(),
            slot(ks, k@) == i + slot(ks.skip(i as int), k@),
        decreases v@.len() - i,
    {
        assert(ks.skip(i as int)[0] == v@[i as int].0@);
        if !text::str_less(v[i].0.as_str(), k) {
            return i;
        }
        assert(ks.skip(i as int).drop_first() =~= ks.skip(i + 1));
        i = i + 1;
    }
    assert(ks.skip(i as int) =~= Seq::<Seq<char>>::empty());
    i
}

fn find_set_slot(v: &Vec<String>, k: &str) -> (r: usize)
    ensures
        r == slot(strings_view(v@), k@),
        r <= v@.len(),
{
    let ghost ks = strings_view(v@);
    let mut i: usize = 0;
    assert(ks.skip(0) =~= ks);
    while i < v.len()
        invariant
            ks == strings_view(v@),
            i <= v@.len(),
            slot(ks, k@) == i + slot(ks.skip(i as int), k@),
        decreases v@.len() - i,
    {
        assert(ks.skip(i as int)[0] == v@[i as int]@);
        if !text::str_less(v[i].as_str(), k) {
            return i;
        }
        assert(ks.skip(i as int).drop_first() =~= ks.skip(i + 1));
        i = i + 1;
    }
    assert(ks.skip(i as int) =~= Seq::<Seq<char>>::empty());
    i
}

fn set_insert(v: &mut Vec<String>, k: &str)
    ensures
        strings_view(final(v)@) == set_ins(strings_view(old(v)@), k@),
{
    let i = find_set_slot(v, k);
    if i < v.len() && text::str_eq(v[i].as_str(), k) {
        return;
    }
    v.insert(i, k.to_owned());
    assert(strings_view(v@) =~= strings_view(old(v)@).insert(i as int, k@));
}

pub open spec fn counts_view(v: Seq<(String, usize)>) -> Seq<(Seq<char>, usize)> {
    v.map_values(|p: (String, usize)| (p.0@, p.1))
}

fn bump_count(v: &mut Vec<(String, usize)>, k: &str)
    requires
        counts_le(counts_view(old(v)@), usize::MAX - 1),
    ensures
        counts_view(final(v)@) == bump(counts_view(old(v)@), k@),
{
    let ghost m = counts_view(v@);
    assert(str_keys(v@) =~= keys_of(m));
    let i = find_slot(v, k);
    if i < v.len() && text::str_eq(v[i].0.as_str(), k) {
        let n = v[i].1;
        assert(m[i as int].1 == n);
        v.set(i, (k.to_owned(), n + 1));
        assert(counts_view(v@) =~= m.update(i as int, (k@, (n + 1) as usize)));
    } else {
        v.insert(i, (k.to_owned(), 1));
        assert(counts_view(v@) =~= m.insert(i as int, (k@, 1usize)));
    }
}

// ---------------------------------------------------------------------------
// The report
// ---------------------------------------------------------------------------

pub open spec fn fields_view(v: Seq<(String, String)>) -> Seq<(Seq<char>, Seq<char>)> {
    v.map_values(|p: (String, String)| (p.0@, p.1@))
}

pub open spec fn item_view(i: Option<Vec<(String, String)>>) -> Option<Seq<(Seq<char>, Seq<char>)>> {
    match i {
        Some(f) => Some(fields_view(f@)),
        None => None,
    }
}

pub open spec fn items_view(v: Seq<Option<Vec<(String, String)>>>) -> Seq<Option<Seq<(Seq<char>, Seq<char>)>>> {
    v.map_values(|i: Option<Vec<(String, String)>>| item_view(i))
}

/// The items of a JSON array, as serde_json reads `text`: each object as
/// its fields in the order serde_json keeps them, every value rendered back
/// as JSON text, and any other item as `None`; `None` where `text` is not a
/// JSON array.
pub uninterp spec fn json_object_fields(text: Seq<char>) -> Option<Seq<Option<Seq<(Seq<char>, Seq<char>)>>>>;

pub open spec fn fields_result(r: Option<Vec<Option<Vec<(String, String)>>>>) -> Option<
    Seq<Option<Seq<(Seq<char>, Seq<char>)>>>,
> {
    match r {
        Some(v) => Some(items_view(v@)),
        None => None,
    }
}

/// `serde_json::from_str::<serde_json::Value>`, its array items converted
/// to plain fields (`Value::to_string` renders each value): the claim is
/// only that the result depends on the text alone, and is named
/// `json_object_fields`.
#[verifier::external_body]
pub fn opmode_object_fields(text: &str) -> (r: Option<Vec<Option<Vec<(String, String)>>>>)
    ensures
        fields_result(r) == json_object_fields(text@),
{
    match serde_json::from_str::<serde_json::Value>(text) {
        Ok(serde_json::Value::Array(items)) => Some(
            items
                .iter()
                .map(|item| item.as_object().map(|o| o.iter().map(|(k, v)| (k.clone(), v.to_string())).collect()))
                .collect(),
        ),
        _ => None,
    }
}

/// The OpMode list in object form, as a JSON reader gives it.
pub open spec fn objects_view(o: Option<Vec<OpModeMeta>>) -> Option<Seq<OpModeMeta>> {
    match o {
        Some(m) => Some(m@),
        None => None,
    }
}

/// What the report has learnt of the OpMode lists.
pub struct Findings {
    lists: usize,
    flavors: Vec<String>,
    groups: Vec<String>,
    dropped_fields: Vec<String>,
    json_entries: usize,
    parsed_entries: usize,
    unparsable: Vec<String>,
}

pub struct FindingsView {
    pub lists: usize,
    pub flavors: Seq<Seq<char>>,
    pub groups: Seq<Seq<char>>,
    pub dropped_fields: Seq<Seq<char>>,
    pub json_entries: usize,
    pub parsed_entries: usize,
    pub unparsable: Seq<Seq<char>>,
}

impl View for Findings {
    type V = FindingsView;

    closed spec fn view(&self) -> FindingsView {
        FindingsView {
            lists: self.lists,
            flavors: strings_view(self.flavors@),
            groups: strings_view(self.groups@),
            dropped_fields: strings_view(self.dropped_fields@),
            json_entries: self.json_entries,
            parsed_entries: self.parsed_entries,
            unparsable: strings_view(self.unparsable@),
        }
    }
}

/// What a run over a capture has seen, for the end-of-run report.
pub struct Report {
    rc: Vec<Endpoint>,
    commands: Vec<(String, Vec<(String, usize)>)>,
    peers: Vec<(String, (String, usize))>,
    opmodes: Findings,
    inited: Vec<String>,
    ran: Vec<String>,
    packets: usize,
    reassembled: usize,
    undecodable: Vec<(String, usize)>,
}

/// The report as a value: commands tallied by name and then direction,
/// peer versions with the direction first seen and a count, the names of
/// inited and run OpModes, and undecodable packets tallied by error.
pub struct ReportView {
    pub rc: Seq<Endpoint>,
    pub commands: Seq<(Seq<char>, Seq<(Seq<char>, usize)>)>,
    pub peers: Seq<(Seq<char>, (Seq<char>, usize))>,
    pub opmodes: FindingsView,
    pub inited: Seq<Seq<char>>,
    pub ran: Seq<Seq<char>>,
    pub packets: usize,
    pub reassembled: usize,
    pub undecodable: Seq<(Seq<char>, usize)>,
}

pub open spec fn commands_view(v: Seq<(String, Vec<(String, usize)>)>) -> Seq<(Seq<char>, Seq<(Seq<char>, usize)>)> {
    v.map_values(|p: (String, Vec<(String, usize)>)| (p.0@, counts_view(p.1@)))
}

pub open spec fn peers_view(v: Seq<(String, (String, usize))>) -> Seq<(Seq<char>, (Seq<char>, usize))> {
    v.map_values(|p: (String, (String, usize))| (p.0@, (p.1.0@, p.1.1)))
}

impl View for Report {
    type V = ReportView;

    closed spec fn view(&self) -> ReportView {
        ReportView {
            rc: self.rc@,
            commands: commands_view(self.commands@),
            peers: peers_view(self.peers@),
            opmodes: self.opmodes@,
            inited: strings_view(self.inited@),
            ran: strings_view(self.ran@),
            packets: self.packets,
            reassembled: self.reassembled,
            undecodable: counts_view(self.undecodable@),
        }
    }
}

/// No count of a report exceeds `n`.
pub open spec fn counts_within(r: ReportView, n: int) -> bool {
    &&& r.reassembled <= n
    &&& r.opmodes.lists <= n
    &&& counts_le(r.undecodable, n)
    &&& forall|i: int| 0 <= i < r.commands.len() ==> counts_le(#[trigger] r.commands[i].1, n)
    &&& forall|i: int| 0 <= i < r.peers.len() ==> #[trigger] r.peers[i].1.1 <= n
}

/// No count of a report exceeds the number of packets it has seen.
pub open spec fn report_wf(r: ReportView) -> bool {
    counts_within(r, r.packets as int)
}

/// Counts a command under its name and direction.
pub open spec fn bump_command(
    m: Seq<(Seq<char>, Seq<(Seq<char>, usize)>)>,
    name: Seq<char>,
    dir: Seq<char>,
) -> Seq<(Seq<char>, Seq<(Seq<char>, usize)>)> {
    let i = slot(keys_of(m), name);
    if i < m.len() && m[i].0 == name {
        m.update(i, (name, bump(m[i].1, dir)))
    } else {
        m.insert(i, (name, seq![(dir, 1usize)]))
    }
}

/// Counts a peer version; the direction kept is the one it was first seen
/// in.
pub open spec fn bump_peer(
    m: Seq<(Seq<char>, (Seq<char>, usize))>,
    key: Seq<char>,
    dir: Seq<char>,
) -> Seq<(Seq<char>, (Seq<char>, usize))> {
    let i = slot(keys_of(m), key);
    if i < m.len() && m[i].0 == key {
        m.update(i, (key, (m[i].1.0, (m[i].1.1 + 1) as usize)))
    } else {
        m.insert(i, (key, (dir, 1usize)))
    }
}

/// How many entries the OpMode list reader keeps (`cmd::parse_opmode_list`).
pub open spec fn parsed_count(objects: Option<Seq<OpModeMeta>>, extra: Seq<char>) -> nat {
    match objects {
        Some(m) => opmodes_view(m).len(),
        None => match json_string_array(extra) {
            Some(n) => named_opmodes(n).len(),
            None => 0,
        },
    }
}

pub open spec fn max_of(a: usize, b: nat) -> usize {
    if a >= b {
        a
    } else {
        b as usize
    }
}

/// One field of an OpMode object: flavors and groups are collected, and
/// any field `OpModeMeta` has no place for is noted with an example value.
pub open spec fn field_step(f: FindingsView, kv: (Seq<char>, Seq<char>)) -> FindingsView {
    if kv.0 == "flavor"@ {
        FindingsView { flavors: set_ins(f.flavors, kv.1), ..f }
    } else if kv.0 == "group"@ {
        FindingsView { groups: set_ins(f.groups, kv.1), ..f }
    } else if kv.0 != "name"@ {
        FindingsView { dropped_fields: set_ins(f.dropped_fields, kv.0 + " (e.g. "@ + kv.1 + ")"@), ..f }
    } else {
        f
    }
}

pub open spec fn fold_fields(f: FindingsView, fs: Seq<(Seq<char>, Seq<char>)>) -> FindingsView
    decreases fs.len(),
{
    if fs.len() == 0 {
        f
    } else {
        field_step(fold_fields(f, fs.drop_last()), fs.last())
    }
}

pub open spec fn fold_items(f: FindingsView, items: Seq<Option<Seq<(Seq<char>, Seq<char>)>>>) -> FindingsView
    decreases items.len(),
{
    if items.len() == 0 {
        f
    } else {
        let g = fold_items(f, items.drop_last());
        match items.last() {
            Some(fs) => fold_fields(g, fs),
            None => g,
        }
    }
}

/// What an OpMode list teaches the report.
pub open spec fn list_step(f: FindingsView, extra: Seq<char>, objects: Option<Seq<OpModeMeta>>) -> FindingsView {
    let f1 = FindingsView {
        lists: (f.lists + 1) as usize,
        parsed_entries: max_of(f.parsed_entries, parsed_count(objects, extra)),
        ..f
    };
    match json_object_fields(extra) {
        None => FindingsView { unparsable: f1.unparsable.push(clip(extra, 200)), ..f1 },
        Some(items) => fold_items(
            FindingsView { json_entries: max_of(f1.json_entries, items.len()), ..f1 },
            items,
        ),
    }
}

/// What an unacknowledged command teaches the report.
#[verifier::opaque]
pub open spec fn learn_command(
    r: ReportView,
    d: DatagramView,
    c: crate::packets::CommandView,
    objects: Option<Seq<OpModeMeta>>,
) -> ReportView {
    let r2 = ReportView { commands: bump_command(r.commands, c.name, direction(d, r.rc)), ..r };
    if c.name == cmd::NOTIFY_OP_MODE_LIST@ {
        ReportView { opmodes: list_step(r2.opmodes, c.extra, objects), ..r2 }
    } else if c.name == cmd::NOTIFY_INIT_OP_MODE@ {
        ReportView { inited: set_ins(r2.inited, c.extra), ..r2 }
    } else if c.name == cmd::NOTIFY_RUN_OP_MODE@ {
        ReportView { ran: set_ins(r2.ran, c.extra), ..r2 }
    } else {
        r2
    }
}

/// What a datagram's contents teach the report, its counters aside.
#[verifier::opaque]
pub open spec fn learn(
    r: ReportView,
    d: DatagramView,
    parsed: Result<PacketView, Error>,
    objects: Option<Seq<OpModeMeta>>,
) -> ReportView {
    match parsed {
        Err(e) => ReportView { undecodable: bump(r.undecodable, error_message(e)), ..r },
        Ok(PacketView::Command(c)) => if c.acknowledged {
            r
        } else {
            learn_command(r, d, c, objects)
        },
        Ok(PacketView::PeerDiscovery(p)) => ReportView {
            peers: bump_peer(r.peers, peer_fields(p), direction(d, r.rc)),
            ..r
        },
        Ok(_) => r,
    }
}

/// What one datagram teaches the report: it is counted (and counted as
/// reassembled where it was), and its contents are learnt. `objects` is
/// an OpMode list's payload read in object form; it is read only for one.
pub open spec fn observe_step(
    r: ReportView,
    d: DatagramView,
    parsed: Result<PacketView, Error>,
    objects: Option<Seq<OpModeMeta>>,
) -> ReportView {
    let l = learn(r, d, parsed, objects);
    ReportView {
        packets: (l.packets + 1) as usize,
        reassembled: if d.fragmented {
            (l.reassembled + 1) as usize
        } else {
            l.reassembled
        },
        ..l
    }
}

/// The Robot Controller endpoints in order: IPv4 before IPv6, each by its
/// number, then by port.
pub open spec fn ip_lt(a: Ip, b: Ip) -> bool {
    match (a, b) {
        (Ip::V4(x), Ip::V4(y)) => x < y,
        (Ip::V4(_), Ip::V6(_)) => true,
        (Ip::V6(_), Ip::V4(_)) => false,
        (Ip::V6(x), Ip::V6(y)) => x < y,
    }
}

pub open spec fn endpoint_lt(a: Endpoint, b: Endpoint) -> bool {
    ip_lt(a.ip, b.ip) || (a.ip == b.ip && a.port < b.port)
}

/// Adds `e` to an ordered set of endpoints.
pub open spec fn insert_endpoint(s: Seq<Endpoint>, e: Endpoint) -> Seq<Endpoint>
    decreases s.len(),
{
    if s.len() == 0 {
        seq![e]
    } else if s[0] == e {
        s
    } else if endpoint_lt(e, s[0]) {
        seq![e] + s
    } else {
        seq![s[0]] + insert_endpoint(s.drop_first(), e)
    }
}

/// The endpoints of `v` as an ordered set.
pub open spec fn endpoint_set(v: Seq<Endpoint>) -> Seq<Endpoint>
    decreases v.len(),
{
    if v.len() == 0 {
        Seq::empty()
    } else {
        insert_endpoint(endpoint_set(v.drop_last()), v.last())
    }
}

fn ip_less(a: Ip, b: Ip) -> (r: bool)
    ensures
        r == ip_lt(a, b),
{
    match (a, b) {
        (Ip::V4(x), Ip::V4(y)) => x < y,
        (Ip::V4(_), Ip::V6(_)) => true,
        (Ip::V6(_), Ip::V4(_)) => false,
        (Ip::V6(x), Ip::V6(y)) => x < y,
    }
}

fn add_endpoint_sorted(v: &mut Vec<Endpoint>, e: Endpoint)
    ensures
        final(v)@ == insert_endpoint(old(v)@, e),
{
    let ghost m0 = v@;
    let mut i: usize = 0;
    assert(m0.skip(0) =~= m0);
    assert(m0.take(0) =~= Seq::<Endpoint>::empty());
    while i < v.len()
        invariant
            v@ == m0,
            m0 == old(v)@,
            i <= m0.len(),
            insert_endpoint(m0, e) == m0.take(i as int) + insert_endpoint(m0.skip(i as int), e),
        decreases m0.len() - i,
    {
        let ghost tail = m0.skip(i as int);
        assert(tail[0] == m0[i as int]);
        assert(tail.drop_first() =~= m0.skip(i + 1));
        let x = v[i];
        if x == e {
            assert(insert_endpoint(tail, e) == tail);
            assert(m0.take(i as int) + tail =~= m0);
            return;
        }
        if ip_less(e.ip, x.ip) || (e.ip == x.ip && e.port < x.port) {
            v.insert(i, e);
            assert(insert_endpoint(tail, e) == seq![e] + tail);
            assert(v@ =~= m0.take(i as int) + (seq![e] + tail));
            return;
        }
        assert(m0.take(i as int) + (seq![tail[0]] + insert_endpoint(tail.drop_first(), e))
            =~= m0.take(i + 1) + insert_endpoint(m0.skip(i + 1), e));
        i = i + 1;
    }
    assert(m0.skip(i as int) =~= Seq::<Endpoint>::empty());
    v.push(e);
    assert(v@ =~= m0.take(i as int) + seq![e]);
}

impl Report {
    /// An empty report for a capture whose Robot Controller endpoints are
    /// `rc`.
    pub fn new(rc: Vec<Endpoint>) -> (r: Report)
        ensures
            r@ == (ReportView {
                rc: endpoint_set(rc@),
                commands: Seq::empty(),
                peers: Seq::empty(),
                opmodes: FindingsView {
                    lists: 0,
                    flavors: Seq::empty(),
                    groups: Seq::empty(),
                    dropped_fields: Seq::empty(),
                    json_entries: 0,
                    parsed_entries: 0,
                    unparsable: Seq::empty(),
                },
                inited: Seq::empty(),
                ran: Seq::empty(),
                packets: 0,
                reassembled: 0,
                undecodable: Seq::empty(),
            }),
            report_wf(r@),
            report_ordered(r@),
    {
        let mut set: Vec<Endpoint> = Vec::new();
        let mut i: usize = 0;
        while i < rc.len()
            invariant
                i <= rc@.len(),
                set@ == endpoint_set(rc@.take(i as int)),
            decreases rc@.len() - i,
        {
            assert(rc@.take(i + 1).drop_last() =~= rc@.take(i as int));
            add_endpoint_sorted(&mut set, rc[i]);
            i = i + 1;
        }
        assert(rc@.take(rc@.len() as int) =~= rc@);
        let r = Report {
            rc: set,
            commands: Vec::new(),
            peers: Vec::new(),
            opmodes: Findings {
                lists: 0,
                flavors: Vec::new(),
                groups: Vec::new(),
                dropped_fields: Vec::new(),
                json_entries: 0,
                parsed_entries: 0,
                unparsable: Vec::new(),
            },
            inited: Vec::new(),
            ran: Vec::new(),
            packets: 0,
            reassembled: 0,
            undecodable: Vec::new(),
        };
        assert(r@.commands =~= Seq::empty());
        assert(r@.peers =~= Seq::empty());
        assert(r@.inited =~= Seq::empty());
        assert(r@.ran =~= Seq::empty());
        assert(r@.undecodable =~= Seq::empty());
        assert(r@.opmodes.flavors =~= Seq::empty());
        assert(r@.opmodes.groups =~= Seq::empty());
        assert(r@.opmodes.dropped_fields =~= Seq::empty());
        assert(r@.opmodes.unparsable =~= Seq::empty());
        r
    }

    /// How many datagrams the report has seen.
    pub fn packets(&self) -> (n: usize)
        ensures
            n == self@.packets,
    {
        self.packets
    }

    /// Whether the report's counts are consistent (see `report_wf`).
    pub open spec fn wf(&self) -> bool {
        report_wf(self@)
    }
}



fn bump_command_entry(v: &mut Vec<(String, Vec<(String, usize)>)>, name: &str, dir: &str)
    requires
        forall|i: int|
            0 <= i < old(v)@.len() ==> counts_le(#[trigger] commands_view(old(v)@)[i].1, usize::MAX - 1),
    ensures
        commands_view(final(v)@) == bump_command(commands_view(old(v)@), name@, dir@),
{
    let ghost m = commands_view(v@);
    assert(str_keys(v@) =~= keys_of(m));
    let i = find_slot(v, name);
    if i < v.len() && text::str_eq(v[i].0.as_str(), name) {
        let (k, mut inner) = v.remove(i);
        assert(counts_view(inner@) == m[i as int].1);
        bump_count(&mut inner, dir);
        v.insert(i, (k, inner));
        assert(commands_view(v@) =~= m.update(i as int, (name@, bump(m[i as int].1, dir@))));
    } else {
        let mut inner: Vec<(String, usize)> = Vec::new();
        inner.push((dir.to_owned(), 1));
        assert(counts_view(inner@) =~= seq![(dir@, 1usize)]);
        v.insert(i, (name.to_owned(), inner));
        assert(commands_view(v@) =~= m.insert(i as int, (name@, seq![(dir@, 1usize)])));
    }
}

fn bump_peer_entry(v: &mut Vec<(String, (String, usize))>, key: String, dir: String)
    requires
        forall|i: int| 0 <= i < old(v)@.len() ==> #[trigger] old(v)@[i].1.1 < usize::MAX,
    ensures
        peers_view(final(v)@) == bump_peer(peers_view(old(v)@), key@, dir@),
{
    let ghost m = peers_view(v@);
    assert(str_keys(v@) =~= keys_of(m));
    let i = find_slot(v, key.as_str());
    if i < v.len() && text::str_eq(v[i].0.as_str(), key.as_str()) {
        let (k, (d0, n)) = v.remove(i);
        assert(old(v)@[i as int].1.1 == n);
        v.insert(i, (k, (d0, n + 1)));
        assert(peers_view(v@) =~= m.update(i as int, (key@, (m[i as int].1.0, (m[i as int].1.1 + 1) as usize))));
    } else {
        v.insert(i, (key, (dir, 1)));
        assert(peers_view(v@) =~= m.insert(i as int, (key@, (dir@, 1usize))));
    }
}

fn field_into(f: &mut Findings, k: &str, val: &str)
    ensures
        final(f)@ == field_step(old(f)@, (k@, val@)),
        final(f)@.lists == old(f)@.lists,
{
    if text::str_eq(k, "flavor") {
        set_insert(&mut f.flavors, val);
    } else if text::str_eq(k, "group") {
        set_insert(&mut f.groups, val);
    } else if !text::str_eq(k, "name") {
        let mut e = k.to_owned();
        push_str(&mut e, " (e.g. ");
        push_str(&mut e, val);
        push_str(&mut e, ")");
        set_insert(&mut f.dropped_fields, e.as_str());
    }
}

fn items_into(f: &mut Findings, items: &Vec<Option<Vec<(String, String)>>>)
    ensures
        final(f)@ == fold_items(old(f)@, items_view(items@)),
        final(f)@.lists == old(f)@.lists,
{
    let ghost iv = items_view(items@);
    let mut i: usize = 0;
    assert(iv.take(0) =~= Seq::<Option<Seq<(Seq<char>, Seq<char>)>>>::empty());
    while i < items.len()
        invariant
            i <= items@.len(),
            iv == items_view(items@),
            f@ == fold_items(old(f)@, iv.take(i as int)),
            f@.lists == old(f)@.lists,
        decreases items@.len() - i,
    {
        assert(iv.take(i + 1).drop_last() =~= iv.take(i as int));
        assert(iv.take(i + 1).last() == item_view(items@[i as int]));
        match &items[i] {
            Some(fields) => {
                let ghost fv = fields_view(fields@);
                let ghost g = f@;
                let mut j: usize = 0;
                assert(fv.take(0) =~= Seq::<(Seq<char>, Seq<char>)>::empty());
                while j < fields.len()
                    invariant
                        j <= fields@.len(),
                        fv == fields_view(fields@),
                        f@ == fold_fields(g, fv.take(j as int)),
                        f@.lists == old(f)@.lists,
                    decreases fields@.len() - j,
                {
                    assert(fv.take(j + 1).drop_last() =~= fv.take(j as int));
                    field_into(f, fields[j].0.as_str(), fields[j].1.as_str());
                    j = j + 1;
                }
                assert(fv.take(j as int) =~= fv);
            },
            None => {},
        }
        i = i + 1;
    }
    assert(iv.take(i as int) =~= iv);
}

fn list_into(f: &mut Findings, extra: &str, objects: Option<Vec<OpModeMeta>>)
    requires
        old(f)@.lists < usize::MAX,
    ensures
        final(f)@ == list_step(old(f)@, extra@, objects_view(objects)),
        final(f)@.lists == old(f)@.lists + 1,
{
    f.lists = f.lists + 1;
    let parsed = cmd::parse_opmode_list(objects, extra);
    assert(opmodes_view(parsed@).len() == parsed@.len());
    let n = parsed.len();
    if n > f.parsed_entries {
        f.parsed_entries = n;
    }
    match opmode_object_fields(extra) {
        None => {
            let mut c = String::new();
            push_clip(&mut c, extra, 200);
            f.unparsable.push(c);
            assert(strings_view(f.unparsable@) =~= strings_view(old(f).unparsable@).push(clip(extra@, 200)));
        },
        Some(items) => {
            if items.len() > f.json_entries {
                f.json_entries = items.len();
            }
            items_into(f, &items);
        },
    }
}

impl Report {
    fn note_error(&mut self, e: &Error)
        requires
            old(self).wf(),
            old(self)@.packets < usize::MAX,
        ensures
            final(self)@ == (ReportView {
                undecodable: bump(old(self)@.undecodable, error_message(*e)),
                ..old(self)@
            }),
            counts_within(final(self)@, old(self)@.packets + 1),
    {
        let ghost r0 = self@;
        let m = e.message();
        assert(counts_le(r0.undecodable, usize::MAX - 1));
        bump_count(&mut self.undecodable, m.as_str());
        proof {
            bump_le(r0.undecodable, error_message(*e), r0.packets as int);
        }
    }

    fn note_peer(&mut self, d: &Datagram, p: &crate::packets::PeerDiscovery)
        requires
            old(self).wf(),
            old(self)@.packets < usize::MAX,
        ensures
            final(self)@ == (ReportView {
                peers: bump_peer(old(self)@.peers, peer_fields(*p), direction(d@, old(self)@.rc)),
                ..old(self)@
            }),
            counts_within(final(self)@, old(self)@.packets + 1),
    {
        let ghost r0 = self@;
        let ghost n = r0.packets as int;
        let mut key = String::new();
        push_peer_fields(&mut key, p);
        assert(key@ =~= peer_fields(*p));
        let dir = direction_string(d, self.rc.as_slice());
        assert forall|i: int| 0 <= i < self.peers@.len() implies #[trigger] self.peers@[i].1.1
            < usize::MAX by {
            assert(r0.peers[i].1.1 <= n);
        }
        bump_peer_entry(&mut self.peers, key, dir);
        proof {
            let m = r0.peers;
            let k = slot(keys_of(m), peer_fields(*p));
            slot_bound(keys_of(m), peer_fields(*p));
            let r = self@.peers;
            assert forall|i: int| 0 <= i < r.len() implies #[trigger] r[i].1.1 <= n + 1 by {
                if k < m.len() && m[k].0 == peer_fields(*p) {
                    if i != k {
                        assert(r[i] == m[i]);
                    }
                } else if i < k {
                    assert(r[i] == m[i]);
                } else if i > k {
                    assert(r[i] == m[i - 1]);
                }
            }
        }
    }

    fn note_command(&mut self, d: &Datagram, name: &str, dir: &str)
        requires
            old(self).wf(),
            old(self)@.packets < usize::MAX,
        ensures
            final(self)@ == (ReportView {
                commands: bump_command(old(self)@.commands, name@, dir@),
                ..old(self)@
            }),
            counts_within(final(self)@, old(self)@.packets + 1),
    {
        let ghost r0 = self@;
        let ghost n = r0.packets as int;
        assert forall|i: int| 0 <= i < self.commands@.len() implies counts_le(
            #[trigger] commands_view(self.commands@)[i].1,
            usize::MAX - 1,
        ) by {
            assert(counts_le(r0.commands[i].1, n));
        }
        bump_command_entry(&mut self.commands, name, dir);
        proof {
            let m = r0.commands;
            let k = slot(keys_of(m), name@);
            slot_bound(keys_of(m), name@);
            let r = self@.commands;
            assert forall|i: int| 0 <= i < r.len() implies counts_le(#[trigger] r[i].1, n + 1) by {
                if k < m.len() && m[k].0 == name@ {
                    if i == k {
                        bump_le(m[k].1, dir@, n);
                    } else {
                        assert(r[i] == m[i]);
                    }
                } else if i < k {
                    assert(r[i] == m[i]);
                } else if i > k {
                    assert(r[i] == m[i - 1]);
                }
            }
        }
    }

    #[verifier::spinoff_prover]
    fn learn_command_from(&mut self, d: &Datagram, c: &crate::packets::Command, objects: Option<Vec<OpModeMeta>>)
        requires
            old(self).wf(),
            old(self)@.packets < usize::MAX,
        ensures
            final(self)@ == learn_command(old(self)@, d@, c@, objects_view(objects)),
            counts_within(final(self)@, old(self)@.packets + 1),
            final(self)@.packets == old(self)@.packets,
            final(self)@.reassembled == old(self)@.reassembled,
    {
        let ghost r0 = self@;
        let dir = direction_string(d, self.rc.as_slice());
        self.note_command(d, c.name.as_str(), dir.as_str());
        let ghost r1 = self@;
        assert(r1 == ReportView { commands: bump_command(r0.commands, c@.name, direction(d@, r0.rc)), ..r0 });
        if text::str_eq(c.name.as_str(), cmd::NOTIFY_OP_MODE_LIST) {
            list_into(&mut self.opmodes, c.extra.as_str(), objects);
            assert(self@ == ReportView { opmodes: list_step(r1.opmodes, c@.extra, objects_view(objects)), ..r1 });
        } else if text::str_eq(c.name.as_str(), cmd::NOTIFY_INIT_OP_MODE) {
            set_insert(&mut self.inited, c.extra.as_str());
            assert(self@ == ReportView { inited: set_ins(r1.inited, c@.extra), ..r1 });
        } else if text::str_eq(c.name.as_str(), cmd::NOTIFY_RUN_OP_MODE) {
            set_insert(&mut self.ran, c.extra.as_str());
            assert(self@ == ReportView { ran: set_ins(r1.ran, c@.extra), ..r1 });
        }
        reveal(learn_command);
    }

    fn learn_from(&mut self, d: &Datagram, parsed: &Result<Packet, Error>, objects: Option<Vec<OpModeMeta>>)
        requires
            old(self).wf(),
            old(self)@.packets < usize::MAX,
        ensures
            final(self)@ == learn(old(self)@, d@, packet_result(*parsed), objects_view(objects)),
            counts_within(final(self)@, old(self)@.packets + 1),
            final(self)@.packets == old(self)@.packets,
            final(self)@.reassembled == old(self)@.reassembled,
    {
        reveal(learn);
        match parsed {
            Err(e) => self.note_error(e),
            Ok(Packet::Command(c)) => {
                if !c.acknowledged {
                    self.learn_command_from(d, c, objects);
                }
            },
            Ok(Packet::PeerDiscovery(p)) => self.note_peer(d, p),
            Ok(_) => {},
        }
    }

    /// Takes in one datagram, as `parsed` decodes its payload. `objects` is
    /// the payload of an OpMode list read in object form (`OpModeMeta`
    /// entries) by a JSON reader; it is read only for one. The rest of the
    /// list's JSON is read here (`opmode_object_fields`).
    pub fn observe(&mut self, d: &Datagram, parsed: &Result<Packet, Error>, objects: Option<Vec<OpModeMeta>>)
        requires
            old(self).wf(),
            old(self)@.packets < usize::MAX,
        ensures
            final(self)@ == observe_step(old(self)@, d@, packet_result(*parsed), objects_view(objects)),
            final(self).wf(),
    {
        self.learn_from(d, parsed, objects);
        let ghost l = self@;
        self.packets = self.packets + 1;
        if d.fragmented {
            self.reassembled = self.reassembled + 1;
        }
        assert(self@.commands == l.commands && self@.peers == l.peers && self@.undecodable
            == l.undecodable && self@.opmodes == l.opmodes);
    }
}


// ---------------------------------------------------------------------------
// The end-of-run report
// ---------------------------------------------------------------------------

pub open spec fn lines_view(v: Seq<String>) -> Seq<Seq<char>> {
    v.map_values(|s: String| s@)
}

/// The strings of `s`, separated by `sep`.
pub open spec fn join(s: Seq<Seq<char>>, sep: Seq<char>) -> Seq<char>
    decreases s.len(),
{
    if s.len() == 0 {
        Seq::empty()
    } else if s.len() == 1 {
        s[0]
    } else {
        join(s.drop_last(), sep) + sep + s.last()
    }
}

/// A set in a report line: its members, or `(none)`.
pub open spec fn join_set(s: Seq<Seq<char>>) -> Seq<char> {
    if s.len() == 0 {
        "(none)"@
    } else {
        join(s, ", "@)
    }
}

/// `s` padded with spaces to `w` characters (`{:<w}`).
pub open spec fn pad(s: Seq<char>, w: nat) -> Seq<char> {
    if s.len() >= w {
        s
    } else {
        s + Seq::new((w - s.len()) as nat, |i: int| ' ')
    }
}

pub open spec fn endpoint_texts(rc: Seq<Endpoint>) -> Seq<Seq<char>> {
    rc.map_values(|e: Endpoint| endpoint_text(e.ip, e.port))
}

pub open spec fn capture_section(r: ReportView, frames: nat, skipped: nat) -> Seq<Seq<char>> {
    seq![
        "=== capture ==="@,
        decimal(frames) + " frames, "@ + decimal(r.packets as nat) + " Robocol packets ("@
            + decimal(r.reassembled as nat) + " reassembled from IP fragments), "@ + decimal(skipped)
            + " non-IP/unsupported frames"@,
        if r.rc.len() == 0 {
            "Robot Controller NOT inferred (no telemetry seen) — directions shown as endpoints"@
        } else {
            "Robot Controller endpoint(s): "@ + join(endpoint_texts(r.rc), ", "@)
        },
    ]
}

pub open spec fn peer_rows(m: Seq<(Seq<char>, (Seq<char>, usize))>) -> Seq<Seq<char>> {
    m.map_values(
        |p: (Seq<char>, (Seq<char>, usize))|
            "  "@ + pad(p.1.0, 7) + " "@ + p.0 + "  x"@ + decimal(p.1.1 as nat),
    )
}

/// What this crate advertises in its own peer discovery.
pub open spec fn ours_line() -> Seq<char> {
    let o = default_peer_discovery();
    "  we advertise: robocol="@ + decimal(o.robocol_version as nat) + " sdk="@ + decimal(
        o.sdk_major_version as nat,
    ) + "."@ + decimal(o.sdk_minor_version as nat) + " build="@ + decimal(o.sdk_build_month as nat)
        + "/"@ + decimal(o.sdk_build_year as nat) + "  <- peer_discovery.rs, hardcoded"@
}

pub open spec fn peers_section(r: ReportView) -> Seq<Seq<char>> {
    seq![Seq::empty(), "=== peer discovery (advertised versions) ==="@] + (if r.peers.len() == 0 {
        seq!["  none seen"@]
    } else {
        Seq::empty()
    }) + peer_rows(r.peers) + seq![ours_line()]
}

pub open spec fn command_rows_of(name: Seq<char>, dirs: Seq<(Seq<char>, usize)>) -> Seq<Seq<char>> {
    dirs.map_values(
        |d: (Seq<char>, usize)|
            "  "@ + (if is_known(name) {
                " "@
            } else {
                "*"@
            }) + " "@ + pad(d.0, 7) + " "@ + pad(name, 45) + " x"@ + decimal(d.1 as nat),
    )
}

pub open spec fn command_rows(m: Seq<(Seq<char>, Seq<(Seq<char>, usize)>)>) -> Seq<Seq<char>>
    decreases m.len(),
{
    if m.len() == 0 {
        Seq::empty()
    } else {
        command_rows(m.drop_last()) + command_rows_of(m.last().0, m.last().1)
    }
}

/// The command names `cmd` does not declare, in order.
pub open spec fn new_names(m: Seq<(Seq<char>, Seq<(Seq<char>, usize)>)>) -> Seq<Seq<char>>
    decreases m.len(),
{
    if m.len() == 0 {
        Seq::empty()
    } else if is_known(m.last().0) {
        new_names(m.drop_last())
    } else {
        new_names(m.drop_last()).push(m.last().0)
    }
}

pub open spec fn commands_section(r: ReportView) -> Seq<Seq<char>> {
    let n = new_names(r.commands);
    seq![Seq::empty(), "=== commands ==="@] + command_rows(r.commands) + (if r.commands.len() == 0 {
        seq!["  none seen"@]
    } else {
        Seq::empty()
    }) + (if n.len() == 0 {
        Seq::empty()
    } else {
        seq![Seq::empty(), "  * NEW — not declared in robocol::cmd:"@] + n.map_values(
            |x: Seq<char>| "      "@ + x,
        )
    })
}

pub open spec fn opmodes_section(r: ReportView) -> Seq<Seq<char>> {
    let f = r.opmodes;
    seq![Seq::empty(), "=== opmodes ==="@] + if f.lists == 0 {
        seq!["  no CMD_NOTIFY_OP_MODE_LIST seen — did you run `opmodes` in ds_cli?"@]
    } else {
        seq![
            "  "@ + decimal(f.lists as nat) + " list(s); "@ + decimal(f.json_entries as nat)
                + " entries in JSON, "@ + decimal(f.parsed_entries as nat)
                + " survived cmd::parse_opmode_list"@,
            "  flavors seen: "@ + join_set(f.flavors),
            "  groups seen:  "@ + join_set(f.groups),
        ] + (if r.inited.len() == 0 {
            Seq::empty()
        } else {
            seq!["  inited: "@ + join_set(r.inited)]
        }) + (if r.ran.len() == 0 {
            Seq::empty()
        } else {
            seq!["  ran:    "@ + join_set(r.ran)]
        })
    }
}

/// A flavor the Deck Driver Station knows (as its JSON text).
pub open spec fn is_std_flavor(f: Seq<char>) -> bool {
    f == "\"TELEOP\""@ || f == "\"AUTONOMOUS\""@ || f == "\"SYSTEM\""@
}

pub open spec fn new_flavors(s: Seq<Seq<char>>) -> Seq<Seq<char>>
    decreases s.len(),
{
    if s.len() == 0 {
        Seq::empty()
    } else if is_std_flavor(s.last()) {
        new_flavors(s.drop_last())
    } else {
        new_flavors(s.drop_last()).push(s.last())
    }
}

/// How this crate's peer discovery begins: its protocol and SDK versions.
pub open spec fn ours_prefix() -> Seq<char> {
    let o = default_peer_discovery();
    "robocol="@ + decimal(o.robocol_version as nat) + " sdk="@ + decimal(o.sdk_major_version as nat)
        + "."@ + decimal(o.sdk_minor_version as nat)
}

pub open spec fn starts_with(s: Seq<char>, p: Seq<char>) -> bool {
    p.len() <= s.len() && s.take(p.len() as int) == p
}

/// A version skew for each version the Robot Controller advertised that
/// does not begin as ours does.
pub open spec fn skew_actions(m: Seq<(Seq<char>, (Seq<char>, usize))>) -> Seq<Seq<char>>
    decreases m.len(),
{
    if m.len() == 0 {
        Seq::empty()
    } else {
        let rest = skew_actions(m.drop_last());
        let p = m.last();
        if p.1.0 == "RC->DS"@ && !starts_with(p.0, ours_prefix()) {
            rest.push(
                "RC advertises "@ + p.0 + "; we advertise "@ + ours_prefix()
                    + " — consider bumping PeerDiscovery::default()."@,
            )
        } else {
            rest
        }
    }
}

pub open spec fn error_counts(m: Seq<(Seq<char>, usize)>) -> Seq<Seq<char>> {
    m.map_values(|p: (Seq<char>, usize)| p.0 + " x"@ + decimal(p.1 as nat))
}

pub open spec fn opt_line(b: bool, l: Seq<char>) -> Seq<Seq<char>> {
    if b {
        seq![l]
    } else {
        Seq::empty()
    }
}

/// The action items, unnumbered.
pub open spec fn actions(r: ReportView) -> Seq<Seq<char>> {
    let f = r.opmodes;
    let nf = new_flavors(f.flavors);
    let nn = new_names(r.commands);
    opt_line(
        f.lists > 0 && f.parsed_entries < f.json_entries,
        "OpMode list PARSE LOSS: "@ + decimal((f.json_entries - f.parsed_entries) as nat) + " of "@
            + decimal(f.json_entries as nat)
            + " entries dropped by cmd::parse_opmode_list (cmd.rs) — the JSON shape changed."@,
    ) + opt_line(
        f.unparsable.len() > 0,
        "OpMode list payload is not a JSON array; raw head: "@ + f.unparsable[0],
    ) + opt_line(
        f.dropped_fields.len() > 0,
        "OpMode JSON has fields OpModeMeta drops: "@ + join_set(f.dropped_fields),
    ) + opt_line(
        nf.len() > 0,
        "New OpMode flavor(s) "@ + join(nf, ", "@)
            + " — opmodes_page.gd:168 treats anything != AUTONOMOUS as TeleOp."@,
    ) + opt_line(
        nn.len() > 0,
        decimal(nn.len()) + " command name(s) not in robocol::cmd — see the * rows above."@,
    ) + skew_actions(r.peers) + opt_line(
        r.undecodable.len() > 0,
        "Packets the wire codecs rejected: "@ + join(error_counts(r.undecodable), ", "@),
    )
}

pub open spec fn numbered(a: Seq<Seq<char>>) -> Seq<Seq<char>>
    decreases a.len(),
{
    if a.len() == 0 {
        Seq::empty()
    } else {
        numbered(a.drop_last()).push("  "@ + decimal(a.len()) + ". "@ + a.last())
    }
}

pub open spec fn actions_section(r: ReportView) -> Seq<Seq<char>> {
    let a = actions(r);
    seq![Seq::empty(), "=== action items ==="@] + numbered(a) + opt_line(
        a.len() == 0,
        "  none — nothing in this capture is unknown to the current crate."@,
    )
}

/// The end-of-run report, line by line.
pub open spec fn report_text(r: ReportView, frames: nat, skipped: nat) -> Seq<Seq<char>> {
    capture_section(r, frames, skipped) + peers_section(r) + commands_section(r) + opmodes_section(r)
        + actions_section(r)
}

// Building it.

fn push_line(out: &mut Vec<String>, l: String)
    ensures
        lines_view(final(out)@) == lines_view(old(out)@).push(l@),
{
    out.push(l);
    assert(lines_view(out@) =~= lines_view(old(out)@).push(l@));
}

fn lit(out: &mut Vec<String>, l: &str)
    ensures
        lines_view(final(out)@) == lines_view(old(out)@).push(l@),
{
    push_line(out, l.to_owned());
}

/// Pushes an empty line.
fn blank(out: &mut Vec<String>)
    ensures
        lines_view(final(out)@) == lines_view(old(out)@).push(Seq::empty()),
{
    push_line(out, String::new());
}

fn push_pad(s: &mut String, t: &str, w: usize)
    ensures
        final(s)@ == old(s)@ + pad(t@, w as nat),
{
    push_str(s, t);
    let n = text::chars_of(t).len();
    let mut k = n;
    while k < w
        invariant
            n == t@.len(),
            k >= n,
            w <= n ==> k == n,
            n < w ==> k <= w,
            s@ == old(s)@ + t@ + Seq::new((k - n) as nat, |i: int| ' '),
        decreases w - k,
    {
        text::push_char(s, ' ');
        assert(Seq::new((k + 1 - n) as nat, |i: int| ' ') =~= Seq::new((k - n) as nat, |i: int| ' ').push(' '));
        k = k + 1;
    }
    if n >= w {
        assert(Seq::new((k - n) as nat, |i: int| ' ') =~= Seq::<char>::empty());
        assert(s@ =~= old(s)@ + pad(t@, w as nat));
    } else {
        assert(s@ =~= old(s)@ + pad(t@, w as nat));
    }
}

/// Appends `join(items, sep)` where `items` are the strings of `v`.
fn push_join(s: &mut String, v: &Vec<String>, sep: &str)
    ensures
        final(s)@ == old(s)@ + join(strings_view(v@), sep@),
{
    let ghost sv = strings_view(v@);
    let mut i: usize = 0;
    assert(sv.take(0) =~= Seq::<Seq<char>>::empty());
    while i < v.len()
        invariant
            i <= v@.len(),
            sv == strings_view(v@),
            s@ == old(s)@ + join(sv.take(i as int), sep@),
        decreases v@.len() - i,
    {
        assert(sv.take(i + 1).drop_last() =~= sv.take(i as int));
        if i > 0 {
            push_str(s, sep);
        }
        push_str(s, v[i].as_str());
        assert(s@ =~= old(s)@ + join(sv.take(i + 1), sep@));
        i = i + 1;
    }
    assert(sv.take(i as int) =~= sv);
}

fn push_join_set(s: &mut String, v: &Vec<String>)
    ensures
        final(s)@ == old(s)@ + join_set(strings_view(v@)),
{
    if v.len() == 0 {
        push_str(s, "(none)");
    } else {
        push_join(s, v, ", ");
    }
}

impl Report {
    fn capture_lines(&self, out: &mut Vec<String>, frames: usize, skipped: usize)
        ensures
            lines_view(final(out)@) == lines_view(old(out)@) + capture_section(self@, frames as nat, skipped as nat),
    {
        let ghost o = lines_view(out@);
        lit(out, "=== capture ===");
        let mut l = String::new();
        push_dec(&mut l, frames as u64);
        push_str(&mut l, " frames, ");
        push_dec(&mut l, self.packets as u64);
        push_str(&mut l, " Robocol packets (");
        push_dec(&mut l, self.reassembled as u64);
        push_str(&mut l, " reassembled from IP fragments), ");
        push_dec(&mut l, skipped as u64);
        push_str(&mut l, " non-IP/unsupported frames");
        push_line(out, l);
        if self.rc.len() == 0 {
            lit(out, "Robot Controller NOT inferred (no telemetry seen) — directions shown as endpoints");
        } else {
            let mut l = "Robot Controller endpoint(s): ".to_owned();
            let ghost start = l@;
            let ghost et = endpoint_texts(self.rc@);
            let mut i: usize = 0;
            assert(et.take(0) =~= Seq::<Seq<char>>::empty());
            while i < self.rc.len()
                invariant
                    i <= self.rc@.len(),
                    et == endpoint_texts(self.rc@),
                    l@ == start + join(et.take(i as int), ", "@),
                decreases self.rc@.len() - i,
            {
                assert(et.take(i + 1).drop_last() =~= et.take(i as int));
                if i > 0 {
                    push_str(&mut l, ", ");
                }
                push_endpoint(&mut l, self.rc[i].ip, self.rc[i].port);
                assert(l@ =~= start + join(et.take(i + 1), ", "@));
                i = i + 1;
            }
            assert(et.take(i as int) =~= et);
            push_line(out, l);
        }
        assert(lines_view(out@) =~= o + capture_section(self@, frames as nat, skipped as nat));
    }

    fn peer_lines(&self, out: &mut Vec<String>)
        ensures
            lines_view(final(out)@) == lines_view(old(out)@) + peers_section(self@),
    {
        let ghost o = lines_view(out@);
        blank(out);
        lit(out, "=== peer discovery (advertised versions) ===");
        if self.peers.len() == 0 {
            lit(out, "  none seen");
        }
        let ghost o2 = lines_view(out@);
        let ghost rows = peer_rows(self@.peers);
        let mut i: usize = 0;
        while i < self.peers.len()
            invariant
                i <= self.peers@.len(),
                rows == peer_rows(self@.peers),
                self@.peers == peers_view(self.peers@),
                lines_view(out@) == o2 + rows.take(i as int),
            decreases self.peers@.len() - i,
        {
            let mut l = "  ".to_owned();
            push_pad(&mut l, self.peers[i].1.0.as_str(), 7);
            push_str(&mut l, " ");
            push_str(&mut l, self.peers[i].0.as_str());
            push_str(&mut l, "  x");
            push_dec(&mut l, self.peers[i].1.1 as u64);
            assert(l@ =~= rows[i as int]);
            push_line(out, l);
            assert(rows.take(i + 1) =~= rows.take(i as int).push(rows[i as int]));
            i = i + 1;
        }
        assert(rows.take(i as int) =~= rows);
        let ours = PeerDiscovery::default();
        let mut l = "  we advertise: robocol=".to_owned();
        push_dec(&mut l, ours.robocol_version as u64);
        push_str(&mut l, " sdk=");
        push_dec(&mut l, ours.sdk_major_version as u64);
        push_str(&mut l, ".");
        push_dec(&mut l, ours.sdk_minor_version as u64);
        push_str(&mut l, " build=");
        push_dec(&mut l, ours.sdk_build_month as u64);
        push_str(&mut l, "/");
        push_dec(&mut l, ours.sdk_build_year as u64);
        push_str(&mut l, "  <- peer_discovery.rs, hardcoded");
        assert(l@ =~= ours_line());
        push_line(out, l);
        assert(lines_view(out@) =~= o + peers_section(self@)) by {
            assert(o2 =~= o + seq![Seq::empty(), "=== peer discovery (advertised versions) ==="@] + (if self@.peers.len() == 0 {
                seq!["  none seen"@]
            } else {
                Seq::<Seq<char>>::empty()
            }));
        }
    }
}


fn starts_with_str(s: &str, p: &str) -> (r: bool)
    ensures
        r == starts_with(s@, p@),
{
    let a = text::chars_of(s);
    let b = text::chars_of(p);
    if b.len() > a.len() {
        return false;
    }
    let mut k: usize = 0;
    while k < b.len()
        invariant
            a@ == s@,
            b@ == p@,
            b@.len() <= a@.len(),
            k <= b@.len(),
            forall|j: int| 0 <= j < k ==> a@[j] == b@[j],
        decreases b@.len() - k,
    {
        if a[k] != b[k] {
            assert(s@.take(p@.len() as int)[k as int] != p@[k as int]);
            return false;
        }
        k = k + 1;
    }
    assert(s@.take(p@.len() as int) =~= p@);
    true
}

fn ours_prefix_string() -> (r: String)
    ensures
        r@ == ours_prefix(),
{
    let o = PeerDiscovery::default();
    let mut l = "robocol=".to_owned();
    push_dec(&mut l, o.robocol_version as u64);
    push_str(&mut l, " sdk=");
    push_dec(&mut l, o.sdk_major_version as u64);
    push_str(&mut l, ".");
    push_dec(&mut l, o.sdk_minor_version as u64);
    assert(l@ =~= ours_prefix());
    l
}

impl Report {
    fn new_command_names(&self) -> (r: Vec<String>)
        ensures
            strings_view(r@) == new_names(self@.commands),
    {
        let ghost cm = self@.commands;
        let mut r: Vec<String> = Vec::new();
        let mut i: usize = 0;
        assert(cm.take(0) =~= Seq::<(Seq<char>, Seq<(Seq<char>, usize)>)>::empty());
        assert(strings_view(r@) =~= Seq::<Seq<char>>::empty());
        while i < self.commands.len()
            invariant
                i <= self.commands@.len(),
                cm == commands_view(self.commands@),
                strings_view(r@) == new_names(cm.take(i as int)),
            decreases self.commands@.len() - i,
        {
            assert(cm.take(i + 1).drop_last() =~= cm.take(i as int));
            assert(cm.take(i + 1).last().0 == self.commands@[i as int].0@);
            if !known_command(self.commands[i].0.as_str()) {
                r.push(self.commands[i].0.clone());
                assert(strings_view(r@) =~= new_names(cm.take(i as int)).push(cm[i as int].0));
            }
            i = i + 1;
        }
        assert(cm.take(i as int) =~= cm);
        r
    }

    #[verifier::spinoff_prover]
    fn command_lines(&self, out: &mut Vec<String>)
        ensures
            lines_view(final(out)@) == lines_view(old(out)@) + commands_section(self@),
    {
        let ghost o = lines_view(out@);
        let ghost cm = self@.commands;
        blank(out);
        lit(out, "=== commands ===");
        let ghost o2 = lines_view(out@);
        let mut i: usize = 0;
        assert(cm.take(0) =~= Seq::<(Seq<char>, Seq<(Seq<char>, usize)>)>::empty());
        assert(o2 + command_rows(cm.take(0)) =~= o2);
        while i < self.commands.len()
            invariant
                i <= self.commands@.len(),
                cm == commands_view(self.commands@),
                lines_view(out@) == o2 + command_rows(cm.take(i as int)),
            decreases self.commands@.len() - i,
        {
            assert(cm.take(i + 1).drop_last() =~= cm.take(i as int));
            let name = self.commands[i].0.as_str();
            let dirs = &self.commands[i].1;
            let known = known_command(name);
            let ghost rows = command_rows_of(cm[i as int].0, cm[i as int].1);
            let ghost o3 = lines_view(out@);
            let mut j: usize = 0;
            while j < dirs.len()
                invariant
                    j <= dirs@.len(),
                    cm == commands_view(self.commands@),
                    0 <= i < cm.len(),
                    name@ == cm[i as int].0,
                    counts_view(dirs@) == cm[i as int].1,
                    known == is_known(name@),
                    rows == command_rows_of(cm[i as int].0, cm[i as int].1),
                    lines_view(out@) == o3 + rows.take(j as int),
                decreases dirs@.len() - j,
            {
                let mut l = "  ".to_owned();
                push_str(&mut l, if known { " " } else { "*" });
                push_str(&mut l, " ");
                push_pad(&mut l, dirs[j].0.as_str(), 7);
                push_str(&mut l, " ");
                push_pad(&mut l, name, 45);
                push_str(&mut l, " x");
                push_dec(&mut l, dirs[j].1 as u64);
                assert(l@ =~= rows[j as int]);
                push_line(out, l);
                assert(rows.take(j + 1) =~= rows.take(j as int).push(rows[j as int]));
                j = j + 1;
            }
            assert(rows.take(j as int) =~= rows);
            assert(o2 + command_rows(cm.take(i + 1)) =~= o3 + rows);
            i = i + 1;
        }
        assert(cm.take(i as int) =~= cm);
        if self.commands.len() == 0 {
            lit(out, "  none seen");
        }
        let ghost o4 = lines_view(out@);
        let nn = self.new_command_names();
        let ghost nv = strings_view(nn@);
        if nn.len() > 0 {
            blank(out);
            lit(out, "  * NEW — not declared in robocol::cmd:");
            let ghost o5 = lines_view(out@);
            let ghost rows = nv.map_values(|x: Seq<char>| "      "@ + x);
            let mut k: usize = 0;
            while k < nn.len()
                invariant
                    k <= nn@.len(),
                    nv == strings_view(nn@),
                    rows == nv.map_values(|x: Seq<char>| "      "@ + x),
                    lines_view(out@) == o5 + rows.take(k as int),
                decreases nn@.len() - k,
            {
                let mut l = "      ".to_owned();
                push_str(&mut l, nn[k].as_str());
                push_line(out, l);
                assert(rows.take(k + 1) =~= rows.take(k as int).push(rows[k as int]));
                k = k + 1;
            }
            assert(rows.take(k as int) =~= rows);
        }
        assert(lines_view(out@) =~= o + commands_section(self@));
    }

    fn opmode_lines(&self, out: &mut Vec<String>)
        ensures
            lines_view(final(out)@) == lines_view(old(out)@) + opmodes_section(self@),
    {
        let ghost o = lines_view(out@);
        blank(out);
        lit(out, "=== opmodes ===");
        let f = &self.opmodes;
        if f.lists == 0 {
            lit(out, "  no CMD_NOTIFY_OP_MODE_LIST seen — did you run `opmodes` in ds_cli?");
        } else {
            let mut l = "  ".to_owned();
            push_dec(&mut l, f.lists as u64);
            push_str(&mut l, " list(s); ");
            push_dec(&mut l, f.json_entries as u64);
            push_str(&mut l, " entries in JSON, ");
            push_dec(&mut l, f.parsed_entries as u64);
            push_str(&mut l, " survived cmd::parse_opmode_list");
            push_line(out, l);
            let mut l = "  flavors seen: ".to_owned();
            push_join_set(&mut l, &f.flavors);
            push_line(out, l);
            let mut l = "  groups seen:  ".to_owned();
            push_join_set(&mut l, &f.groups);
            push_line(out, l);
            if self.inited.len() > 0 {
                let mut l = "  inited: ".to_owned();
                push_join_set(&mut l, &self.inited);
                push_line(out, l);
            }
            if self.ran.len() > 0 {
                let mut l = "  ran:    ".to_owned();
                push_join_set(&mut l, &self.ran);
                push_line(out, l);
            }
        }
        assert(lines_view(out@) =~= o + opmodes_section(self@));
    }
}


fn push_msg(a: &mut Vec<String>, l: String)
    ensures
        strings_view(final(a)@) == strings_view(old(a)@).push(l@),
{
    a.push(l);
    assert(strings_view(a@) =~= strings_view(old(a)@).push(l@));
}

impl Report {
    fn new_flavor_list(&self) -> (r: Vec<String>)
        ensures
            strings_view(r@) == new_flavors(self@.opmodes.flavors),
    {
        let v = &self.opmodes.flavors;
        let ghost sv = strings_view(v@);
        let mut r: Vec<String> = Vec::new();
        let mut i: usize = 0;
        assert(sv.take(0) =~= Seq::<Seq<char>>::empty());
        assert(strings_view(r@) =~= Seq::<Seq<char>>::empty());
        while i < v.len()
            invariant
                i <= v@.len(),
                sv == strings_view(v@),
                strings_view(r@) == new_flavors(sv.take(i as int)),
            decreases v@.len() - i,
        {
            assert(sv.take(i + 1).drop_last() =~= sv.take(i as int));
            let x = v[i].as_str();
            if !(text::str_eq(x, "\"TELEOP\"") || text::str_eq(x, "\"AUTONOMOUS\"") || text::str_eq(
                x,
                "\"SYSTEM\"",
            )) {
                push_msg(&mut r, x.to_owned());
            }
            i = i + 1;
        }
        assert(sv.take(i as int) =~= sv);
        r
    }

    fn skew_messages(&self, a: &mut Vec<String>)
        ensures
            strings_view(final(a)@) == strings_view(old(a)@) + skew_actions(self@.peers),
    {
        let ghost m = self@.peers;
        let ghost a0 = strings_view(a@);
        let ours = ours_prefix_string();
        let mut i: usize = 0;
        assert(m.take(0) =~= Seq::<(Seq<char>, (Seq<char>, usize))>::empty());
        assert(a0 + skew_actions(m.take(0)) =~= a0);
        while i < self.peers.len()
            invariant
                i <= self.peers@.len(),
                m == peers_view(self.peers@),
                ours@ == ours_prefix(),
                strings_view(a@) == a0 + skew_actions(m.take(i as int)),
            decreases self.peers@.len() - i,
        {
            assert(m.take(i + 1).drop_last() =~= m.take(i as int));
            let key = self.peers[i].0.as_str();
            if text::str_eq(self.peers[i].1.0.as_str(), "RC->DS") && !starts_with_str(key, ours.as_str()) {
                let mut l = "RC advertises ".to_owned();
                push_str(&mut l, key);
                push_str(&mut l, "; we advertise ");
                push_str(&mut l, ours.as_str());
                push_str(&mut l, " — consider bumping PeerDiscovery::default().");
                push_msg(a, l);
            }
            i = i + 1;
        }
        assert(m.take(i as int) =~= m);
    }

    fn error_message_list(&self) -> (r: String)
        ensures
            r@ == join(error_counts(self@.undecodable), ", "@),
    {
        let ghost m = error_counts(self@.undecodable);
        let mut r = String::new();
        let mut i: usize = 0;
        assert(m.take(0) =~= Seq::<Seq<char>>::empty());
        while i < self.undecodable.len()
            invariant
                i <= self.undecodable@.len(),
                m == error_counts(counts_view(self.undecodable@)),
                r@ == join(m.take(i as int), ", "@),
            decreases self.undecodable@.len() - i,
        {
            assert(m.take(i + 1).drop_last() =~= m.take(i as int));
            if i > 0 {
                push_str(&mut r, ", ");
            }
            push_str(&mut r, self.undecodable[i].0.as_str());
            push_str(&mut r, " x");
            push_dec(&mut r, self.undecodable[i].1 as u64);
            assert(r@ =~= join(m.take(i + 1), ", "@));
            i = i + 1;
        }
        assert(m.take(i as int) =~= m);
        r
    }

    #[verifier::spinoff_prover]
    #[verifier::rlimit(50)]
    fn action_messages(&self) -> (a: Vec<String>)
        ensures
            strings_view(a@) == actions(self@),
    {
        let ghost r = self@;
        let f = &self.opmodes;
        let mut a: Vec<String> = Vec::new();
        let ghost p0 = strings_view(a@);
        assert(p0 =~= Seq::<Seq<char>>::empty());
        if f.lists > 0 && f.parsed_entries < f.json_entries {
            let mut l = "OpMode list PARSE LOSS: ".to_owned();
            push_dec(&mut l, (f.json_entries - f.parsed_entries) as u64);
            push_str(&mut l, " of ");
            push_dec(&mut l, f.json_entries as u64);
            push_str(&mut l, " entries dropped by cmd::parse_opmode_list (cmd.rs) — the JSON shape changed.");
            push_msg(&mut a, l);
        }
        let ghost p1 = strings_view(a@);
        if f.unparsable.len() > 0 {
            let mut l = "OpMode list payload is not a JSON array; raw head: ".to_owned();
            push_str(&mut l, f.unparsable[0].as_str());
            push_msg(&mut a, l);
        }
        let ghost p2 = strings_view(a@);
        if f.dropped_fields.len() > 0 {
            let mut l = "OpMode JSON has fields OpModeMeta drops: ".to_owned();
            push_join_set(&mut l, &f.dropped_fields);
            push_msg(&mut a, l);
        }
        let ghost p3 = strings_view(a@);
        let nf = self.new_flavor_list();
        if nf.len() > 0 {
            let mut l = "New OpMode flavor(s) ".to_owned();
            push_join(&mut l, &nf, ", ");
            push_str(&mut l, " — opmodes_page.gd:168 treats anything != AUTONOMOUS as TeleOp.");
            push_msg(&mut a, l);
        }
        let ghost p4 = strings_view(a@);
        let nn = self.new_command_names();
        if nn.len() > 0 {
            let mut l = String::new();
            push_dec(&mut l, nn.len() as u64);
            push_str(&mut l, " command name(s) not in robocol::cmd — see the * rows above.");
            assert(strings_view(nn@).len() == nn@.len());
            push_msg(&mut a, l);
        }
        let ghost p5 = strings_view(a@);
        self.skew_messages(&mut a);
        let ghost p6 = strings_view(a@);
        if self.undecodable.len() > 0 {
            let mut l = "Packets the wire codecs rejected: ".to_owned();
            let e = self.error_message_list();
            push_str(&mut l, e.as_str());
            push_msg(&mut a, l);
        }
        assert(strings_view(nf@).len() == nf@.len());
        assert(strings_view(nn@).len() == nn@.len());
        assert(strings_view(a@) =~= actions(r));
        a
    }

    #[verifier::spinoff_prover]
    #[verifier::rlimit(50)]
    fn action_lines(&self, out: &mut Vec<String>)
        ensures
            lines_view(final(out)@) == lines_view(old(out)@) + actions_section(self@),
    {
        let ghost o = lines_view(out@);
        blank(out);
        lit(out, "=== action items ===");
        let a = self.action_messages();
        let ghost av = strings_view(a@);
        let ghost o2 = lines_view(out@);
        let mut i: usize = 0;
        assert(av.take(0) =~= Seq::<Seq<char>>::empty());
        assert(o2 + numbered(av.take(0)) =~= o2);
        while i < a.len()
            invariant
                i <= a@.len(),
                av == strings_view(a@),
                lines_view(out@) == o2 + numbered(av.take(i as int)),
            decreases a@.len() - i,
        {
            assert(av.take(i + 1).drop_last() =~= av.take(i as int));
            assert(av.take(i + 1).len() == i + 1);
            let mut l = "  ".to_owned();
            push_dec(&mut l, (i + 1) as u64);
            push_str(&mut l, ". ");
            push_str(&mut l, a[i].as_str());
            push_line(out, l);
            assert(lines_view(out@) =~= o2 + numbered(av.take(i + 1)));
            i = i + 1;
        }
        assert(av.take(i as int) =~= av);
        if a.len() == 0 {
            lit(out, "  none — nothing in this capture is unknown to the current crate.");
        }
        assert(lines_view(out@) =~= o + actions_section(self@));
    }

    /// The end-of-run report for a capture of `frames` frames of which
    /// `skipped` were not IP or not supported, line by line.
    pub fn lines(&self, frames: usize, skipped: usize) -> (v: Vec<String>)
        ensures
            lines_view(v@) == report_text(self@, frames as nat, skipped as nat),
    {
        let mut out: Vec<String> = Vec::new();
        assert(lines_view(out@) =~= Seq::<Seq<char>>::empty());
        self.capture_lines(&mut out, frames, skipped);
        self.peer_lines(&mut out);
        self.command_lines(&mut out);
        self.opmode_lines(&mut out);
        self.action_lines(&mut out);
        assert(lines_view(out@) =~= report_text(self@, frames as nat, skipped as nat));
        out
    }
}


// ---------------------------------------------------------------------------
// Order
// ---------------------------------------------------------------------------

/// Keys in strictly increasing order: sorted, none twice.
pub open spec fn strictly_sorted(ks: Seq<Seq<char>>) -> bool {
    forall|i: int, j: int| 0 <= i < j < ks.len() ==> key_lt(#[trigger] ks[i], #[trigger] ks[j])
}

proof fn slot_facts(ks: Seq<Seq<char>>, k: Seq<char>)
    ensures
        0 <= slot(ks, k) <= ks.len(),
        forall|j: int| 0 <= j < slot(ks, k) ==> key_lt(#[trigger] ks[j], k),
        slot(ks, k) < ks.len() ==> !key_lt(ks[slot(ks, k)], k),
    decreases ks.len(),
{
    if ks.len() > 0 && key_lt(ks[0], k) {
        let t = ks.drop_first();
        slot_facts(t, k);
        assert forall|j: int| 0 <= j < slot(ks, k) implies key_lt(#[trigger] ks[j], k) by {
            if j > 0 {
                assert(ks[j] == t[j - 1]);
            }
        }
    }
}

/// Inserting a key that is not there at its slot keeps the keys in order.
proof fn insert_at_slot_sorted(ks: Seq<Seq<char>>, k: Seq<char>)
    requires
        strictly_sorted(ks),
        !(slot(ks, k) < ks.len() && ks[slot(ks, k)] == k),
    ensures
        strictly_sorted(ks.insert(slot(ks, k), k)),
{
    slot_facts(ks, k);
    let p = slot(ks, k);
    let r = ks.insert(p, k);
    if p < ks.len() {
        text::key_lt_total(ks[p], k);
    }
    assert forall|i: int, j: int| 0 <= i < j < r.len() implies key_lt(#[trigger] r[i], #[trigger] r[j]) by {
        if j < p {
            assert(r[i] == ks[i] && r[j] == ks[j]);
        } else if j == p {
            assert(r[i] == ks[i]);
        } else if i < p {
            assert(r[i] == ks[i] && r[j] == ks[j - 1]);
            if j - 1 > p {
                text::key_lt_transitive(ks[i], k, ks[p]);
                text::key_lt_transitive(ks[i], ks[p], ks[j - 1]);
            } else {
                text::key_lt_transitive(ks[i], k, ks[p]);
            }
        } else if i == p {
            assert(r[j] == ks[j - 1]);
            if j - 1 > p {
                text::key_lt_transitive(k, ks[p], ks[j - 1]);
            }
        } else {
            assert(r[i] == ks[i - 1] && r[j] == ks[j - 1]);
        }
    }
}

proof fn set_ins_sorted(s: Seq<Seq<char>>, k: Seq<char>)
    requires
        strictly_sorted(s),
    ensures
        strictly_sorted(set_ins(s, k)),
{
    let i = slot(s, k);
    if !(i < s.len() && s[i] == k) {
        insert_at_slot_sorted(s, k);
    }
}

proof fn bump_sorted(m: Seq<(Seq<char>, usize)>, k: Seq<char>)
    requires
        strictly_sorted(keys_of(m)),
    ensures
        strictly_sorted(keys_of(bump(m, k))),
{
    let ks = keys_of(m);
    slot_facts(ks, k);
    let i = slot(ks, k);
    if i < m.len() && m[i].0 == k {
        assert(keys_of(bump(m, k)) =~= ks);
    } else {
        assert(keys_of(bump(m, k)) =~= ks.insert(i, k));
        insert_at_slot_sorted(ks, k);
    }
}

/// Every tally and set of the report in key order, none twice.
pub open spec fn report_ordered(r: ReportView) -> bool {
    &&& strictly_sorted(keys_of(r.commands))
    &&& forall|i: int| 0 <= i < r.commands.len() ==> strictly_sorted(keys_of(#[trigger] r.commands[i].1))
    &&& strictly_sorted(keys_of(r.peers))
    &&& strictly_sorted(keys_of(r.undecodable))
    &&& strictly_sorted(r.inited)
    &&& strictly_sorted(r.ran)
    &&& findings_ordered(r.opmodes)
}

pub open spec fn findings_ordered(f: FindingsView) -> bool {
    &&& strictly_sorted(f.flavors)
    &&& strictly_sorted(f.groups)
    &&& strictly_sorted(f.dropped_fields)
}

proof fn fold_fields_ordered(f: FindingsView, fs: Seq<(Seq<char>, Seq<char>)>)
    requires
        findings_ordered(f),
    ensures
        findings_ordered(fold_fields(f, fs)),
    decreases fs.len(),
{
    if fs.len() > 0 {
        fold_fields_ordered(f, fs.drop_last());
        let g = fold_fields(f, fs.drop_last());
        let kv = fs.last();
        set_ins_sorted(g.flavors, kv.1);
        set_ins_sorted(g.groups, kv.1);
        set_ins_sorted(g.dropped_fields, kv.0 + " (e.g. "@ + kv.1 + ")"@);
    }
}

proof fn fold_items_ordered(f: FindingsView, items: Seq<Option<Seq<(Seq<char>, Seq<char>)>>>)
    requires
        findings_ordered(f),
    ensures
        findings_ordered(fold_items(f, items)),
    decreases items.len(),
{
    if items.len() > 0 {
        fold_items_ordered(f, items.drop_last());
        match items.last() {
            Some(fs) => fold_fields_ordered(fold_items(f, items.drop_last()), fs),
            None => {},
        }
    }
}

proof fn bump_command_ordered(r: ReportView, name: Seq<char>, dir: Seq<char>)
    requires
        report_ordered(r),
    ensures
        report_ordered(ReportView { commands: bump_command(r.commands, name, dir), ..r }),
{
    let m = r.commands;
    let ks = keys_of(m);
    slot_facts(ks, name);
    let i = slot(ks, name);
    let n = bump_command(m, name, dir);
    if i < m.len() && m[i].0 == name {
        assert(keys_of(n) =~= ks);
        bump_sorted(m[i].1, dir);
        assert forall|j: int| 0 <= j < n.len() implies strictly_sorted(keys_of(#[trigger] n[j].1)) by {
            if j != i {
                assert(n[j] == m[j]);
            }
        }
    } else {
        assert(keys_of(n) =~= ks.insert(i, name));
        insert_at_slot_sorted(ks, name);
        assert forall|j: int| 0 <= j < n.len() implies strictly_sorted(keys_of(#[trigger] n[j].1)) by {
            if j < i {
                assert(n[j] == m[j]);
            } else if j > i {
                assert(n[j] == m[j - 1]);
            } else {
                assert(keys_of(n[j].1) =~= seq![dir]);
            }
        }
    }
}

proof fn bump_peer_ordered(m: Seq<(Seq<char>, (Seq<char>, usize))>, key: Seq<char>, dir: Seq<char>)
    requires
        strictly_sorted(keys_of(m)),
    ensures
        strictly_sorted(keys_of(bump_peer(m, key, dir))),
{
    let ks = keys_of(m);
    slot_facts(ks, key);
    let i = slot(ks, key);
    if i < m.len() && m[i].0 == key {
        assert(keys_of(bump_peer(m, key, dir)) =~= ks);
    } else {
        assert(keys_of(bump_peer(m, key, dir)) =~= ks.insert(i, key));
        insert_at_slot_sorted(ks, key);
    }
}

/// Whatever datagrams it takes in, a report keeps every tally and set in
/// order with no key twice: it lists each command (and each of its
/// directions), peer version, error, OpMode name, flavor, group and
/// dropped field once, in order.
pub proof fn observe_keeps_order(r: ReportView, d: DatagramView, parsed: Result<PacketView, Error>, objects: Option<Seq<OpModeMeta>>)
    requires
        report_ordered(r),
    ensures
        report_ordered(observe_step(r, d, parsed, objects)),
{
    reveal(learn);
    reveal(learn_command);
    match parsed {
        Err(e) => {
            bump_sorted(r.undecodable, error_message(e));
        },
        Ok(PacketView::Command(c)) => {
            if !c.acknowledged {
                bump_command_ordered(r, c.name, direction(d, r.rc));
                let r2 = ReportView { commands: bump_command(r.commands, c.name, direction(d, r.rc)), ..r };
                set_ins_sorted(r2.inited, c.extra);
                set_ins_sorted(r2.ran, c.extra);
                let f = r2.opmodes;
                let f1 = FindingsView {
                    lists: (f.lists + 1) as usize,
                    parsed_entries: max_of(f.parsed_entries, parsed_count(objects, c.extra)),
                    ..f
                };
                match json_object_fields(c.extra) {
                    Some(items) => fold_items_ordered(
                        FindingsView { json_entries: max_of(f1.json_entries, items.len()), ..f1 },
                        items,
                    ),
                    None => {},
                }
            }
        },
        Ok(PacketView::PeerDiscovery(p)) => {
            bump_peer_ordered(r.peers, peer_fields(p), direction(d, r.rc));
        },
        Ok(_) => {},
    }
}


pub open spec fn endpoints_ordered(s: Seq<Endpoint>) -> bool {
    forall|i: int, j: int| 0 <= i < j < s.len() ==> endpoint_lt(#[trigger] s[i], #[trigger] s[j])
}

proof fn insert_endpoint_facts(s: Seq<Endpoint>, e: Endpoint)
    requires
        endpoints_ordered(s),
    ensures
        endpoints_ordered(insert_endpoint(s, e)),
        forall|x: Endpoint| #[trigger] insert_endpoint(s, e).contains(x) <==> (s.contains(x) || x == e),
    decreases s.len(),
{
    let r = insert_endpoint(s, e);
    if s.len() == 0 {
        assert(r[0] == e);
    } else if s[0] == e {
    } else if endpoint_lt(e, s[0]) {
        assert forall|i: int, j: int| 0 <= i < j < r.len() implies endpoint_lt(#[trigger] r[i], #[trigger] r[j]) by {
            if i > 0 {
                assert(r[i] == s[i - 1] && r[j] == s[j - 1]);
            } else {
                assert(r[j] == s[j - 1]);
            }
        }
        assert forall|x: Endpoint| r.contains(x) <==> (s.contains(x) || x == e) by {
            if s.contains(x) {
                let k = choose|k: int| 0 <= k < s.len() && s[k] == x;
                assert(r[k + 1] == x);
            }
            if r.contains(x) {
                let k = choose|k: int| 0 <= k < r.len() && r[k] == x;
                if k > 0 {
                    assert(s[k - 1] == x);
                }
            }
            if x == e {
                assert(r[0] == e);
            }
        }
    } else {
        let t = s.drop_first();
        assert forall|i: int, j: int| 0 <= i < j < t.len() implies endpoint_lt(#[trigger] t[i], #[trigger] t[j]) by {
            assert(t[i] == s[i + 1] && t[j] == s[j + 1]);
        }
        insert_endpoint_facts(t, e);
        let rt = insert_endpoint(t, e);
        assert forall|i: int, j: int| 0 <= i < j < r.len() implies endpoint_lt(#[trigger] r[i], #[trigger] r[j]) by {
            assert(r[j] == rt[j - 1]);
            if i > 0 {
                assert(r[i] == rt[i - 1]);
            } else {
                let y = rt[j - 1];
                assert(rt.contains(y));
                if y != e {
                    assert(t.contains(y));
                    let k = choose|k: int| 0 <= k < t.len() && t[k] == y;
                    assert(s[k + 1] == t[k]);
                    assert(endpoint_lt(s[0], s[k + 1]));
                }
            }
        }
        assert forall|x: Endpoint| r.contains(x) <==> (s.contains(x) || x == e) by {
            if s.contains(x) {
                let k = choose|k: int| 0 <= k < s.len() && s[k] == x;
                if k == 0 {
                    assert(r[0] == x);
                } else {
                    assert(t[k - 1] == x);
                    assert(t.contains(x));
                    assert(rt.contains(x));
                    let m = choose|m: int| 0 <= m < rt.len() && rt[m] == x;
                    assert(r[m + 1] == x);
                }
            }
            if r.contains(x) {
                let k = choose|k: int| 0 <= k < r.len() && r[k] == x;
                if k > 0 {
                    assert(rt[k - 1] == x);
                    assert(rt.contains(x));
                    if x != e {
                        assert(t.contains(x));
                        let m = choose|m: int| 0 <= m < t.len() && t[m] == x;
                        assert(s[m + 1] == x);
                    }
                } else {
                    assert(s[0] == x);
                }
            }
            if x == e {
                assert(rt.contains(e));
                let m = choose|m: int| 0 <= m < rt.len() && rt[m] == e;
                assert(r[m + 1] == e);
            }
        }
    }
}

/// The Robot Controller endpoints a report lists are those it was given,
/// each once, in order.
pub proof fn endpoint_set_ordered(v: Seq<Endpoint>)
    ensures
        endpoints_ordered(endpoint_set(v)),
        forall|x: Endpoint| endpoint_set(v).contains(x) <==> v.contains(x),
    decreases v.len(),
{
    if v.len() > 0 {
        endpoint_set_ordered(v.drop_last());
        insert_endpoint_facts(endpoint_set(v.drop_last()), v.last());
        assert forall|x: Endpoint| endpoint_set(v).contains(x) <==> v.contains(x) by {
            if v.drop_last().contains(x) {
                let k = choose|k: int| 0 <= k < v.drop_last().len() && v.drop_last()[k] == x;
                assert(v[k] == x);
            }
            if v.contains(x) && x != v.last() {
                let k = choose|k: int| 0 <= k < v.len() && v[k] == x;
                assert(v.drop_last()[k] == x);
            }
            if x == v.last() {
                assert(v[v.len() - 1] == x);
            }
        }
    }
}


// ---------------------------------------------------------------------------
// Flavors and clipping
// ---------------------------------------------------------------------------

/// A string as JSON text: in double quotes.
pub open spec fn json_quoted(n: Seq<char>) -> Seq<char> {
    seq!['"'] + n + seq!['"']
}

proof fn std_flavor_texts(f: Seq<char>)
    ensures
        is_std_flavor(f) <==> (f == json_quoted("TELEOP"@) || f == json_quoted("AUTONOMOUS"@) || f
            == json_quoted("SYSTEM"@)),
{
    reveal_strlit("\"TELEOP\"");
    reveal_strlit("\"AUTONOMOUS\"");
    reveal_strlit("\"SYSTEM\"");
    reveal_strlit("TELEOP");
    reveal_strlit("AUTONOMOUS");
    reveal_strlit("SYSTEM");
    assert("\"TELEOP\""@ =~= json_quoted("TELEOP"@));
    assert("\"AUTONOMOUS\""@ =~= json_quoted("AUTONOMOUS"@));
    assert("\"SYSTEM\""@ =~= json_quoted("SYSTEM"@));
}

/// The flavors a report calls new are exactly those seen (as their JSON
/// text) other than the three the Driver Station knows, `"TELEOP"`,
/// `"AUTONOMOUS"` and `"SYSTEM"`, each in its quoted JSON form.
pub proof fn new_flavors_are_the_unknown_ones(s: Seq<Seq<char>>)
    ensures
        forall|x: Seq<char>|
            #[trigger] new_flavors(s).contains(x) <==> (s.contains(x) && x != json_quoted("TELEOP"@) && x
                != json_quoted("AUTONOMOUS"@) && x != json_quoted("SYSTEM"@)),
    decreases s.len(),
{
    if s.len() > 0 {
        let init = s.drop_last();
        new_flavors_are_the_unknown_ones(init);
        std_flavor_texts(s.last());
        assert forall|x: Seq<char>|
            #[trigger] new_flavors(s).contains(x) <==> (s.contains(x) && x != json_quoted("TELEOP"@) && x
                != json_quoted("AUTONOMOUS"@) && x != json_quoted("SYSTEM"@)) by {
            assert(s =~= init.push(s.last()));
            if s.contains(x) && x != s.last() {
                let k = choose|k: int| 0 <= k < s.len() && s[k] == x;
                assert(init[k] == x);
            }
            if init.contains(x) {
                let k = choose|k: int| 0 <= k < init.len() && init[k] == x;
                assert(s[k] == x);
            }
            if x == s.last() {
                assert(s[s.len() - 1] == x);
            }
            let r = new_flavors(init);
            if !is_std_flavor(s.last()) {
                assert(new_flavors(s) == r.push(s.last()));
                if r.push(s.last()).contains(x) && x != s.last() {
                    let k = choose|k: int| 0 <= k < r.push(s.last()).len() && r.push(s.last())[k] == x;
                    assert(r[k] == x);
                }
                if r.contains(x) {
                    let k = choose|k: int| 0 <= k < r.len() && r[k] == x;
                    assert(r.push(s.last())[k] == x);
                }
                if x == s.last() {
                    assert(r.push(s.last())[r.len() as int] == x);
                }
            }
        }
    }
}

/// The listing never clips an OpMode list, nor a command `cmd` does not
/// declare: whatever the clip length, it shows the whole payload on one
/// line.
pub proof fn opmode_lists_are_never_clipped(c: crate::packets::CommandView, max_extra: nat)
    requires
        !c.acknowledged,
        c.extra.len() > 0,
        c.name == "CMD_NOTIFY_OP_MODE_LIST"@ || !is_known(c.name),
    ensures
        command_body(c, max_extra) == (if is_known(c.name) {
            "cmd"@
        } else {
            "cmd NEW"@
        }) + " "@ + c.name + " #"@ + decimal(c.seq as nat) + ": "@ + one_line(c.extra),
        command_body(c, max_extra) == command_body(c, 0),
{
    reveal_strlit("CMD_NOTIFY_OP_MODE_LIST");
}

} // verus!
