//! The Driver Station side of a Robocol session: discovery, heartbeats,
//! command acknowledgement and retransmission, and turning packets into
//! [`Event`]s.
//!
//! The session is a state machine. Whoever owns the socket hands it what
//! happened (a datagram arrived, a command or gamepad is to be sent, time
//! passed) together with the current time, and performs the [`Action`]s it
//! returns, in order: send bytes to an endpoint, or emit an event. Time is
//! given as milliseconds of a monotonic clock, and wall-clock time (for
//! timestamps the peer sees) as nanoseconds and milliseconds since the Unix
//! epoch.

use vstd::prelude::*;

use crate::cmd::{self, opmodes_view, OpModeMeta, OpModeMetaView};
use crate::packets::{
    command_bytes, command_payload_len, default_peer_discovery, gamepad_bytes, heartbeat_bytes,
    parse_packet, peer_discovery_bytes, Command, CommandView, Gamepad, Heartbeat, HeartbeatView,
    Packet, PacketView, PeerDiscovery, Telemetry, TelemetryView,
};
use crate::text;
use crate::types::RobotState;
use crate::wire::{self, error_message, utf8};

verus! {

/// An IP address: IPv4 as its 32 bits, IPv6 as its 128 bits, both in
/// network order read as a big-endian number.
#[derive(Debug, Clone, Copy, PartialEq, Eq, Structural)]
pub enum Ip {
    V4(u32),
    V6(u128),
}

/// An address and UDP port.
#[derive(Debug, Clone, Copy, PartialEq, Eq, Structural)]
pub struct Endpoint {
    pub ip: Ip,
    pub port: u16,
}

#[derive(Debug, Clone, PartialEq)]
pub struct ClientConfig {
    pub bind_port: u16,
    pub peer_addrs: Vec<Ip>,
    pub peer_port: u16,
    pub heartbeat_interval_ms: u64,
    pub disconnect_timeout_ms: u64,
    pub command_retry_interval_ms: u64,
    pub command_max_attempts: u32,
}

pub struct ConfigView {
    pub bind_port: u16,
    pub peer_addrs: Seq<Ip>,
    pub peer_port: u16,
    pub heartbeat_interval_ms: u64,
    pub disconnect_timeout_ms: u64,
    pub command_retry_interval_ms: u64,
    pub command_max_attempts: u32,
}

impl View for ClientConfig {
    type V = ConfigView;

    open spec fn view(&self) -> ConfigView {
        ConfigView {
            bind_port: self.bind_port,
            peer_addrs: self.peer_addrs@,
            peer_port: self.peer_port,
            heartbeat_interval_ms: self.heartbeat_interval_ms,
            disconnect_timeout_ms: self.disconnect_timeout_ms,
            command_retry_interval_ms: self.command_retry_interval_ms,
            command_max_attempts: self.command_max_attempts,
        }
    }
}

/// 192.168.43.1, where a Control Hub answers.
pub const CONTROL_HUB_ADDR: u32 = 0xC0A8_2B01;

/// 192.168.49.1, where an RC phone answers.
pub const RC_PHONE_ADDR: u32 = 0xC0A8_3101;

impl Default for ClientConfig {
    /// Any local port; the two default peer addresses (those of
    /// `DEFAULT_PEER_ADDRS`) on the Robocol port; a heartbeat every 200 ms;
    /// a peer silent for 3 s is gone; commands retried every 500 ms, at
    /// most 10 times.
    fn default() -> (c: ClientConfig)
        ensures
            c@ == (ConfigView {
                bind_port: 0,
                peer_addrs: seq![Ip::V4(CONTROL_HUB_ADDR), Ip::V4(RC_PHONE_ADDR)],
                peer_port: crate::ROBOCOL_PORT,
                heartbeat_interval_ms: 200,
                disconnect_timeout_ms: 3000,
                command_retry_interval_ms: 500,
                command_max_attempts: 10,
            }),
    {
        let mut peer_addrs: Vec<Ip> = Vec::new();
        peer_addrs.push(Ip::V4(CONTROL_HUB_ADDR));
        peer_addrs.push(Ip::V4(RC_PHONE_ADDR));
        let c = ClientConfig {
            bind_port: 0,
            peer_addrs,
            peer_port: crate::ROBOCOL_PORT,
            heartbeat_interval_ms: 200,
            disconnect_timeout_ms: 3000,
            command_retry_interval_ms: 500,
            command_max_attempts: 10,
        };
        assert(c@.peer_addrs =~= seq![Ip::V4(CONTROL_HUB_ADDR), Ip::V4(RC_PHONE_ADDR)]);
        c
    }
}

/// What the session reports.
#[derive(Debug, Clone, PartialEq)]
pub enum Event {
    Connected { peer: Endpoint },
    Disconnected,
    RobotState(RobotState),
    Telemetry(Telemetry),
    OpModeList(Vec<OpModeMeta>),
    OpModeInited(String),
    OpModeRunning(String),
    ActiveConfiguration(String),
    ConfigurationList(String),
    Configuration(String),
    UserDeviceList(String),
    ScanResult(String),
    LynxModules(String),
    Stacktrace(String),
    Command { name: String, extra: String },
    CommandDropped { name: String },
    ProtocolError(String),
}

pub enum EventView {
    Connected { peer: Endpoint },
    Disconnected,
    RobotState(RobotState),
    Telemetry(TelemetryView),
    OpModeList(Seq<OpModeMetaView>),
    OpModeInited(Seq<char>),
    OpModeRunning(Seq<char>),
    ActiveConfiguration(Seq<char>),
    ConfigurationList(Seq<char>),
    Configuration(Seq<char>),
    UserDeviceList(Seq<char>),
    ScanResult(Seq<char>),
    LynxModules(Seq<char>),
    Stacktrace(Seq<char>),
    Command { name: Seq<char>, extra: Seq<char> },
    CommandDropped { name: Seq<char> },
    ProtocolError(Seq<char>),
}

impl View for Event {
    type V = EventView;

    open spec fn view(&self) -> EventView {
        match self {
            Event::Connected { peer } => EventView::Connected { peer: *peer },
            Event::Disconnected => EventView::Disconnected,
            Event::RobotState(s) => EventView::RobotState(*s),
            Event::Telemetry(t) => EventView::Telemetry(t@),
            Event::OpModeList(l) => EventView::OpModeList(opmodes_view(l@)),
            Event::OpModeInited(s) => EventView::OpModeInited(s@),
            Event::OpModeRunning(s) => EventView::OpModeRunning(s@),
            Event::ActiveConfiguration(s) => EventView::ActiveConfiguration(s@),
            Event::ConfigurationList(s) => EventView::ConfigurationList(s@),
            Event::Configuration(s) => EventView::Configuration(s@),
            Event::UserDeviceList(s) => EventView::UserDeviceList(s@),
            Event::ScanResult(s) => EventView::ScanResult(s@),
            Event::LynxModules(s) => EventView::LynxModules(s@),
            Event::Stacktrace(s) => EventView::Stacktrace(s@),
            Event::Command { name, extra } => EventView::Command { name: name@, extra: extra@ },
            Event::CommandDropped { name } => EventView::CommandDropped { name: name@ },
            Event::ProtocolError(s) => EventView::ProtocolError(s@),
        }
    }
}

/// What the owner of the socket is to do.
#[derive(Debug, Clone, PartialEq)]
pub enum Action {
    /// Send `bytes` as one datagram to `to`.
    Send { to: Endpoint, bytes: Vec<u8> },
    /// Report an event.
    Emit(Event),
    /// Read `extra` (a CMD_NOTIFY_OP_MODE_LIST payload) with
    /// `cmd::parse_opmode_list` and report the list as `Event::OpModeList`.
    EmitOpModeList { extra: String },
}

pub enum ActionView {
    Send { to: Endpoint, bytes: Seq<u8> },
    Emit(EventView),
    EmitOpModeList { extra: Seq<char> },
}

impl View for Action {
    type V = ActionView;

    open spec fn view(&self) -> ActionView {
        match self {
            Action::Send { to, bytes } => ActionView::Send { to: *to, bytes: bytes@ },
            Action::Emit(e) => ActionView::Emit(e@),
            Action::EmitOpModeList { extra } => ActionView::EmitOpModeList { extra: extra@ },
        }
    }
}

pub open spec fn actions_view(a: Seq<Action>) -> Seq<ActionView> {
    a.map_values(|x: Action| x@)
}

/// A command waiting for its acknowledgement.
pub struct PendingCommand {
    pub command: Command,
    /// When it was last sent (monotonic ms), if ever.
    pub last_sent: Option<u64>,
    pub attempts: u32,
}

pub struct PendingView {
    pub command: CommandView,
    pub last_sent: Option<u64>,
    pub attempts: u32,
}

impl View for PendingCommand {
    type V = PendingView;

    open spec fn view(&self) -> PendingView {
        PendingView { command: self.command@, last_sent: self.last_sent, attempts: self.attempts }
    }
}

/// How many recent (name, timestamp) command keys are remembered, so that
/// a retransmitted command is reported once.
pub const SEEN_WINDOW: usize = 32;

/// The session's state.
pub struct Session {
    pub cfg: ClientConfig,
    pub peer: Option<Endpoint>,
    pub robot_state: Option<RobotState>,
    /// When the last datagram from the peer arrived (monotonic ms).
    pub last_rx: u64,
    /// When the last heartbeat or discovery round went out (monotonic ms).
    pub last_beat: Option<u64>,
    pub seq: u16,
    pub pending: Vec<PendingCommand>,
    /// Keys of the commands reported most recently, oldest first.
    pub seen: Vec<(String, i64)>,
}

pub struct SessionView {
    pub cfg: ConfigView,
    pub peer: Option<Endpoint>,
    pub robot_state: Option<RobotState>,
    pub last_rx: u64,
    pub last_beat: Option<u64>,
    pub seq: u16,
    pub pending: Seq<PendingView>,
    pub seen: Seq<(Seq<char>, i64)>,
}

pub open spec fn pending_view(v: Seq<PendingCommand>) -> Seq<PendingView> {
    v.map_values(|p: PendingCommand| p@)
}

pub open spec fn seen_view(v: Seq<(String, i64)>) -> Seq<(Seq<char>, i64)> {
    v.map_values(|k: (String, i64)| (k.0@, k.1))
}

impl View for Session {
    type V = SessionView;

    open spec fn view(&self) -> SessionView {
        SessionView {
            cfg: self.cfg@,
            peer: self.peer,
            robot_state: self.robot_state,
            last_rx: self.last_rx,
            last_beat: self.last_beat,
            seq: self.seq,
            pending: pending_view(self.pending@),
            seen: seen_view(self.seen@),
        }
    }
}

// ---------------------------------------------------------------------------
// The rules of the session, as functions from state to state and actions
// ---------------------------------------------------------------------------

/// A command whose wire size fits the address space.
pub open spec fn command_fits(c: CommandView) -> bool {
    command_payload_len(c) + 5 <= usize::MAX
}

/// What every state of a session satisfies: pending commands can be
/// serialized, and the window of remembered keys is bounded.
pub open spec fn session_wf(s: SessionView) -> bool {
    &&& forall|i: int| 0 <= i < s.pending.len() ==> command_fits(#[trigger] s.pending[i].command)
    &&& s.seen.len() <= SEEN_WINDOW
}

/// The sequence number after `s`: one more, wrapping.
pub open spec fn next_seq_of(s: u16) -> u16 {
    if s == u16::MAX {
        0
    } else {
        (s + 1) as u16
    }
}

/// `n` sequence numbers after `s`.
pub open spec fn seq_after(s: u16, n: nat) -> u16 {
    ((s + n) % 65536) as u16
}

/// A command as queued: a zero timestamp becomes the wall clock.
pub open spec fn stamped(c: CommandView, wall_ns: i64) -> CommandView {
    CommandView {
        timestamp: if c.timestamp == 0 {
            wall_ns
        } else {
            c.timestamp
        },
        ..c
    }
}

/// A fresh entry for `c` in the pending list.
pub open spec fn fresh(c: CommandView, wall_ns: i64) -> PendingView {
    PendingView { command: stamped(c, wall_ns), last_sent: None, attempts: 0 }
}

/// A request with no extra, as the session itself sends it.
pub open spec fn request(name: Seq<char>) -> CommandView {
    CommandView { seq: 0, timestamp: 0, acknowledged: false, name, extra: Seq::empty() }
}

/// The acknowledgement of `c`.
pub open spec fn ack_view(c: CommandView) -> CommandView {
    CommandView {
        seq: c.seq,
        timestamp: c.timestamp,
        acknowledged: true,
        name: c.name,
        extra: Seq::empty(),
    }
}

/// Whether `p` is the command that an acknowledgement of `(name, ts)` answers.
pub open spec fn answers(p: PendingView, name: Seq<char>, ts: i64) -> bool {
    p.command.name == name && p.command.timestamp == ts
}

/// The pending list without the commands that `(name, ts)` answers.
pub open spec fn without_acked(ps: Seq<PendingView>, name: Seq<char>, ts: i64) -> Seq<PendingView>
    decreases ps.len(),
{
    if ps.len() == 0 {
        ps
    } else {
        let rest = without_acked(ps.drop_last(), name, ts);
        if answers(ps.last(), name, ts) {
            rest
        } else {
            rest.push(ps.last())
        }
    }
}

/// The window of keys after `key` was reported: the oldest goes once the
/// window is over full.
pub open spec fn remember(seen: Seq<(Seq<char>, i64)>, key: (Seq<char>, i64)) -> Seq<
    (Seq<char>, i64),
> {
    if seen.len() + 1 > SEEN_WINDOW {
        seen.push(key).drop_first()
    } else {
        seen.push(key)
    }
}

/// The event a fresh (not yet reported) command from the peer is reported as.
pub open spec fn command_event(c: CommandView) -> ActionView {
    if c.name == cmd::NOTIFY_OP_MODE_LIST@ {
        ActionView::EmitOpModeList { extra: c.extra }
    } else if c.name == cmd::NOTIFY_INIT_OP_MODE@ {
        ActionView::Emit(EventView::OpModeInited(c.extra))
    } else if c.name == cmd::NOTIFY_RUN_OP_MODE@ {
        ActionView::Emit(EventView::OpModeRunning(c.extra))
    } else if c.name == cmd::NOTIFY_ACTIVE_CONFIGURATION@ {
        ActionView::Emit(EventView::ActiveConfiguration(c.extra))
    } else if c.name == cmd::REQUEST_CONFIGURATIONS_RESP@ {
        ActionView::Emit(EventView::ConfigurationList(c.extra))
    } else if c.name == cmd::REQUEST_PARTICULAR_CONFIGURATION_RESP@ {
        ActionView::Emit(EventView::Configuration(c.extra))
    } else if c.name == cmd::NOTIFY_USER_DEVICE_LIST@ {
        ActionView::Emit(EventView::UserDeviceList(c.extra))
    } else if c.name == cmd::SCAN_RESP@ {
        ActionView::Emit(EventView::ScanResult(c.extra))
    } else if c.name == cmd::DISCOVER_LYNX_MODULES_RESP@ {
        ActionView::Emit(EventView::LynxModules(c.extra))
    } else if c.name == cmd::SHOW_STACKTRACE@ {
        ActionView::Emit(EventView::Stacktrace(c.extra))
    } else {
        ActionView::Emit(EventView::Command { name: c.name, extra: c.extra })
    }
}

/// A command from the peer at `from`. An acknowledgement retires the
/// pending commands it answers (and, for a configuration activation, queues
/// a robot restart, which activation needs to take effect). Anything else is
/// acknowledged, and reported unless its key was reported recently.
pub open spec fn command_step(s: SessionView, c: CommandView, from: Endpoint, wall_ns: i64) -> (
    SessionView,
    Seq<ActionView>,
) {
    if c.acknowledged {
        let kept = without_acked(s.pending, c.name, c.timestamp);
        let pending = if c.name == cmd::ACTIVATE_CONFIGURATION@ {
            kept.push(fresh(request(cmd::RESTART_ROBOT@), wall_ns))
        } else {
            kept
        };
        (SessionView { pending, ..s }, Seq::empty())
    } else {
        let ack = ActionView::Send { to: from, bytes: command_bytes(ack_view(c)) };
        if s.seen.contains((c.name, c.timestamp)) {
            (s, seq![ack])
        } else {
            (
                SessionView { seen: remember(s.seen, (c.name, c.timestamp)), ..s },
                seq![ack, command_event(c)],
            )
        }
    }
}

/// A robot state report: reported when it differs from the last one.
pub open spec fn state_step(s: SessionView, state: RobotState) -> (SessionView, Seq<ActionView>) {
    if s.robot_state == Some(state) {
        (s, Seq::empty())
    } else {
        (
            SessionView { robot_state: Some(state), ..s },
            seq![ActionView::Emit(EventView::RobotState(state))],
        )
    }
}

/// A decoded packet from the peer.
pub open spec fn packet_step(s: SessionView, p: PacketView, from: Endpoint, wall_ns: i64) -> (
    SessionView,
    Seq<ActionView>,
) {
    match p {
        PacketView::Heartbeat(h) => state_step(s, h.robot_state),
        PacketView::Telemetry(t) => {
            let (s2, a) = state_step(s, t.robot_state);
            (s2, a.push(ActionView::Emit(EventView::Telemetry(t))))
        },
        PacketView::Command(c) => command_step(s, c, from, wall_ns),
        _ => (s, Seq::empty()),
    }
}

/// The first packet from a peer makes it the peer, and queues the requests
/// for the active configuration, the configuration list and the OpMode list.
pub open spec fn connect(s: SessionView, from: Endpoint, wall_ns: i64) -> SessionView {
    SessionView {
        peer: Some(from),
        pending: s.pending + seq![
            fresh(request(cmd::REQUEST_ACTIVE_CONFIG@), wall_ns),
            fresh(request(cmd::REQUEST_CONFIGURATIONS@), wall_ns),
            fresh(request(cmd::REQUEST_OP_MODE_LIST@), wall_ns),
        ],
        ..s
    }
}

/// A datagram from `from` at time `now`. Datagrams from anyone but the peer
/// are ignored; one that does not parse is reported as a protocol error.
pub open spec fn datagram_step(
    s: SessionView,
    data: Seq<u8>,
    from: Endpoint,
    now: u64,
    wall_ns: i64,
) -> (SessionView, Seq<ActionView>) {
    if s.peer is Some && s.peer != Some(from) {
        (s, Seq::empty())
    } else {
        let s1 = SessionView { last_rx: now, ..s };
        match parse_packet(data) {
            Err(e) => (s1, seq![ActionView::Emit(EventView::ProtocolError(error_message(e)))]),
            Ok(p) => {
                let (s2, a2) = if s1.peer is None {
                    (
                        connect(s1, from, wall_ns),
                        seq![ActionView::Emit(EventView::Connected { peer: from })],
                    )
                } else {
                    (s1, Seq::empty())
                };
                let (s3, a3) = packet_step(s2, p, from, wall_ns);
                (s3, a2 + a3)
            },
        }
    }
}

/// Monotonic milliseconds from `since` to `now`; none when `now` is earlier.
pub open spec fn elapsed(now: u64, since: u64) -> u64 {
    if now >= since {
        (now - since) as u64
    } else {
        0
    }
}

/// The heartbeat the session sends with sequence number `seq`.
pub open spec fn heartbeat_of(seq: u16, wall_ns: i64, wall_ms: i64) -> HeartbeatView {
    HeartbeatView {
        seq,
        timestamp: wall_ns,
        robot_state: RobotState::NotStarted,
        t0: wall_ms,
        t1: 0,
        t2: 0,
        timezone_id: "GMT"@,
    }
}

/// One discovery packet to each configured address.
pub open spec fn discovery_sends(addrs: Seq<Ip>, port: u16) -> Seq<ActionView> {
    addrs.map_values(
        |a: Ip|
            ActionView::Send {
                to: Endpoint { ip: a, port },
                bytes: peer_discovery_bytes(default_peer_discovery()),
            },
    )
}

/// A beat: discovery while no peer is known, a heartbeat to the peer once
/// one is.
pub open spec fn tick_step(s: SessionView, wall_ns: i64, wall_ms: i64) -> (
    SessionView,
    Seq<ActionView>,
) {
    match s.peer {
        None => (s, discovery_sends(s.cfg.peer_addrs, s.cfg.peer_port)),
        Some(peer) => {
            let q = next_seq_of(s.seq);
            (
                SessionView { seq: q, ..s },
                seq![
                    ActionView::Send {
                        to: peer,
                        bytes: heartbeat_bytes(heartbeat_of(q, wall_ns, wall_ms)),
                    },
                ],
            )
        },
    }
}

/// Whether a pending command is due to be sent (again): never sent, or
/// sent at least one retry interval ago.
pub open spec fn retry_due(p: PendingView, now: u64, retry: u64) -> bool {
    match p.last_sent {
        Some(t) => elapsed(now, t) >= retry,
        None => true,
    }
}

/// One pass over the pending list, front to back: commands not yet due
/// stay; due ones that have used up their attempts are dropped (by name);
/// the other due ones are sent once more. The result is the new pending
/// list, the commands to send, and the names dropped, each in list order.
pub open spec fn sweep(ps: Seq<PendingView>, now: u64, retry: u64, max: u32) -> (
    Seq<PendingView>,
    Seq<CommandView>,
    Seq<Seq<char>>,
)
    decreases ps.len(),
{
    if ps.len() == 0 {
        (Seq::empty(), Seq::empty(), Seq::empty())
    } else {
        let (kept, sent, dropped) = sweep(ps.drop_last(), now, retry, max);
        let p = ps.last();
        if !retry_due(p, now, retry) {
            (kept.push(p), sent, dropped)
        } else if p.attempts >= max {
            (kept, sent, dropped.push(p.command.name))
        } else {
            (
                kept.push(
                    PendingView { last_sent: Some(now), attempts: (p.attempts + 1) as u32, ..p },
                ),
                sent.push(p.command),
                dropped,
            )
        }
    }
}

/// The sends of `cmds` to `peer`, numbered on from `seq`.
pub open spec fn resend_actions(cmds: Seq<CommandView>, seq: u16, peer: Endpoint) -> Seq<
    ActionView,
>
    decreases cmds.len(),
{
    if cmds.len() == 0 {
        Seq::empty()
    } else {
        resend_actions(cmds.drop_last(), seq, peer).push(
            ActionView::Send {
                to: peer,
                bytes: command_bytes(
                    CommandView { seq: seq_after(seq, cmds.len()), ..cmds.last() },
                ),
            },
        )
    }
}

/// The reports of commands given up on.
pub open spec fn drop_events(names: Seq<Seq<char>>) -> Seq<ActionView> {
    names.map_values(|n: Seq<char>| ActionView::Emit(EventView::CommandDropped { name: n }))
}

/// Retransmission, while a peer is known: the sweep's sends, numbered on
/// from the current sequence number, then the reports of dropped commands.
pub open spec fn retransmit_step(s: SessionView, now: u64) -> (SessionView, Seq<ActionView>) {
    match s.peer {
        None => (s, Seq::empty()),
        Some(peer) => {
            let (kept, sent, dropped) = sweep(
                s.pending,
                now,
                s.cfg.command_retry_interval_ms,
                s.cfg.command_max_attempts,
            );
            (
                SessionView { pending: kept, seq: seq_after(s.seq, sent.len()), ..s },
                resend_actions(sent, s.seq, peer) + drop_events(dropped),
            )
        },
    }
}

/// Whether a beat is due: none yet, or the heartbeat interval has passed.
pub open spec fn beat_due(s: SessionView, now: u64) -> bool {
    match s.last_beat {
        None => true,
        Some(t) => elapsed(now, t) >= s.cfg.heartbeat_interval_ms,
    }
}

/// What happens as time passes: a peer silent for longer than the
/// disconnect timeout is forgotten; a due beat goes out; pending commands
/// are retransmitted.
pub open spec fn poll_step(s: SessionView, now: u64, wall_ns: i64, wall_ms: i64) -> (
    SessionView,
    Seq<ActionView>,
) {
    let (s1, a1) = if s.peer is Some && elapsed(now, s.last_rx) > s.cfg.disconnect_timeout_ms {
        (
            SessionView { peer: None, robot_state: None, ..s },
            seq![ActionView::Emit(EventView::Disconnected)],
        )
    } else {
        (s, Seq::empty())
    };
    let (s2, a2) = if beat_due(s1, now) {
        tick_step(SessionView { last_beat: Some(now), ..s1 }, wall_ns, wall_ms)
    } else {
        (s1, Seq::empty())
    };
    let (s3, a3) = retransmit_step(s2, now);
    (s3, a1 + a2 + a3)
}

/// `g` numbered `q`, and stamped with the wall clock (ms) where it carries
/// no timestamp.
pub open spec fn gamepad_sent(g: Gamepad, q: u16, wall_ms: i64) -> Gamepad {
    Gamepad {
        seq: q,
        timestamp: if g.timestamp == 0 {
            wall_ms
        } else {
            g.timestamp
        },
        ..g
    }
}

/// A gamepad state to send: only to a known peer, numbered, and stamped
/// with the wall clock (ms) where it carries no timestamp.
pub open spec fn gamepad_step(s: SessionView, g: Gamepad, wall_ms: i64) -> (
    SessionView,
    Seq<ActionView>,
) {
    match s.peer {
        None => (s, Seq::empty()),
        Some(peer) => {
            let q = next_seq_of(s.seq);
            (
                SessionView { seq: q, ..s },
                seq![ActionView::Send { to: peer, bytes: gamepad_bytes(gamepad_sent(g, q, wall_ms)) }],
            )
        },
    }
}

// ---------------------------------------------------------------------------
// Facts the session relies on
// ---------------------------------------------------------------------------

/// A command with a short name and no extra fits the wire.
proof fn short_request_fits(c: CommandView)
    requires
        c.name.len() <= 64,
        c.extra.len() == 0,
    ensures
        command_fits(c),
{
    wire::utf8_len_bound(c.name);
    wire::utf8_len_bound(c.extra);
}

/// The requests the session sends on its own fit the wire.
proof fn own_requests_fit()
    ensures
        command_fits(request(cmd::RESTART_ROBOT@)),
        command_fits(request(cmd::REQUEST_ACTIVE_CONFIG@)),
        command_fits(request(cmd::REQUEST_CONFIGURATIONS@)),
        command_fits(request(cmd::REQUEST_OP_MODE_LIST@)),
{
    reveal_strlit("CMD_RESTART_ROBOT");
    reveal_strlit("CMD_REQUEST_ACTIVE_CONFIG");
    reveal_strlit("CMD_REQUEST_CONFIGURATIONS");
    reveal_strlit("CMD_REQUEST_OP_MODE_LIST");
    short_request_fits(request(cmd::RESTART_ROBOT@));
    short_request_fits(request(cmd::REQUEST_ACTIVE_CONFIG@));
    short_request_fits(request(cmd::REQUEST_CONFIGURATIONS@));
    short_request_fits(request(cmd::REQUEST_OP_MODE_LIST@));
}

/// A command read from `buf` is no larger on the wire than `buf`.
proof fn parsed_command_fits(buf: Seq<u8>)
    requires
        parse_packet(buf) matches Ok(PacketView::Command(_)),
    ensures
        parse_packet(buf) matches Ok(PacketView::Command(c)) && command_payload_len(c) + 5
            <= buf.len(),
{
    broadcast use vstd::utf8::decode_utf8_encode_utf8;

    let c = parse_packet(buf)->Ok_0->Command_0;
    let len1 = wire::u16_of(buf[14], buf[15]) as int;
    assert(utf8(c.name) == buf.subrange(16, 16 + len1));
    if !c.acknowledged {
        let off = 16 + len1;
        let len2 = wire::u16_of(buf[off], buf[off + 1]) as int;
        assert(utf8(c.extra) == buf.subrange(off + 2, off + 2 + len2));
    }
}

// ---------------------------------------------------------------------------
// Laws of the session
// ---------------------------------------------------------------------------

/// Once a peer is known, datagrams from anyone else change nothing and
/// cause nothing.
pub proof fn strangers_are_ignored(
    s: SessionView,
    data: Seq<u8>,
    from: Endpoint,
    now: u64,
    wall_ns: i64,
)
    requires
        s.peer matches Some(p) && p != from,
    ensures
        datagram_step(s, data, from, now, wall_ns) == (s, Seq::<ActionView>::empty()),
{
}

/// Every command from the peer that is not itself an acknowledgement is
/// acknowledged first thing, to its sender, with its name and timestamp,
/// duplicates included.
pub proof fn commands_are_acknowledged(s: SessionView, c: CommandView, from: Endpoint, wall_ns: i64)
    requires
        !c.acknowledged,
    ensures
        command_step(s, c, from, wall_ns).1.len() >= 1,
        command_step(s, c, from, wall_ns).1[0] == (ActionView::Send {
            to: from,
            bytes: command_bytes(ack_view(c)),
        }),
{
}

/// A command delivered twice in a row is reported once: the second time it
/// is only acknowledged, and the state stays as the first delivery left it.
pub proof fn duplicates_are_reported_once(
    s: SessionView,
    c: CommandView,
    from: Endpoint,
    wall_ns: i64,
)
    requires
        !c.acknowledged,
    ensures
        ({
            let s1 = command_step(s, c, from, wall_ns).0;
            command_step(s1, c, from, wall_ns) == (
                s1,
                seq![ActionView::Send { to: from, bytes: command_bytes(ack_view(c)) }],
            )
        }),
{
    let key = (c.name, c.timestamp);
    if !s.seen.contains(key) {
        let r = remember(s.seen, key);
        if s.seen.len() + 1 > SEEN_WINDOW {
            assert(r[r.len() - 1] == key);
        } else {
            assert(r[r.len() - 1] == key);
        }
        assert(r.contains(key));
    }
}

proof fn without_acked_props(ps: Seq<PendingView>, name: Seq<char>, ts: i64)
    ensures
        forall|i: int|
            0 <= i < without_acked(ps, name, ts).len() ==> !answers(
                #[trigger] without_acked(ps, name, ts)[i],
                name,
                ts,
            ) && ps.contains(without_acked(ps, name, ts)[i]),
        forall|i: int|
            0 <= i < ps.len() && !answers(#[trigger] ps[i], name, ts) ==> without_acked(
                ps,
                name,
                ts,
            ).contains(ps[i]),
    decreases ps.len(),
{
    if ps.len() > 0 {
        let init = ps.drop_last();
        without_acked_props(init, name, ts);
        let r = without_acked(ps, name, ts);
        let ri = without_acked(init, name, ts);
        assert forall|i: int| 0 <= i < r.len() implies !answers(#[trigger] r[i], name, ts)
            && ps.contains(r[i]) by {
            if i < ri.len() {
                assert(r[i] == ri[i]);
                let j = choose|j: int| 0 <= j < init.len() && init[j] == ri[i];
                assert(ps[j] == init[j]);
            } else {
                assert(r[i] == ps.last());
                assert(ps[ps.len() - 1] == ps.last());
            }
        }
        assert forall|i: int| 0 <= i < ps.len() && !answers(#[trigger] ps[i], name, ts) implies r.contains(
            ps[i],
        ) by {
            if i < init.len() {
                assert(init[i] == ps[i]);
                let j = choose|j: int| 0 <= j < ri.len() && ri[j] == init[i];
                assert(r[j] == ri[j]);
            } else {
                assert(r[r.len() - 1] == ps[i]);
            }
        }
    }
}

/// An acknowledgement retires exactly the pending commands it answers
/// (same name and timestamp): none of those stays, every other one does.
/// Only the acknowledgement of a configuration activation adds a command:
/// the robot restart that activation needs; any other (a save, say) adds
/// nothing.
pub proof fn acknowledgement_retires_commands(
    s: SessionView,
    c: CommandView,
    from: Endpoint,
    wall_ns: i64,
)
    requires
        c.acknowledged,
    ensures
        ({
            let (s1, a) = command_step(s, c, from, wall_ns);
            let kept = without_acked(s.pending, c.name, c.timestamp);
            &&& a.len() == 0
            &&& forall|i: int|
                0 <= i < kept.len() ==> !answers(#[trigger] kept[i], c.name, c.timestamp)
            &&& forall|i: int|
                0 <= i < s.pending.len() && !answers(#[trigger] s.pending[i], c.name, c.timestamp)
                    ==> kept.contains(s.pending[i])
            &&& forall|i: int| 0 <= i < kept.len() ==> s.pending.contains(#[trigger] kept[i])
            &&& if c.name == cmd::ACTIVATE_CONFIGURATION@ {
                s1.pending == kept.push(fresh(request(cmd::RESTART_ROBOT@), wall_ns))
            } else {
                s1.pending == kept
            }
        }),
{
    without_acked_props(s.pending, c.name, c.timestamp);
}

/// The first datagram that parses (and is not an acknowledgement) makes its
/// sender the peer, reports the connection, and queues the requests for the
/// active configuration, the configuration list and the OpMode list, in that
/// order.
pub proof fn first_packet_connects(
    s: SessionView,
    data: Seq<u8>,
    from: Endpoint,
    now: u64,
    wall_ns: i64,
)
    requires
        s.peer is None,
        parse_packet(data) is Ok,
        !(parse_packet(data) matches Ok(PacketView::Command(c)) && c.acknowledged),
    ensures
        ({
            let (s1, a) = datagram_step(s, data, from, now, wall_ns);
            &&& s1.peer == Some(from)
            &&& a.len() >= 1
            &&& a[0] == ActionView::Emit(EventView::Connected { peer: from })
            &&& s1.pending == s.pending + seq![
                fresh(request(cmd::REQUEST_ACTIVE_CONFIG@), wall_ns),
                fresh(request(cmd::REQUEST_CONFIGURATIONS@), wall_ns),
                fresh(request(cmd::REQUEST_OP_MODE_LIST@), wall_ns),
            ]
        }),
{
}

/// Time passing: a peer silent for longer than the disconnect timeout is
/// forgotten, with its robot state, and the disconnection reported first.
pub proof fn silence_disconnects(s: SessionView, now: u64, wall_ns: i64, wall_ms: i64)
    requires
        s.peer is Some,
        elapsed(now, s.last_rx) > s.cfg.disconnect_timeout_ms,
    ensures
        ({
            let (s1, a) = poll_step(s, now, wall_ns, wall_ms);
            &&& s1.peer is None
            &&& s1.robot_state is None
            &&& a.len() >= 1
            &&& a[0] == ActionView::Emit(EventView::Disconnected)
        }),
{
}


/// While no peer is known, every beat that falls due sends peer discovery
/// to each configured address, before anything else.
pub proof fn lost_peer_is_rediscovered(s: SessionView, now: u64, wall_ns: i64, wall_ms: i64)
    requires
        s.peer is None,
        beat_due(s, now),
    ensures
        ({
            let (s1, a) = poll_step(s, now, wall_ns, wall_ms);
            let d = discovery_sends(s.cfg.peer_addrs, s.cfg.peer_port);
            &&& d.len() <= a.len()
            &&& a.take(d.len() as int) == d
        }),
{
    let (s2, a2) = tick_step(SessionView { last_beat: Some(now), ..s }, wall_ns, wall_ms);
    let (s3, a3) = retransmit_step(s2, now);
    let d = discovery_sends(s.cfg.peer_addrs, s.cfg.peer_port);
    assert(a2 == d);
    assert((Seq::<ActionView>::empty() + a2 + a3).take(d.len() as int) =~= d);
}

/// The cycle of a silent peer: the poll that finds it silent reports the
/// disconnection, and when a beat is due at once, sends peer discovery to
/// each configured address straight after.
pub proof fn silence_then_rediscovery(s: SessionView, now: u64, wall_ns: i64, wall_ms: i64)
    requires
        s.peer is Some,
        elapsed(now, s.last_rx) > s.cfg.disconnect_timeout_ms,
        beat_due(SessionView { peer: None, robot_state: None, ..s }, now),
    ensures
        ({
            let (s1, a) = poll_step(s, now, wall_ns, wall_ms);
            let d = discovery_sends(s.cfg.peer_addrs, s.cfg.peer_port);
            &&& s1.peer is None
            &&& d.len() + 1 <= a.len()
            &&& a[0] == ActionView::Emit(EventView::Disconnected)
            &&& a.subrange(1, d.len() as int + 1) == d
        }),
{
    let s1 = SessionView { peer: None, robot_state: None, ..s };
    let (s2, a2) = tick_step(SessionView { last_beat: Some(now), ..s1 }, wall_ns, wall_ms);
    let (s3, a3) = retransmit_step(s2, now);
    let d = discovery_sends(s.cfg.peer_addrs, s.cfg.peer_port);
    assert(a2 == d);
    let a = seq![ActionView::Emit(EventView::Disconnected)] + a2 + a3;
    assert(a.subrange(1, d.len() as int + 1) =~= d);
    assert(s2.peer is None);
}


/// An OpMode notification is reported as what it says: a fresh,
/// unacknowledged `CMD_NOTIFY_INIT_OP_MODE` is acknowledged and reported
/// as the OpMode inited, a `CMD_NOTIFY_RUN_OP_MODE` as the OpMode running,
/// and no other command is ever reported as an OpMode running or inited.
pub proof fn opmode_notifications_are_reported_as_such(
    s: SessionView,
    c: CommandView,
    from: Endpoint,
    wall_ns: i64,
)
    ensures
        ({
            let a = command_step(s, c, from, wall_ns).1;
            let ack = ActionView::Send { to: from, bytes: command_bytes(ack_view(c)) };
            let e = c.extra;
            &&& (!c.acknowledged && !s.seen.contains((c.name, c.timestamp)) && c.name
                == "CMD_NOTIFY_INIT_OP_MODE"@) ==> a == seq![
                ack,
                ActionView::Emit(EventView::OpModeInited(e)),
            ]
            &&& (!c.acknowledged && !s.seen.contains((c.name, c.timestamp)) && c.name
                == "CMD_NOTIFY_RUN_OP_MODE"@) ==> a == seq![
                ack,
                ActionView::Emit(EventView::OpModeRunning(e)),
            ]
            &&& forall|i: int, x: Seq<char>|
                0 <= i < a.len() && a[i] == ActionView::Emit(EventView::OpModeRunning(x)) ==> c.name
                    == "CMD_NOTIFY_RUN_OP_MODE"@ && x == c.extra
            &&& forall|i: int, x: Seq<char>|
                0 <= i < a.len() && a[i] == ActionView::Emit(EventView::OpModeInited(x)) ==> c.name
                    == "CMD_NOTIFY_INIT_OP_MODE"@ && x == c.extra
        }),
{
    reveal_strlit("CMD_NOTIFY_INIT_OP_MODE");
    reveal_strlit("CMD_NOTIFY_RUN_OP_MODE");
    reveal_strlit("CMD_NOTIFY_OP_MODE_LIST");
    reveal_strlit("CMD_NOTIFY_ACTIVE_CONFIGURATION");
    reveal_strlit("CMD_REQUEST_CONFIGURATIONS_RESP");
    reveal_strlit("CMD_REQUEST_PARTICULAR_CONFIGURATION_RESP");
    reveal_strlit("CMD_NOTIFY_USER_DEVICE_LIST");
    reveal_strlit("CMD_SCAN_RESP");
    reveal_strlit("CMD_DISCOVER_LYNX_MODULES_RESP");
    reveal_strlit("CMD_SHOW_STACKTRACE");
    let init = "CMD_NOTIFY_INIT_OP_MODE"@;
    let run = "CMD_NOTIFY_RUN_OP_MODE"@;
    assert(init != run) by {
        assert(init[13] != run[13]);
    }
    assert(cmd::NOTIFY_OP_MODE_LIST@ != init && cmd::NOTIFY_OP_MODE_LIST@ != run) by {
        assert(cmd::NOTIFY_OP_MODE_LIST@[11] != init[11]);
        assert(cmd::NOTIFY_OP_MODE_LIST@[11] != run[11]);
    }
}

proof fn sweep_props(ps: Seq<PendingView>, now: u64, retry: u64, max: u32)
    requires
        forall|i: int| 0 <= i < ps.len() ==> (#[trigger] ps[i]).attempts <= max,
    ensures
        ({
            let (kept, sent, dropped) = sweep(ps, now, retry, max);
            &&& forall|i: int| 0 <= i < kept.len() ==> (#[trigger] kept[i]).attempts <= max
            &&& kept.len() + dropped.len() == ps.len()
            &&& sent.len() <= kept.len()
        }),
    decreases ps.len(),
{
    if ps.len() > 0 {
        let init = ps.drop_last();
        assert forall|i: int| 0 <= i < init.len() implies (#[trigger] init[i]).attempts <= max by {
            assert(init[i] == ps[i]);
        }
        sweep_props(init, now, retry, max);
        assert(ps.last() == ps[ps.len() - 1]);
    }
}

/// Retransmission never lets a command be sent more often than the
/// configured number of attempts: once every pending command has used at
/// most that many, so has every command still pending afterwards.
pub proof fn attempts_are_bounded(s: SessionView, now: u64)
    requires
        forall|i: int|
            0 <= i < s.pending.len() ==> (#[trigger] s.pending[i]).attempts
                <= s.cfg.command_max_attempts,
    ensures
        ({
            let s1 = retransmit_step(s, now).0;
            forall|i: int|
                0 <= i < s1.pending.len() ==> (#[trigger] s1.pending[i]).attempts
                    <= s.cfg.command_max_attempts
        }),
{
    sweep_props(s.pending, now, s.cfg.command_retry_interval_ms, s.cfg.command_max_attempts);
}

// ---------------------------------------------------------------------------
// Executable session
// ---------------------------------------------------------------------------

fn push_action(out: &mut Vec<Action>, a: Action)
    ensures
        actions_view(final(out)@) == actions_view(old(out)@).push(a@),
{
    let ghost v = a@;
    out.push(a);
    assert(actions_view(out@) =~= actions_view(old(out)@).push(v));
}

fn stamp_gamepad(g: Gamepad, q: u16, wall_ms: i64) -> (r: Gamepad)
    ensures
        r == gamepad_sent(g, q, wall_ms),
{
    let mut r = g;
    r.seq = q;
    if r.timestamp == 0 {
        r.timestamp = wall_ms;
    }
    r
}

fn copy_command(c: &Command) -> (r: Command)
    ensures
        r@ == c@,
{
    Command {
        seq: c.seq,
        timestamp: c.timestamp,
        acknowledged: c.acknowledged,
        name: c.name.clone(),
        extra: c.extra.clone(),
    }
}

impl Session {
    /// A session that knows no peer yet, started at `now`.
    pub fn new(cfg: ClientConfig, now: u64) -> (s: Session)
        ensures
            s@ == (SessionView {
                cfg: cfg@,
                peer: None,
                robot_state: None,
                last_rx: now,
                last_beat: None,
                seq: 0,
                pending: Seq::empty(),
                seen: Seq::empty(),
            }),
            session_wf(s@),
    {
        let s = Session {
            cfg,
            peer: None,
            robot_state: None,
            last_rx: now,
            last_beat: None,
            seq: 0,
            pending: Vec::new(),
            seen: Vec::new(),
        };
        assert(s@.pending =~= Seq::<PendingView>::empty());
        assert(s@.seen =~= Seq::<(Seq<char>, i64)>::empty());
        s
    }

    /// Advances the sequence number, wrapping, and returns it.
    pub fn next_seq(&mut self) -> (r: u16)
        ensures
            r == next_seq_of(old(self).seq),
            final(self)@ == (SessionView { seq: r, ..old(self)@ }),
    {
        self.seq = self.seq.wrapping_add(1);
        self.seq
    }

    /// Queues `command` for sending until acknowledged; a zero timestamp is
    /// replaced by the wall clock.
    pub fn queue_command(&mut self, command: Command, wall_ns: i64)
        requires
            session_wf(old(self)@),
            command_fits(command@),
        ensures
            final(self)@ == (SessionView {
                pending: old(self)@.pending.push(fresh(command@, wall_ns)),
                ..old(self)@
            }),
            session_wf(final(self)@),
    {
        let mut command = command;
        if command.timestamp == 0 {
            command.timestamp = wall_ns;
        }
        let ghost before = pending_view(self.pending@);
        self.pending.push(PendingCommand { command, last_sent: None, attempts: 0 });
        assert(pending_view(self.pending@) =~= before.push(fresh(command@, wall_ns)));
    }

    /// Notes the robot state the peer reports.
    pub fn update_robot_state(&mut self, state: RobotState, out: &mut Vec<Action>)
        ensures
            final(self)@ == state_step(old(self)@, state).0,
            actions_view(final(out)@) == actions_view(old(out)@) + state_step(
                old(self)@,
                state,
            ).1,
    {
        let same = match self.robot_state {
            Some(s) => s == state,
            None => false,
        };
        if same {
            assert(actions_view(out@) =~= actions_view(old(out)@) + Seq::<ActionView>::empty());
            return;
        }
        self.robot_state = Some(state);
        push_action(out, Action::Emit(Event::RobotState(state)));
        assert(actions_view(out@) =~= actions_view(old(out)@) + seq![
            ActionView::Emit(EventView::RobotState(state)),
        ]);
    }

    /// Handles a command from the peer at `from`.
    pub fn handle_command(&mut self, command: Command, from: Endpoint, wall_ns: i64, out: &mut Vec<Action>)
        requires
            session_wf(old(self)@),
            command_fits(command@),
        ensures
            final(self)@ == command_step(old(self)@, command@, from, wall_ns).0,
            actions_view(final(out)@) == actions_view(old(out)@) + command_step(
                old(self)@,
                command@,
                from,
                wall_ns,
            ).1,
            session_wf(final(self)@),
    {
        let ghost s0 = self@;
        let ghost c = command@;
        if command.acknowledged {
            let ghost ps = s0.pending;
            let mut kept: Vec<PendingCommand> = Vec::new();
            let n = self.pending.len();
            let mut i: usize = 0;
            while i < n
                invariant
                    n == self.pending@.len(),
                    ps == pending_view(self.pending@),
                    i <= n,
                    pending_view(kept@) == without_acked(ps.take(i as int), c.name, c.timestamp),
                    forall|j: int| 0 <= j < kept@.len() ==> command_fits(#[trigger] kept@[j]@.command),
                    session_wf(s0),
                    s0.pending == ps,
                    c == command@,
                decreases n - i,
            {
                assert(ps.take(i + 1).drop_last() =~= ps.take(i as int));
                assert(ps.take(i + 1).last() == ps[i as int]);
                assert(ps[i as int] == self.pending@[i as int]@);
                let p = &self.pending[i];
                let same_ts = p.command.timestamp == command.timestamp;
                let same_name = text::str_eq(p.command.name.as_str(), command.name.as_str());
                let same = same_ts && same_name;
                assert(same == answers(ps[i as int], c.name, c.timestamp));
                if !same {
                    let ghost before = pending_view(kept@);
                    kept.push(
                        PendingCommand {
                            command: copy_command(&p.command),
                            last_sent: p.last_sent,
                            attempts: p.attempts,
                        },
                    );
                    assert(pending_view(kept@) =~= before.push(ps[i as int]));
                    assert(kept@[kept@.len() - 1]@.command == ps[i as int].command);
                }
                i = i + 1;
            }
            assert(ps.take(n as int) =~= ps);
            self.pending = kept;
            assert(self@.pending == without_acked(ps, c.name, c.timestamp));
            if text::str_eq(command.name.as_str(), cmd::ACTIVATE_CONFIGURATION) {
                let restart = Command::new(cmd::RESTART_ROBOT, "", 0);
                proof {
                    own_requests_fit();
                    reveal_strlit("");
                    assert(restart@.extra =~= Seq::<char>::empty());
                    assert(restart@ == request(cmd::RESTART_ROBOT@));
                }
                self.queue_command(restart, wall_ns);
            }
            assert(actions_view(out@) =~= actions_view(old(out)@) + Seq::<ActionView>::empty());
            return;
        }
        let ack = Command::ack_of(&command);
        let bytes = ack.serialize();
        push_action(out, Action::Send { to: from, bytes });
        let ghost ack_action = ActionView::Send { to: from, bytes: command_bytes(ack_view(c)) };
        let ghost out1 = actions_view(out@);
        let n = self.seen.len();
        let mut found = false;
        let mut i: usize = 0;
        while i < n
            invariant
                n == self.seen@.len(),
                s0.seen == seen_view(self.seen@),
                c == command@,
                i <= n,
                found == exists|j: int| 0 <= j < i && s0.seen[j] == (c.name, c.timestamp),
            decreases n - i,
        {
            assert(s0.seen[i as int] == (self.seen@[i as int].0@, self.seen@[i as int].1));
            let same_ts = self.seen[i].1 == command.timestamp;
            let same_name = text::str_eq(self.seen[i].0.as_str(), command.name.as_str());
            let m = same_ts && same_name;
            assert(m == (s0.seen[i as int] == (c.name, c.timestamp)));
            if m {
                found = true;
            }
            i = i + 1;
        }
        if found {
            assert(s0.seen.contains((c.name, c.timestamp)));
            assert(actions_view(out@) =~= actions_view(old(out)@) + seq![ack_action]);
            return;
        }
        assert(!s0.seen.contains((c.name, c.timestamp)));
        let ghost before = seen_view(self.seen@);
        self.seen.push((command.name.clone(), command.timestamp));
        assert(seen_view(self.seen@) =~= before.push((c.name, c.timestamp)));
        if self.seen.len() > SEEN_WINDOW {
            let ghost full = seen_view(self.seen@);
            self.seen.remove(0);
            assert(seen_view(self.seen@) =~= full.drop_first());
        }
        let name = command.name.as_str();
        let event = if text::str_eq(name, cmd::NOTIFY_OP_MODE_LIST) {
            Action::EmitOpModeList { extra: command.extra }
        } else if text::str_eq(name, cmd::NOTIFY_INIT_OP_MODE) {
            Action::Emit(Event::OpModeInited(command.extra))
        } else if text::str_eq(name, cmd::NOTIFY_RUN_OP_MODE) {
            Action::Emit(Event::OpModeRunning(command.extra))
        } else if text::str_eq(name, cmd::NOTIFY_ACTIVE_CONFIGURATION) {
            Action::Emit(Event::ActiveConfiguration(command.extra))
        } else if text::str_eq(name, cmd::REQUEST_CONFIGURATIONS_RESP) {
            Action::Emit(Event::ConfigurationList(command.extra))
        } else if text::str_eq(name, cmd::REQUEST_PARTICULAR_CONFIGURATION_RESP) {
            Action::Emit(Event::Configuration(command.extra))
        } else if text::str_eq(name, cmd::NOTIFY_USER_DEVICE_LIST) {
            Action::Emit(Event::UserDeviceList(command.extra))
        } else if text::str_eq(name, cmd::SCAN_RESP) {
            Action::Emit(Event::ScanResult(command.extra))
        } else if text::str_eq(name, cmd::DISCOVER_LYNX_MODULES_RESP) {
            Action::Emit(Event::LynxModules(command.extra))
        } else if text::str_eq(name, cmd::SHOW_STACKTRACE) {
            Action::Emit(Event::Stacktrace(command.extra))
        } else {
            Action::Emit(Event::Command { name: command.name, extra: command.extra })
        };
        assert(event@ == command_event(c));
        push_action(out, event);
        assert(actions_view(out@) =~= actions_view(old(out)@) + seq![ack_action, command_event(c)]);
    }
}

fn elapsed_ms(now: u64, since: u64) -> (r: u64)
    ensures
        r == elapsed(now, since),
{
    if now >= since {
        now - since
    } else {
        0
    }
}

pub open spec fn commands_view(v: Seq<Command>) -> Seq<CommandView> {
    v.map_values(|c: Command| c@)
}

pub open spec fn texts_view(v: Seq<String>) -> Seq<Seq<char>> {
    v.map_values(|t: String| t@)
}

/// `n` steps of the sequence counter.
proof fn seq_after_step(s: u16, n: nat)
    ensures
        next_seq_of(seq_after(s, n)) == seq_after(s, n + 1),
        seq_after(s, 0) == s,
{
}

impl Session {
    /// Handles a datagram that arrived from `from` at `now`.
    #[verifier::spinoff_prover]
    pub fn handle_datagram(
        &mut self,
        data: &[u8],
        from: Endpoint,
        now: u64,
        wall_ns: i64,
        out: &mut Vec<Action>,
    )
        requires
            session_wf(old(self)@),
        ensures
            final(self)@ == datagram_step(old(self)@, data@, from, now, wall_ns).0,
            actions_view(final(out)@) == actions_view(old(out)@) + datagram_step(
                old(self)@,
                data@,
                from,
                now,
                wall_ns,
            ).1,
            session_wf(final(self)@),
    {
        let ghost s0 = self@;
        let ghost out0 = actions_view(out@);
        let stranger = match self.peer {
            Some(p) => p != from,
            None => false,
        };
        if stranger {
            assert(actions_view(out@) =~= out0 + Seq::<ActionView>::empty());
            return;
        }
        self.last_rx = now;
        let n = data.len();
        let packet = match Packet::parse(data) {
            Ok(p) => p,
            Err(e) => {
                let m = e.message();
                push_action(out, Action::Emit(Event::ProtocolError(m)));
                assert(actions_view(out@) =~= out0 + seq![
                    ActionView::Emit(EventView::ProtocolError(error_message(e))),
                ]);
                return;
            },
        };
        let ghost s1 = self@;
        let ghost pv = packet@;
        if self.peer.is_none() {
            self.peer = Some(from);
            push_action(out, Action::Emit(Event::Connected { peer: from }));
            proof {
                own_requests_fit();
                reveal_strlit("");
            }
            let r1 = Command::new(cmd::REQUEST_ACTIVE_CONFIG, "", 0);
            assert(r1@.extra =~= Seq::<char>::empty());
            assert(r1@ == request(cmd::REQUEST_ACTIVE_CONFIG@));
            self.queue_command(r1, wall_ns);
            let r2 = Command::new(cmd::REQUEST_CONFIGURATIONS, "", 0);
            assert(r2@.extra =~= Seq::<char>::empty());
            assert(r2@ == request(cmd::REQUEST_CONFIGURATIONS@));
            self.queue_command(r2, wall_ns);
            let r3 = Command::new(cmd::REQUEST_OP_MODE_LIST, "", 0);
            assert(r3@.extra =~= Seq::<char>::empty());
            assert(r3@ == request(cmd::REQUEST_OP_MODE_LIST@));
            self.queue_command(r3, wall_ns);
            assert(self@.pending =~= connect(s1, from, wall_ns).pending);
            assert(self@ == connect(s1, from, wall_ns));
        }
        let ghost s2 = self@;
        let ghost out2 = actions_view(out@);
        match packet {
            Packet::Heartbeat(hb) => {
                self.update_robot_state(hb.robot_state, out);
            },
            Packet::Telemetry(t) => {
                self.update_robot_state(t.robot_state, out);
                push_action(out, Action::Emit(Event::Telemetry(t)));
            },
            Packet::Command(c) => {
                proof {
                    parsed_command_fits(data@);
                }
                self.handle_command(c, from, wall_ns, out);
            },
            _ => {},
        }
        let ghost a3 = packet_step(s2, pv, from, wall_ns).1;
        assert(actions_view(out@) =~= out2 + a3);
        assert(actions_view(out@) =~= out0 + (out2.skip(out0.len() as int) + a3));
    }

    /// Sends a gamepad state to the peer, if one is known.
    pub fn transmit_gamepad(&mut self, gamepad: Gamepad, wall_ms: i64, out: &mut Vec<Action>)
        ensures
            final(self)@ == gamepad_step(old(self)@, gamepad, wall_ms).0,
            actions_view(final(out)@) == actions_view(old(out)@) + gamepad_step(
                old(self)@,
                gamepad,
                wall_ms,
            ).1,
    {
        let peer = match self.peer {
            None => {
                assert(actions_view(out@) =~= actions_view(old(out)@) + Seq::<ActionView>::empty());
                return;
            },
            Some(p) => p,
        };
        let q = self.next_seq();
        let g = stamp_gamepad(gamepad, q, wall_ms);
        let bytes = g.serialize();
        let ghost a = ActionView::Send { to: peer, bytes: bytes@ };
        push_action(out, Action::Send { to: peer, bytes });
        assert(actions_view(out@) =~= actions_view(old(out)@) + seq![a]);
    }

    /// A beat: discovery packets to every configured address while no peer
    /// is known, a heartbeat to the peer once one is.
    pub fn tick(&mut self, wall_ns: i64, wall_ms: i64, out: &mut Vec<Action>)
        ensures
            final(self)@ == tick_step(old(self)@, wall_ns, wall_ms).0,
            actions_view(final(out)@) == actions_view(old(out)@) + tick_step(
                old(self)@,
                wall_ns,
                wall_ms,
            ).1,
    {
        let ghost out0 = actions_view(out@);
        match self.peer {
            None => {
                let ghost addrs = self.cfg.peer_addrs@;
                let port = self.cfg.peer_port;
                let n = self.cfg.peer_addrs.len();
                let mut i: usize = 0;
                while i < n
                    invariant
                        n == addrs.len(),
                        addrs == self.cfg.peer_addrs@,
                        port == self.cfg.peer_port,
                        i <= n,
                        actions_view(out@) == out0 + discovery_sends(addrs.take(i as int), port),
                    decreases n - i,
                {
                    let discovery = PeerDiscovery::default().serialize();
                    push_action(
                        out,
                        Action::Send {
                            to: Endpoint { ip: self.cfg.peer_addrs[i], port },
                            bytes: discovery,
                        },
                    );
                    assert(discovery_sends(addrs.take(i + 1), port) =~= discovery_sends(
                        addrs.take(i as int),
                        port,
                    ).push(
                        ActionView::Send {
                            to: Endpoint { ip: addrs[i as int], port },
                            bytes: peer_discovery_bytes(default_peer_discovery()),
                        },
                    ));
                    i = i + 1;
                }
                assert(addrs.take(n as int) =~= addrs);
            },
            Some(peer) => {
                let q = self.next_seq();
                let hb = Heartbeat {
                    seq: q,
                    timestamp: wall_ns,
                    robot_state: RobotState::NotStarted,
                    t0: wall_ms,
                    t1: 0,
                    t2: 0,
                    timezone_id: "GMT".to_owned(),
                };
                proof {
                    reveal_strlit("GMT");
                    wire::utf8_len_bound(hb.timezone_id@);
                }
                assert(hb@ == heartbeat_of(q, wall_ns, wall_ms));
                let bytes = hb.serialize();
                push_action(out, Action::Send { to: peer, bytes });
                assert(actions_view(out@) =~= out0 + tick_step(old(self)@, wall_ns, wall_ms).1);
            },
        }
    }

    /// Sends every pending command that is due once more, gives up on those
    /// that have used up their attempts, and reports them dropped.
    pub fn retransmit_pending(&mut self, now: u64, out: &mut Vec<Action>)
        requires
            session_wf(old(self)@),
        ensures
            final(self)@ == retransmit_step(old(self)@, now).0,
            actions_view(final(out)@) == actions_view(old(out)@) + retransmit_step(
                old(self)@,
                now,
            ).1,
            session_wf(final(self)@),
    {
        let ghost s0 = self@;
        let ghost out0 = actions_view(out@);
        let peer = match self.peer {
            None => {
                assert(actions_view(out@) =~= out0 + Seq::<ActionView>::empty());
                return;
            },
            Some(p) => p,
        };
        let retry = self.cfg.command_retry_interval_ms;
        let max = self.cfg.command_max_attempts;
        let ghost ps = s0.pending;
        let mut kept: Vec<PendingCommand> = Vec::new();
        let mut to_send: Vec<Command> = Vec::new();
        let mut dropped: Vec<String> = Vec::new();
        let n = self.pending.len();
        let mut i: usize = 0;
        while i < n
            invariant
                n == self.pending@.len(),
                ps == pending_view(self.pending@),
                s0.pending == ps,
                session_wf(s0),
                i <= n,
                (pending_view(kept@), commands_view(to_send@), texts_view(dropped@)) == sweep(
                    ps.take(i as int),
                    now,
                    retry,
                    max,
                ),
                forall|j: int| 0 <= j < kept@.len() ==> command_fits(#[trigger] kept@[j]@.command),
                forall|j: int| 0 <= j < to_send@.len() ==> command_fits(#[trigger] to_send@[j]@),
            decreases n - i,
        {
            assert(ps.take(i + 1).drop_last() =~= ps.take(i as int));
            assert(ps.take(i + 1).last() == ps[i as int]);
            assert(ps[i as int] == self.pending@[i as int]@);
            assert(command_fits(ps[i as int].command));
            let ghost before = (pending_view(kept@), commands_view(to_send@), texts_view(dropped@));
            let p = &self.pending[i];
            let due = match p.last_sent {
                Some(t) => elapsed_ms(now, t) >= retry,
                None => true,
            };
            if !due {
                kept.push(
                    PendingCommand {
                        command: copy_command(&p.command),
                        last_sent: p.last_sent,
                        attempts: p.attempts,
                    },
                );
                assert(pending_view(kept@) =~= before.0.push(ps[i as int]));
                assert(kept@[kept@.len() - 1]@.command == ps[i as int].command);
            } else if p.attempts >= max {
                dropped.push(p.command.name.clone());
                assert(texts_view(dropped@) =~= before.2.push(ps[i as int].command.name));
            } else {
                kept.push(
                    PendingCommand {
                        command: copy_command(&p.command),
                        last_sent: Some(now),
                        attempts: p.attempts + 1,
                    },
                );
                to_send.push(copy_command(&p.command));
                assert(pending_view(kept@) =~= before.0.push(
                    PendingView {
                        last_sent: Some(now),
                        attempts: (ps[i as int].attempts + 1) as u32,
                        ..ps[i as int]
                    },
                ));
                assert(commands_view(to_send@) =~= before.1.push(ps[i as int].command));
                assert(kept@[kept@.len() - 1]@.command == ps[i as int].command);
                assert(to_send@[to_send@.len() - 1]@ == ps[i as int].command);
            }
            i = i + 1;
        }
        assert(ps.take(n as int) =~= ps);
        let ghost sw = sweep(ps, now, retry, max);
        self.pending = kept;
        let ghost seq0 = self.seq;
        let ghost sent = commands_view(to_send@);
        let k = to_send.len();
        let mut j: usize = 0;
        proof {
            seq_after_step(seq0, 0);
        }
        while j < k
            invariant
                k == to_send@.len(),
                sent == commands_view(to_send@),
                j <= k,
                self.seq == seq_after(seq0, j as nat),
                self.peer == Some(peer),
                pending_view(self.pending@) == sw.0,
                self.cfg@ == s0.cfg,
                self.robot_state == s0.robot_state,
                self.last_rx == s0.last_rx,
                self.last_beat == s0.last_beat,
                seen_view(self.seen@) == s0.seen,
                forall|x: int| 0 <= x < to_send@.len() ==> command_fits(#[trigger] to_send@[x]@),
                actions_view(out@) == out0 + resend_actions(sent.take(j as int), seq0, peer),
            decreases k - j,
        {
            assert(sent.take(j + 1).drop_last() =~= sent.take(j as int));
            assert(sent.take(j + 1).last() == sent[j as int]);
            let mut c = copy_command(&to_send[j]);
            proof {
                seq_after_step(seq0, j as nat);
            }
            c.seq = self.next_seq();
            assert(command_fits(to_send@[j as int]@));
            let bytes = c.serialize();
            push_action(out, Action::Send { to: peer, bytes });
            j = j + 1;
        }
        assert(sent.take(k as int) =~= sent);
        let ghost out1 = actions_view(out@);
        let ghost names = texts_view(dropped@);
        let d = dropped.len();
        let mut x: usize = 0;
        while x < d
            invariant
                d == dropped@.len(),
                names == texts_view(dropped@),
                x <= d,
                actions_view(out@) == out1 + drop_events(names.take(x as int)),
            decreases d - x,
        {
            let name = dropped[x].clone();
            push_action(out, Action::Emit(Event::CommandDropped { name }));
            assert(drop_events(names.take(x + 1)) =~= drop_events(names.take(x as int)).push(
                ActionView::Emit(EventView::CommandDropped { name: names[x as int] }),
            ));
            x = x + 1;
        }
        assert(names.take(d as int) =~= names);
        assert(actions_view(out@) =~= out0 + (resend_actions(sent, seq0, peer) + drop_events(
            names,
        )));
    }

    /// What happens as time passes, at `now`: forget a silent peer, beat
    /// when due, retransmit pending commands.
    pub fn poll(&mut self, now: u64, wall_ns: i64, wall_ms: i64, out: &mut Vec<Action>)
        requires
            session_wf(old(self)@),
        ensures
            final(self)@ == poll_step(old(self)@, now, wall_ns, wall_ms).0,
            actions_view(final(out)@) == actions_view(old(out)@) + poll_step(
                old(self)@,
                now,
                wall_ns,
                wall_ms,
            ).1,
            session_wf(final(self)@),
    {
        let ghost out0 = actions_view(out@);
        if self.peer.is_some() && elapsed_ms(now, self.last_rx) > self.cfg.disconnect_timeout_ms {
            self.peer = None;
            self.robot_state = None;
            push_action(out, Action::Emit(Event::Disconnected));
        }
        let ghost out1 = actions_view(out@);
        let due = match self.last_beat {
            None => true,
            Some(t) => elapsed_ms(now, t) >= self.cfg.heartbeat_interval_ms,
        };
        if due {
            self.last_beat = Some(now);
            self.tick(wall_ns, wall_ms, out);
        }
        let ghost out2 = actions_view(out@);
        self.retransmit_pending(now, out);
        assert(out1 =~= out0 + out1.skip(out0.len() as int));
        assert(out2 =~= out1 + out2.skip(out1.len() as int));
        assert(actions_view(out@) =~= out0 + out1.skip(out0.len() as int) + out2.skip(
            out1.len() as int,
        ) + actions_view(out@).skip(out2.len() as int));
    }
}

} // verus!
