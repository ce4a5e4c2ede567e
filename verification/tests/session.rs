//! The session driven against a simulated RC: what the client sends, what
//! it reports, and what it does as time passes.

use robocol::client::{
    Action, ClientConfig, Endpoint, Event, Ip, Session, CONTROL_HUB_ADDR, RC_PHONE_ADDR,
};
use robocol::cmd::{self, parse_opmode_list, OpModeMeta};
use robocol::packets::{Command, Gamepad, Heartbeat, Packet, PeerDiscovery, Telemetry, BATTERY_LEVEL_KEY};
use robocol::packets::BatteryLevel;
use robocol::types::RobotState;
use robocol::{DEFAULT_PEER_ADDRS, ROBOCOL_PORT};

const RC: Endpoint = Endpoint { ip: Ip::V4(0x7F00_0001), port: 40000 };
const STRANGER: Endpoint = Endpoint { ip: Ip::V4(0x7F00_0002), port: 40000 };

struct Harness {
    session: Session,
    now: u64,
    wall_ns: i64,
    sent: Vec<(Endpoint, Packet)>,
    events: Vec<Event>,
}

impl Harness {
    fn new() -> Harness {
        let config = ClientConfig {
            bind_port: 0,
            peer_addrs: vec![Ip::V4(0x7F00_0001)],
            peer_port: 40000,
            ..Default::default()
        };
        Harness {
            session: Session::new(config, 0),
            now: 0,
            wall_ns: 1_000_000,
            sent: Vec::new(),
            events: Vec::new(),
        }
    }

    fn perform(&mut self, actions: Vec<Action>) {
        for action in actions {
            match action {
                Action::Send { to, bytes } => {
                    self.sent.push((to, Packet::parse(&bytes).expect("client sent a valid packet")))
                }
                Action::Emit(event) => self.events.push(event),
                Action::EmitOpModeList { extra } => {
                    self.events.push(Event::OpModeList(parse_opmode_list(None, &extra)))
                }
            }
        }
    }

    fn advance(&mut self, ms: u64) {
        self.now += ms;
        self.wall_ns += (ms as i64) * 1_000_000;
        let mut out = Vec::new();
        self.session.poll(self.now, self.wall_ns, self.wall_ns / 1_000_000, &mut out);
        self.perform(out);
    }

    fn deliver_from(&mut self, from: Endpoint, bytes: &[u8]) {
        let mut out = Vec::new();
        self.session.handle_datagram(bytes, from, self.now, self.wall_ns, &mut out);
        self.perform(out);
    }

    fn deliver(&mut self, bytes: &[u8]) {
        self.deliver_from(RC, bytes);
    }

    fn send_command(&mut self, name: &str, extra: &str) {
        self.session.queue_command(Command::new(name, extra, 0), self.wall_ns);
    }

    fn take_sent(&mut self) -> Vec<(Endpoint, Packet)> {
        std::mem::take(&mut self.sent)
    }

    fn sent_commands(&mut self) -> Vec<Command> {
        self.take_sent()
            .into_iter()
            .filter_map(|(_, p)| match p {
                Packet::Command(c) => Some(c),
                _ => None,
            })
            .collect()
    }

    /// Discovery, the RC's answer, and acknowledgement of the three
    /// requests the client makes on connecting.
    fn connect() -> Harness {
        let mut h = Harness::new();
        h.advance(0);
        let sent = h.take_sent();
        assert!(matches!(sent.as_slice(), [(RC, Packet::PeerDiscovery(_))]));
        h.deliver(&PeerDiscovery::default().serialize());
        assert!(matches!(h.events.as_slice(), [Event::Connected { peer: RC }]));
        h.events.clear();
        h.advance(1);
        let requests = h.sent_commands();
        let names: Vec<&str> = requests.iter().map(|c| c.name.as_str()).collect();
        assert_eq!(
            names,
            vec![cmd::REQUEST_ACTIVE_CONFIG, cmd::REQUEST_CONFIGURATIONS, cmd::REQUEST_OP_MODE_LIST]
        );
        for c in &requests {
            h.deliver(&Command::ack_of(c).serialize());
        }
        assert!(h.session.pending.is_empty());
        h.take_sent();
        h
    }
}

#[test]
fn default_config_matches_the_default_addresses() {
    let config = ClientConfig::default();
    let parse = |a: &str| -> u32 {
        a.split('.').fold(0u32, |acc, part| (acc << 8) | part.parse::<u32>().unwrap())
    };
    assert_eq!(CONTROL_HUB_ADDR, parse(DEFAULT_PEER_ADDRS[0]));
    assert_eq!(RC_PHONE_ADDR, parse(DEFAULT_PEER_ADDRS[1]));
    assert_eq!(config.peer_addrs, vec![Ip::V4(CONTROL_HUB_ADDR), Ip::V4(RC_PHONE_ADDR)]);
    assert_eq!(config.peer_port, ROBOCOL_PORT);
    assert_eq!(config.heartbeat_interval_ms, 200);
    assert_eq!(config.disconnect_timeout_ms, 3000);
    assert_eq!(config.command_retry_interval_ms, 500);
    assert_eq!(config.command_max_attempts, 10);
}

#[test]
fn full_handshake_and_traffic() {
    let mut h = Harness::connect();

    let notify = Command::new(
        cmd::NOTIFY_OP_MODE_LIST,
        r#"[{"name":"Duo","flavor":"TELEOP","group":"drive"}]"#,
        777,
    );
    h.deliver(&notify.serialize());
    // The acknowledgement goes back to the RC.
    let sent = h.sent_commands();
    assert_eq!(sent.len(), 1);
    assert!(sent[0].acknowledged);
    assert_eq!(sent[0].name, cmd::NOTIFY_OP_MODE_LIST);
    assert_eq!(sent[0].timestamp, 777);
    // The application reads the object form; here the payload is handed
    // over verbatim.
    let objects = vec![OpModeMeta { name: "Duo".into(), flavor: "TELEOP".into(), group: "drive".into() }];
    match h.events.as_slice() {
        [Event::OpModeList(_)] => {}
        other => panic!("unexpected events {other:?}"),
    }
    assert_eq!(parse_opmode_list(Some(objects.clone()), &notify.extra), objects);
    h.events.clear();

    let mut telemetry = Telemetry {
        robot_state: RobotState::Running,
        tag: "TELEMETRY_DATA".to_string(),
        ..Default::default()
    };
    telemetry.insert_number("flywheel_rpm".into(), 2810.0f32.to_bits());
    h.deliver(&telemetry.serialize());
    assert_eq!(h.events.len(), 2);
    assert_eq!(h.events[0], Event::RobotState(RobotState::Running));
    match &h.events[1] {
        Event::Telemetry(t) => {
            assert_eq!(t.numbers, vec![("flywheel_rpm".to_string(), 2810.0f32.to_bits())]);
        }
        other => panic!("unexpected event {other:?}"),
    }
    h.events.clear();

    h.send_command(cmd::INIT_OP_MODE, "Duo");
    h.advance(1);
    let sent = h.sent_commands();
    assert_eq!(sent.len(), 1);
    assert_eq!(sent[0].name, cmd::INIT_OP_MODE);
    assert_eq!(sent[0].extra, "Duo");
    assert!(!sent[0].acknowledged);
}

#[test]
fn battery_voltage_arrives_over_telemetry() {
    let mut h = Harness::connect();
    let mut telemetry = Telemetry {
        robot_state: RobotState::Running,
        tag: "".to_string(),
        ..Default::default()
    };
    telemetry.strings.push((BATTERY_LEVEL_KEY.to_string(), "12.06".to_string()));
    h.deliver(&telemetry.serialize());
    let received = h
        .events
        .iter()
        .find_map(|e| match e {
            Event::Telemetry(t) => Some(t.clone()),
            _ => None,
        })
        .unwrap();
    let volts = match received.battery_level() {
        Some(BatteryLevel::Reported(raw)) => raw.parse::<f32>().unwrap_or(0.0),
        other => panic!("unexpected battery level {other:?}"),
    };
    assert_eq!(volts, 12.06);
}

fn config_json(location: &str, name: &str, resource_id: i64) -> String {
    format!(
        r#"{{"isDirty":false,"location":"{location}","name":"{name}","resourceId":{resource_id}}}"#
    )
}

#[test]
fn activate_configuration_round_trips_meta_and_triggers_restart() {
    let mut h = Harness::connect();
    let meta = config_json("RESOURCE", "jimmy", 2132017159);
    h.send_command(cmd::ACTIVATE_CONFIGURATION, &meta);
    h.advance(1);
    let sent = h.sent_commands();
    assert_eq!(sent.len(), 1);
    let activate = sent[0].clone();
    assert_eq!(activate.name, cmd::ACTIVATE_CONFIGURATION);
    assert_eq!(activate.extra, meta);

    h.deliver(&Command::ack_of(&activate).serialize());
    h.advance(1);
    let sent = h.sent_commands();
    assert_eq!(sent.len(), 1);
    assert_eq!(sent[0].name, cmd::RESTART_ROBOT);
    assert!(!sent[0].acknowledged);

    let notify = Command::new(cmd::NOTIFY_ACTIVE_CONFIGURATION, &meta, 42);
    h.deliver(&notify.serialize());
    assert_eq!(h.events, vec![Event::ActiveConfiguration(meta)]);
}

#[test]
fn save_configuration_does_not_restart_robot() {
    let mut h = Harness::connect();
    let meta = config_json("LOCAL_STORAGE", "practice_bot", 0);
    let payload = format!("{};{}", meta, "<Robot/>");
    h.send_command(cmd::SAVE_CONFIGURATION, &payload);
    h.advance(1);
    let sent = h.sent_commands();
    assert_eq!(sent.len(), 1);
    assert_eq!(sent[0].name, cmd::SAVE_CONFIGURATION);
    h.deliver(&Command::ack_of(&sent[0]).serialize());
    for _ in 0..6 {
        h.advance(150);
        for c in h.sent_commands() {
            assert_ne!(c.name, cmd::RESTART_ROBOT, "save must not restart the robot");
        }
    }
    assert!(h.session.pending.is_empty());

    h.send_command(cmd::ACTIVATE_CONFIGURATION, &meta);
    h.advance(1);
    let sent = h.sent_commands();
    h.deliver(&Command::ack_of(&sent[0]).serialize());
    h.advance(1);
    let sent = h.sent_commands();
    assert_eq!(sent[0].name, cmd::RESTART_ROBOT);
}

#[test]
fn duplicate_commands_are_acknowledged_but_reported_once() {
    let mut h = Harness::connect();
    let c = Command::new(cmd::NOTIFY_RUN_OP_MODE, "Duo", 9);
    h.deliver(&c.serialize());
    h.deliver(&c.serialize());
    assert_eq!(h.events, vec![Event::OpModeRunning("Duo".into())]);
    let acks = h.sent_commands();
    assert_eq!(acks.len(), 2);
    assert!(acks.iter().all(|a| a.acknowledged && a.timestamp == 9));
    // The same name with another timestamp is a new command.
    h.deliver(&Command::new(cmd::NOTIFY_RUN_OP_MODE, "Duo", 10).serialize());
    assert_eq!(h.events.len(), 2);
}

#[test]
fn the_seen_window_forgets_the_oldest() {
    let mut h = Harness::connect();
    for ts in 0..40 {
        h.deliver(&Command::new("CMD_CUSTOM", "x", 100 + ts).serialize());
    }
    assert_eq!(h.session.seen.len(), 32);
    assert_eq!(h.session.seen[0].1, 108);
    assert_eq!(h.events.len(), 40);
    assert_eq!(
        h.events[0],
        Event::Command { name: "CMD_CUSTOM".into(), extra: "x".into() }
    );
}

#[test]
fn strangers_are_ignored() {
    let mut h = Harness::connect();
    h.deliver_from(STRANGER, &Heartbeat::default().serialize());
    assert!(h.events.is_empty());
    assert!(h.sent.is_empty());
}

#[test]
fn garbage_is_a_protocol_error() {
    let mut h = Harness::connect();
    h.deliver(&[42, 0, 0]);
    assert_eq!(h.events, vec![Event::ProtocolError("unknown packet type 42".into())]);
}

#[test]
fn commands_are_retried_then_dropped() {
    let mut h = Harness::connect();
    let alive = Heartbeat::default().serialize();
    h.send_command("CMD_X", "");
    h.advance(0);
    assert_eq!(h.sent_commands().len(), 1);
    // Not yet due again.
    h.advance(499);
    assert_eq!(h.sent_commands().len(), 0);
    for _ in 0..9 {
        h.deliver(&alive);
        h.advance(500);
        assert_eq!(h.sent_commands().len(), 1);
    }
    h.deliver(&alive);
    h.advance(500);
    assert_eq!(h.sent_commands().len(), 0);
    assert!(h.events.contains(&Event::CommandDropped { name: "CMD_X".into() }));
    assert!(h.session.pending.is_empty());
}

#[test]
fn heartbeats_go_to_the_peer_and_silence_disconnects() {
    let mut h = Harness::connect();
    h.advance(200);
    let sent = h.take_sent();
    match sent.as_slice() {
        [(RC, Packet::Heartbeat(hb))] => {
            assert_eq!(hb.robot_state, RobotState::NotStarted);
            assert_eq!(hb.timezone_id, "GMT");
        }
        other => panic!("unexpected sends {other:?}"),
    }
    h.advance(3001);
    assert_eq!(h.events, vec![Event::Disconnected]);
    assert_eq!(h.session.peer, None);
    // Discovery resumes.
    let sent = h.take_sent();
    assert!(matches!(sent.as_slice(), [(RC, Packet::PeerDiscovery(_))]));
}

#[test]
fn gamepads_go_only_to_a_known_peer() {
    let mut fresh = Harness::new();
    let mut out = Vec::new();
    fresh.session.transmit_gamepad(Gamepad::default(), 5, &mut out);
    assert!(out.is_empty());

    let mut h = Harness::connect();
    let before = h.session.seq;
    let mut out = Vec::new();
    h.session.transmit_gamepad(Gamepad::default(), 5, &mut out);
    h.perform(out);
    match h.take_sent().as_slice() {
        [(RC, Packet::Gamepad(g))] => {
            assert_eq!(g.seq, before.wrapping_add(1));
            assert_eq!(g.timestamp, 5);
        }
        other => panic!("unexpected sends {other:?}"),
    }
}

#[test]
fn sequence_numbers_wrap() {
    let mut h = Harness::connect();
    h.session.seq = u16::MAX;
    assert_eq!(h.session.next_seq(), 0);
    assert_eq!(h.session.next_seq(), 1);
}
