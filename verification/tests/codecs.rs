use robocol::base64::{decode, encode};
use robocol::packets::{
    BatteryLevel, Command, Gamepad, Heartbeat, KeepAlive, Packet, PeerDiscovery, PeerType,
    Telemetry, BATTERY_LEVEL_KEY, NO_VOLTAGE_SENSOR, UID_GAMEPAD,
};
use robocol::types::{GamepadType, RobotState};
use robocol::wire::{self, Error, HEADER_LEN};

fn f32_bits(v: f32) -> u32 {
    v.to_bits()
}

/// What the application layer reports as the battery voltage.
fn battery_voltage(t: &Telemetry) -> Option<f32> {
    match t.battery_level()? {
        BatteryLevel::NoSensor => Some(0.0),
        BatteryLevel::Reported(raw) => Some(raw.parse().unwrap_or(0.0)),
    }
}

#[test]
fn round_trips() {
    let cases: &[&[u8]] = &[
        b"",
        b"f",
        b"fo",
        b"foo",
        b"foob",
        b"fooba",
        b"foobar",
        &[0, 1, 2, 3, 4, 5, 255, 254],
    ];
    for data in cases {
        assert_eq!(decode(&encode(data)).unwrap(), *data);
    }
}

#[test]
fn matches_known_vectors() {
    assert_eq!(encode(b"Man"), "TWFu");
    assert_eq!(encode(b"Ma"), "TWE=");
    assert_eq!(encode(b"M"), "TQ==");
    assert_eq!(decode("TWFu").unwrap(), b"Man");
}

#[test]
fn decodes_wrapped_output() {
    let data: Vec<u8> = (0..=255u8).cycle().take(4096).collect();
    let mut wrapped = String::new();
    for (i, c) in encode(&data).chars().enumerate() {
        if i > 0 && i % 76 == 0 {
            wrapped.push('\n');
        }
        wrapped.push(c);
    }
    assert!(wrapped.contains('\n'));
    assert_eq!(decode(&wrapped).unwrap(), data);
}

#[test]
fn base64_rejects_garbage_and_bad_padding() {
    assert_eq!(decode("TW?u"), None);
    assert_eq!(decode("TWF"), Some(b"Ma".to_vec()));
    assert_eq!(decode("TW=F"), Some(b"M".to_vec()));
    assert_eq!(decode("T==="), None);
    assert_eq!(decode(""), Some(Vec::new()));
    assert_eq!(decode("TW\r\nFu"), Some(b"Man".to_vec()));
}

#[test]
fn command_round_trip() {
    let cmd = Command::new("CMD_INIT_OP_MODE", "Duo (TeleOp)", 1234567890);
    assert_eq!(Command::parse(&cmd.serialize()).unwrap(), cmd);
}

#[test]
fn ack_round_trip() {
    let cmd = Command::new("CMD_REQUEST_OP_MODE_LIST", "", 42);
    let ack = Command::ack_of(&cmd);
    let parsed = Command::parse(&ack.serialize()).unwrap();
    assert!(parsed.acknowledged);
    assert_eq!(parsed.name, cmd.name);
    assert_eq!(parsed.timestamp, cmd.timestamp);
    assert!(parsed.extra.is_empty());
}

#[test]
fn command_bytes_are_exact() {
    let cmd = Command { seq: 0x0102, ..Command::new("AB", "x", 7) };
    let bytes = cmd.serialize();
    assert_eq!(
        bytes,
        vec![4, 0, 16, 1, 2, 0, 0, 0, 0, 0, 0, 0, 7, 0, 0, 2, b'A', b'B', 0, 1, b'x']
    );
    // An acknowledgement carries no extra at all.
    let ack = Command::ack_of(&cmd).serialize();
    assert_eq!(ack, vec![4, 0, 13, 1, 2, 0, 0, 0, 0, 0, 0, 0, 7, 1, 0, 2, b'A', b'B']);
}

#[test]
fn heartbeat_round_trip() {
    let hb = Heartbeat {
        seq: 7,
        timestamp: 1_700_000_000_000_000_000,
        robot_state: RobotState::Running,
        t0: 123,
        t1: 456,
        t2: 789,
        timezone_id: "GMT".to_string(),
    };
    let bytes = hb.serialize();
    assert_eq!(bytes.len(), HEADER_LEN + 34 + 3);
    assert_eq!(Heartbeat::parse(&bytes).unwrap(), hb);
}

#[test]
fn heartbeat_default_is_gmt_unknown() {
    let hb = Heartbeat::default();
    assert_eq!(hb.timezone_id, "GMT");
    assert_eq!(hb.robot_state, RobotState::Unknown);
    assert_eq!(hb.robot_state.to_byte(), 0xFF);
}

#[test]
fn keep_alive_round_trip() {
    let ka = KeepAlive { seq: 5, id: 9 };
    assert_eq!(KeepAlive::parse(&ka.serialize()).unwrap(), ka);
}

#[test]
fn golden_bytes() {
    let bytes = PeerDiscovery::default().serialize();
    assert_eq!(bytes, vec![3, 0, 10, 124, 1, 0, 0, 7, 0x07, 0xEA, 11, 2, 0]);
}

#[test]
fn peer_discovery_round_trip() {
    let pd = PeerDiscovery {
        seq: 42,
        ..Default::default()
    };
    assert_eq!(PeerDiscovery::parse(&pd.serialize()).unwrap(), pd);
}

#[test]
fn peer_type_bytes() {
    assert_eq!(PeerType::from_byte(1), PeerType::Peer);
    assert_eq!(PeerType::from_byte(PeerType::GroupOwner.to_byte()), PeerType::GroupOwner);
    assert_eq!(PeerType::from_byte(200), PeerType::Unset);
}

#[test]
fn gamepad_round_trip() {
    let gp = Gamepad {
        seq: 99,
        user: 2,
        timestamp: 1_700_000_000_000,
        left_stick_x: f32_bits(-0.5),
        right_trigger: f32_bits(1.0),
        a: true,
        dpad_up: true,
        left_bumper: true,
        touchpad_finger_1: true,
        ..Default::default()
    };
    let bytes = gp.serialize();
    assert_eq!(bytes.len(), Gamepad::TOTAL_LEN);
    assert_eq!(Gamepad::parse(&bytes).unwrap(), gp);
}

#[test]
fn header_and_user_offsets() {
    let gp = Gamepad {
        user: 2,
        ..Default::default()
    };
    let bytes = gp.serialize();
    assert_eq!(bytes[0], UID_GAMEPAD);
    assert_eq!(u16::from_be_bytes([bytes[1], bytes[2]]), 60);
    assert_eq!(bytes[46], 2);
}

#[test]
fn buttons_bitfield_matches_reference() {
    let gp = Gamepad {
        right_bumper: true,
        a: true,
        touchpad_finger_1: true,
        ..Default::default()
    };
    assert_eq!(gp.buttons_bitfield(), (1 << 17) | (1 << 8) | 1);
}

#[test]
fn gamepad_type_is_written_twice_and_read_from_the_second() {
    let gp = Gamepad {
        gamepad_type: GamepadType::SonyPs4,
        ..Default::default()
    };
    let bytes = gp.serialize();
    assert_eq!(bytes[47], 3);
    assert_eq!(bytes[48], 3);
    assert_eq!(Gamepad::parse(&bytes).unwrap().gamepad_type, GamepadType::SonyPs4);
}

#[test]
fn telemetry_round_trip() {
    let mut t = Telemetry {
        seq: 3,
        timestamp: 987654321,
        is_sorted: true,
        robot_state: RobotState::Init,
        tag: "TELEMETRY_DATA".to_string(),
        ..Default::default()
    };
    t.strings.push(("Alliance".into(), "RED".into()));
    t.strings.push(("State".into(), "DRIVING".into()));
    t.insert_number("flywheel_rpm".into(), f32_bits(2812.5));
    t.insert_number("heading_deg".into(), f32_bits(-42.0));
    assert_eq!(Telemetry::parse(&t.serialize()).unwrap(), t);
}

#[test]
fn empty_round_trip() {
    let t = Telemetry::default();
    assert_eq!(Telemetry::parse(&t.serialize()).unwrap(), t);
}

#[test]
fn telemetry_numbers_stay_ordered_by_key() {
    let mut t = Telemetry::default();
    t.insert_number("b".into(), 2);
    t.insert_number("a".into(), 1);
    t.insert_number("c".into(), 3);
    t.insert_number("b".into(), 20);
    let keys: Vec<&str> = t.numbers.iter().map(|(k, _)| k.as_str()).collect();
    assert_eq!(keys, vec!["a", "b", "c"]);
    assert_eq!(t.numbers[1].1, 20);
}

#[test]
fn telemetry_push_line_has_an_empty_key() {
    let mut t = Telemetry::default();
    t.push_line("FPS : 10.7");
    assert_eq!(t.strings, vec![(String::new(), "FPS : 10.7".to_string())]);
}

#[test]
fn battery_voltage_reads_real_capture_value() {
    let mut t = Telemetry::default();
    t.strings.push((BATTERY_LEVEL_KEY.into(), "12.06".into()));
    assert_eq!(battery_voltage(&t), Some(12.06));
    assert_eq!(t.battery_level(), Some(BatteryLevel::Reported("12.06".into())));
}

#[test]
fn battery_voltage_sentinel_is_zero() {
    let mut t = Telemetry::default();
    t.strings.push((BATTERY_LEVEL_KEY.into(), NO_VOLTAGE_SENSOR.into()));
    assert_eq!(battery_voltage(&t), Some(0.0));
    assert_eq!(t.battery_level(), Some(BatteryLevel::NoSensor));
}

#[test]
fn battery_voltage_absent_is_none() {
    assert_eq!(battery_voltage(&Telemetry::default()), None);
    assert_eq!(Telemetry::default().battery_level(), None);
}

#[test]
fn packet_parse_dispatches_on_the_first_byte() {
    let ka = KeepAlive { seq: 1, id: 2 };
    assert_eq!(Packet::parse(&ka.serialize()), Ok(Packet::KeepAlive(ka)));
    let cmd = Command::new("CMD_SCAN", "", 5);
    assert_eq!(Packet::parse(&cmd.serialize()), Ok(Packet::Command(cmd)));
    assert_eq!(Packet::parse(&[]), Err(Error::Truncated));
    assert_eq!(Packet::parse(&[9, 0, 0]), Err(Error::UnknownPacketType(9)));
    assert_eq!(Packet::parse(&[1, 0, 0]), Err(Error::Truncated));
}

#[test]
fn truncated_and_bad_utf8_are_errors() {
    let bytes = Command::new("CMD_SCAN", "", 5).serialize();
    assert_eq!(Command::parse(&bytes[..bytes.len() - 1]), Err(Error::Truncated));
    let mut bad = Command::new("ab", "", 5).serialize();
    bad[16] = 0xFF;
    assert_eq!(Command::parse(&bad), Err(Error::BadUtf8));
}

#[test]
fn error_messages() {
    assert_eq!(Error::Truncated.message(), "packet truncated");
    assert_eq!(Error::UnknownPacketType(200).message(), "unknown packet type 200");
    assert_eq!(Error::UnknownPacketType(7).message(), "unknown packet type 7");
    assert_eq!(Error::UnknownPacketType(42).message(), "unknown packet type 42");
    assert_eq!(Error::BadUtf8.message(), "invalid UTF-8 in packet string");
}

#[test]
fn wire_helpers_round_trip() {
    let mut buf = wire::with_header(4, 20, 0xBEEF);
    assert_eq!(&buf[..5], &[4, 0, 20, 0xBE, 0xEF]);
    wire::put_i64(&mut buf, 5, -2);
    assert_eq!(wire::get_i64(&buf, 5), Ok(-2));
    wire::put_i32(&mut buf, 13, -7);
    assert_eq!(wire::get_i32(&buf, 13), Ok(-7));
    let end = wire::put_str_u8(&mut buf, 17, b"hi");
    assert_eq!(end, 20);
    assert_eq!(wire::get_str_u8(&buf, 17), Ok(("hi".to_string(), 20)));
    assert_eq!(wire::get_u16(&buf, 24), Err(Error::Truncated));
}

#[test]
fn robot_state_bytes() {
    assert_eq!(RobotState::from_byte(0xFF), RobotState::Unknown);
    assert_eq!(RobotState::from_byte(2), RobotState::Running);
    assert_eq!(RobotState::from_byte(9), RobotState::Unknown);
    assert_eq!(RobotState::EmergencyStop.to_byte(), 4);
}
