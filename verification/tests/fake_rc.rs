use robocol::client::{Endpoint, Ip};
use robocol::cmd::ConfigMeta;
use robocol::fake_rc::{
    draw_rect_outline, fill_rect, frame_jpeg, put_pixel, FakeRc, RcAction, RcEvent, RcExtra, RcReadings, OPMODES,
};
use robocol::packets::{Command, Gamepad, Packet};
use robocol::types::RobotState;

const DS: Endpoint = Endpoint { ip: Ip::V4(0x7f00_0001), port: 50000 };
const OTHER: Endpoint = Endpoint { ip: Ip::V4(0x7f00_0001), port: 50001 };

fn connected() -> FakeRc {
    let mut rc = FakeRc::new();
    let out = rc.step(RcEvent::Discovery { from: DS });
    assert_eq!(out.len(), 1);
    assert!(matches!(&out[0], RcAction::Reply { to, packet: Packet::PeerDiscovery(_) } if *to == DS));
    rc
}

fn command(rc: &mut FakeRc, name: &str, extra: &str, now_ms: u64, meta: Option<ConfigMeta>) -> Vec<RcAction> {
    let mut c = Command::new(name, extra, 42);
    c.seq = 9;
    let save_meta = if name == "CMD_SAVE_CONFIGURATION" { meta.clone() } else { None };
    rc.step(RcEvent::Command { from: DS, command: c, now_ms, meta, save_meta })
}

fn notified(a: &RcAction) -> (String, String) {
    match a {
        RcAction::Notify { name, extra: RcExtra::Text(t), .. } => (name.clone(), t.clone()),
        RcAction::Notify { name, .. } => (name.clone(), String::new()),
        _ => panic!("not a notification"),
    }
}

#[test]
fn serves_the_opmode_list_after_an_ack() {
    let mut rc = connected();
    let out = command(&mut rc, "CMD_REQUEST_OP_MODE_LIST", "", 0, None);
    assert_eq!(out.len(), 2);
    match &out[0] {
        RcAction::Reply { to, packet: Packet::Command(ack) } => {
            assert_eq!(*to, DS);
            assert!(ack.acknowledged);
            assert_eq!(ack.seq, 9);
            assert_eq!(ack.name, "CMD_REQUEST_OP_MODE_LIST");
        }
        _ => panic!("expected the ack first"),
    }
    assert_eq!(notified(&out[1]), ("CMD_NOTIFY_OP_MODE_LIST".to_string(), OPMODES.to_string()));
    assert!(matches!(&out[1], RcAction::Notify { seq: 1, .. }));
}

#[test]
fn strangers_are_not_served() {
    let mut rc = connected();
    let c = Command::new("CMD_REQUEST_OP_MODE_LIST", "", 1);
    let out = rc.step(RcEvent::Command { from: OTHER, command: c, now_ms: 0, meta: None, save_meta: None });
    assert!(out.is_empty());
}

#[test]
fn init_turns_the_webcam_on_and_x_toggles_the_alliance() {
    let mut rc = connected();
    let out = command(&mut rc, "CMD_INIT_OP_MODE", "Duo (TeleOp)", 0, None);
    assert_eq!(out.len(), 3);
    assert_eq!(notified(&out[1]), ("CMD_STREAM_CHANGE".to_string(), "true".to_string()));
    assert_eq!(notified(&out[2]), ("CMD_NOTIFY_INIT_OP_MODE".to_string(), "Duo (TeleOp)".to_string()));
    assert_eq!(rc.state, RobotState::Init);
    let mut g: Gamepad = Gamepad::default();
    g.user = 1;
    g.x = true;
    rc.step(RcEvent::Gamepad { gamepad: g });
    rc.step(RcEvent::Gamepad { gamepad: g });
    assert!(rc.blue);
    let readings = RcReadings {
        timestamp: 5,
        battery: "12.80".to_string(),
        flywheel_rpm: 0,
        target_rpm: 0,
        heading_deg: 0,
        drive_power: 0,
        servo_line: String::new(),
        field_lines: Vec::new(),
    };
    let t = rc.telemetry(&readings);
    let lines: Vec<&str> = t.strings.iter().map(|(_, v)| v.as_str()).collect();
    assert_eq!(lines[0], "12.80");
    assert_eq!(t.strings[1].0, "$System$i2c");
    assert_eq!(lines[2], "00 OpMode : Duo (TeleOp)");
    assert_eq!(lines[3], "01 Alliance : BLUE");
    assert_eq!(lines[4], "02 Start Position : LEFT");
    assert!(t.numbers.is_empty());
}

#[test]
fn running_telemetry_carries_sorted_numbers() {
    let mut rc = connected();
    command(&mut rc, "CMD_RUN_OP_MODE", "Solo (TeleOp)", 0, None);
    let readings = RcReadings {
        timestamp: 5,
        battery: "12.80".to_string(),
        flywheel_rpm: 1,
        target_rpm: 2,
        heading_deg: 3,
        drive_power: 4,
        servo_line: "Servo Bus Current : 1.60 A".to_string(),
        field_lines: vec!["#f zone Launch pts=0,0;48,0;48,24;0,24".to_string()],
    };
    let t = rc.telemetry(&readings);
    let keys: Vec<&str> = t.numbers.iter().map(|(k, _)| k.as_str()).collect();
    assert_eq!(keys, ["drive_power", "flywheel_rpm", "heading_deg", "left_stick_y", "target_rpm"]);
    assert_eq!(t.strings[2].1, "State : DRIVING");
    assert_eq!(t.strings[3].1, "Servo Bus Current : 1.60 A");
    assert_eq!(t.strings[4].1, "#f zone Launch pts=0,0;48,0;48,24;0,24");
}

#[test]
fn the_crash_test_opmode_dies_after_two_seconds() {
    let mut rc = connected();
    command(&mut rc, "CMD_RUN_OP_MODE", "Crash Test", 1000, None);
    assert!(rc.step(RcEvent::Tick { now_ms: 2999 }).is_empty());
    let out = rc.step(RcEvent::Tick { now_ms: 3000 });
    assert_eq!(out.len(), 2);
    assert_eq!(notified(&out[0]).0, "CMD_SHOW_STACKTRACE");
    assert_eq!(notified(&out[1]), ("CMD_NOTIFY_INIT_OP_MODE".to_string(), "$Stop$Robot$".to_string()));
    assert_eq!(rc.state, RobotState::Stopped);
}

#[test]
fn saving_assigns_an_id_and_serves_the_xml_back() {
    let mut rc = connected();
    let meta = ConfigMeta { is_dirty: false, location: "LOCAL_STORAGE".into(), name: "new_bot".into(), resource_id: 0 };
    let out = command(&mut rc, "CMD_SAVE_CONFIGURATION", "{\"name\":\"new_bot\"};<Robot/>", 0, Some(meta.clone()));
    match &out[1] {
        RcAction::Notify { name, extra: RcExtra::Meta(m), .. } => {
            assert_eq!(name, "CMD_NOTIFY_ACTIVE_CONFIGURATION");
            assert_eq!(m.resource_id, 2);
        }
        _ => panic!("expected the active configuration"),
    }
    assert_eq!(rc.configs.len(), 3);
    let out = command(&mut rc, "CMD_REQUEST_PARTICULAR_CONFIGURATION", "", 0, Some(meta));
    assert_eq!(notified(&out[1]).1, "<Robot/>");
}

#[test]
fn activation_waits_for_the_restart() {
    let mut rc = connected();
    let meta = ConfigMeta { is_dirty: false, location: "LOCAL_STORAGE".into(), name: "practice_bot".into(), resource_id: 1 };
    let out = command(&mut rc, "CMD_ACTIVATE_CONFIGURATION", "", 0, Some(meta));
    assert_eq!(out.len(), 1);
    assert_eq!(rc.active_config.name, "<No Config Set>");
    let out = command(&mut rc, "CMD_RESTART_ROBOT", "", 0, None);
    assert_eq!(out.len(), 2);
    assert_eq!(rc.active_config.name, "practice_bot");
    assert_eq!(rc.state, RobotState::NotStarted);
}

#[test]
fn drawing_on_a_frame() {
    let (w, h) = (8i32, 6i32);
    let mut img = vec![0u8; (w * h * 3) as usize];
    let at = |img: &Vec<u8>, x: i32, y: i32| {
        let i = ((y * w + x) * 3) as usize;
        (img[i], img[i + 1], img[i + 2])
    };
    put_pixel(&mut img, w, h, 9, 0, (1, 2, 3));
    assert!(img.iter().all(|&b| b == 0));
    put_pixel(&mut img, w, h, 2, 1, (1, 2, 3));
    assert_eq!(at(&img, 2, 1), (1, 2, 3));
    fill_rect(&mut img, w, h, 6, 4, 5, 5, (9, 9, 9));
    assert_eq!(at(&img, 7, 5), (9, 9, 9));
    assert_eq!(at(&img, 5, 5), (0, 0, 0));
    draw_rect_outline(&mut img, w, h, 0, 0, 4, 3, (7, 7, 7));
    assert_eq!(at(&img, 3, 0), (7, 7, 7));
    assert_eq!(at(&img, 0, 2), (7, 7, 7));
    assert_eq!(at(&img, 1, 1), (0, 0, 0));
    assert_eq!(at(&img, 2, 1), (1, 2, 3));
}

#[test]
fn test_frames_are_jpeg() {
    let jpeg = frame_jpeg(&vec![128u8; 320 * 240 * 3]).unwrap();
    assert_eq!(&jpeg[..2], &[0xFF, 0xD8]);
    assert_eq!(&jpeg[jpeg.len() - 2..], &[0xFF, 0xD9]);
    assert!(frame_jpeg(&[0u8; 10]).is_none());
}

#[test]
fn only_saves_of_new_configurations_take_an_id() {
    let rc = connected();
    let meta = ConfigMeta { is_dirty: false, location: "LOCAL_STORAGE".into(), name: "b".into(), resource_id: 0 };
    let save = |extra: &str, m: Option<ConfigMeta>| RcEvent::Command {
        from: DS,
        command: Command::new("CMD_SAVE_CONFIGURATION", extra, 0),
        now_ms: 0,
        meta: None,
        save_meta: m,
    };
    assert!(rc.takes_new_id(&save("{};<x/>", Some(meta.clone()))));
    assert!(!rc.takes_new_id(&save("no separator", Some(meta.clone()))));
    let old = ConfigMeta { resource_id: 5, ..meta };
    assert!(!rc.takes_new_id(&save("{};<x/>", Some(old))));
}
