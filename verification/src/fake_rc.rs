//! A stand-in Robot Controller, for testing a Driver Station end to end
//! without hardware: it answers discovery and heartbeats, serves an OpMode
//! list and canned configurations, echoes INIT and RUN, plays an INIT-phase
//! pattern on gamepad X and Y, streams telemetry, and crashes one OpMode on
//! purpose.
//!
//! Its decisions are a state machine: `FakeRc::step` takes what arrived and
//! gives what to send; `FakeRc::telemetry` builds the periodic telemetry
//! from the readings of the moment.

use vstd::prelude::*;

use crate::client::Endpoint;
use crate::cmd::{self, configs_view, ConfigMeta, ConfigMetaView};
use crate::packets::{
    default_peer_discovery, insert_number, Command, CommandView, Gamepad, Heartbeat, HeartbeatView,
    Packet, PacketView, PeerDiscovery, Telemetry, TelemetryView, BATTERY_LEVEL_KEY, SYSTEM_KEY_PREFIX,
};
use crate::text::{self, push_str};
use crate::types::RobotState;

verus! {

broadcast use vstd::seq_lib::group_seq_properties;

/// The OpMode list served on request.
pub const OPMODES: &'static str = r#"[
    {"name":"$Stop$Robot$","flavor":"SYSTEM","group":"$$$$$$$","source":"BUILTIN","description":"","systemOpModeBaseDisplayName":"Stop Robot"},
    {"name":"$Configure$Robot$","flavor":"SYSTEM","group":"$$$$$$$","source":"BUILTIN","description":"","systemOpModeBaseDisplayName":"Configure Robot"},
    {"name":"Test Hardware (Built-in)","flavor":"UTILITY","group":"$$$$$$$","source":"BUILTIN","description":"Exercise each configured motor and servo","systemOpModeBaseDisplayName":"Test Hardware"},
    {"name":"Test Gamepad (Built-in)","flavor":"UTILITY","group":"$$$$$$$","source":"BUILTIN","description":"Show live gamepad input","systemOpModeBaseDisplayName":"Test Gamepad"},
    {"name":"Duo (TeleOp)","flavor":"TELEOP","group":"drive","source":"ANDROID_STUDIO","description":""},
    {"name":"Solo (TeleOp)","flavor":"TELEOP","group":"drive","source":"ANDROID_STUDIO","description":""},
    {"name":"Auto: Sand Run","flavor":"AUTONOMOUS","group":"auto","source":"ANDROID_STUDIO","description":""},
    {"name":"Crash Test","flavor":"TELEOP","group":"$$$$$$$","source":"ANDROID_STUDIO","description":""}
]"#;

/// The OpMode that throws `CRASH_DELAY_MS` after START, the way a real
/// OpMode dies mid-loop.
pub const CRASH_OPMODE: &'static str = "Crash Test";

pub const CRASH_DELAY_MS: u64 = 2000;

pub const CRASH_STACKTRACE: &'static str = "java.lang.NullPointerException: Attempt to invoke virtual method 'void com.qualcomm.robotcore.hardware.DcMotor.setPower(double)' on a null object reference\n\tat org.firstinspires.ftc.teamcode.CrashTest.loop(CrashTest.java:42)\n\tat com.qualcomm.robotcore.eventloop.opmode.OpModeManagerImpl.runActiveOpMode(OpModeManagerImpl.java:475)\n\tat com.qualcomm.robotcore.eventloop.opmode.FtcEventLoop.loop(FtcEventLoop.java:180)";

/// Device XML served for a configuration nobody saved: a realistic
/// two-hub tree, so a configuration editor has motors, servos, I2C devices
/// and a webcam to read. The RC sends raw device XML here, not JSON.
pub const FAKE_CONFIG_XML: &'static str = r#"<?xml version='1.0' encoding='UTF-8' standalone='yes' ?>
<Robot type="FirstInspires-FTC">
    <LynxUsbDevice name="Control Hub Portal" serialNumber="(embedded)" parentModuleAddress="173">
        <LynxModule name="Control Hub" port="173">
            <goBILDA5202SeriesMotor name="front_right_motor" port="0" />
            <goBILDA5202SeriesMotor name="front_left_motor" port="1" />
            <goBILDA5202SeriesMotor name="back_right_motor" port="2" />
            <goBILDA5202SeriesMotor name="back_left_motor" port="3" />
            <Servo name="sortServo" port="5" />
            <ControlHubImuBHI260AP name="imu" port="0" bus="0" />
            <REV_VL53L0X_RANGE_SENSOR name="intakeDistance" port="0" bus="2" />
        </LynxModule>
        <LynxModule name="Expansion Hub 2" port="2">
            <goBILDA5202SeriesMotor name="intake" port="0" />
            <Servo name="kickoutServo" port="2" />
            <SparkFunOTOS name="otos" port="0" bus="0" />
        </LynxModule>
    </LynxUsbDevice>
    <Webcam name="Webcam 1" serialNumber="REPLACE_WITH_USB_SERIAL" />
</Robot>"#;

/// The scan reply: the attached USB devices only (serial number and coarse
/// type), in the shape of `ScannedDevices.toSerializationString()`.
pub const SCAN_REPLY: &'static str = r#"{"map":[{"key":"(embedded)","value":"LYNX_USB_DEVICE"},{"key":"3E425A6F","value":"WEBCAM"},{"key":"EthernetOverUsb:eth0:172.29.0.24","value":"ETHERNET_DEVICE"}]}"#;

/// The user device types, in the shape of the RC's
/// `ConfigurationTypeManager.serializeUserDeviceTypes()`.
pub const USER_DEVICE_TYPES: &'static str = r#"[
    {"name":"goBILDA 5202/3/4 series","flavor":"MOTOR","xmlTag":"goBILDA5202SeriesMotor","builtIn":true,"isDeprecated":false,"classSource":"APK"},
    {"name":"REV Core Hex Motor","flavor":"MOTOR","xmlTag":"RevRoboticsCoreHexMotor","builtIn":true,"isDeprecated":false,"classSource":"APK"},
    {"name":"REV HD Hex Motor 20:1","flavor":"MOTOR","xmlTag":"RevRobotics20HDHexMotor","builtIn":true,"isDeprecated":false,"classSource":"APK"},
    {"name":"Servo","flavor":"SERVO","xmlTag":"Servo","builtIn":true,"isDeprecated":false,"classSource":"APK"},
    {"name":"Continuous Rotation Servo","flavor":"SERVO","xmlTag":"ContinuousRotationServo","builtIn":true,"isDeprecated":false,"classSource":"APK"},
    {"name":"Control Hub IMU (BHI260AP)","flavor":"I2C","xmlTag":"ControlHubImuBHI260AP","builtIn":true,"isDeprecated":false,"classSource":"APK"},
    {"name":"REV 2M Distance Sensor","flavor":"I2C","xmlTag":"REV_VL53L0X_RANGE_SENSOR","builtIn":true,"isDeprecated":false,"classSource":"APK"},
    {"name":"SparkFun OTOS","flavor":"I2C","xmlTag":"SparkFunOTOS","builtIn":false,"isDeprecated":false,"classSource":"APK"},
    {"xmlTag":"LynxColorSensor","name":"REV Color/Range Sensor","flavor":"BUILT_IN"},
    {"xmlTag":"Webcam","name":"Webcam","flavor":"BUILT_IN"}
]"#;

/// What a command to the Driver Station carries: text, or a configuration
/// description or list of them, sent as JSON.
pub enum RcExtra {
    Text(String),
    Meta(ConfigMeta),
    Configs(Vec<ConfigMeta>),
}

pub enum RcExtraView {
    Text(Seq<char>),
    Meta(ConfigMetaView),
    Configs(Seq<ConfigMetaView>),
}

impl View for RcExtra {
    type V = RcExtraView;

    open spec fn view(&self) -> RcExtraView {
        match self {
            RcExtra::Text(t) => RcExtraView::Text(t@),
            RcExtra::Meta(m) => RcExtraView::Meta(m@),
            RcExtra::Configs(c) => RcExtraView::Configs(configs_view(c@)),
        }
    }
}

/// What the stand-in sends.
pub enum RcAction {
    /// A packet to `to`.
    Reply { to: Endpoint, packet: Packet },
    /// A command to `to`, with sequence number `seq`; its timestamp is the
    /// sender's clock.
    Notify { to: Endpoint, name: String, extra: RcExtra, seq: u16 },
    /// Webcam frame `frame_num`, sent as a run of commands, each numbered
    /// by `FakeRc::next_seq`.
    WebcamFrame { frame_num: i32 },
}

pub enum RcActionView {
    Reply { to: Endpoint, packet: PacketView },
    Notify { to: Endpoint, name: Seq<char>, extra: RcExtraView, seq: u16 },
    WebcamFrame { frame_num: i32 },
}

impl View for RcAction {
    type V = RcActionView;

    open spec fn view(&self) -> RcActionView {
        match self {
            RcAction::Reply { to, packet } => RcActionView::Reply { to: *to, packet: packet@ },
            RcAction::Notify { to, name, extra, seq } => RcActionView::Notify {
                to: *to,
                name: name@,
                extra: extra@,
                seq: *seq,
            },
            RcAction::WebcamFrame { frame_num } => RcActionView::WebcamFrame { frame_num: *frame_num },
        }
    }
}

pub open spec fn actions_view(v: Seq<RcAction>) -> Seq<RcActionView> {
    v.map_values(|a: RcAction| a@)
}

/// What arrives: a packet from an endpoint (with the clock, in ms, where
/// the stand-in needs it), or the passing of time.
///
/// With a command come what a JSON reader makes of its extra as a
/// configuration description (`meta`), and of the text before its first
/// `;` (`save_meta`).
pub enum RcEvent {
    Discovery { from: Endpoint },
    Heartbeat { from: Endpoint, heartbeat: Heartbeat },
    Command {
        from: Endpoint,
        command: Command,
        now_ms: u64,
        meta: Option<ConfigMeta>,
        save_meta: Option<ConfigMeta>,
    },
    Gamepad { gamepad: Gamepad },
    Tick { now_ms: u64 },
}

pub enum RcEventView {
    Discovery { from: Endpoint },
    Heartbeat { from: Endpoint, heartbeat: HeartbeatView },
    Command {
        from: Endpoint,
        command: CommandView,
        now_ms: u64,
        meta: Option<ConfigMetaView>,
        save_meta: Option<ConfigMetaView>,
    },
    Gamepad { gamepad: Gamepad },
    Tick { now_ms: u64 },
}

pub open spec fn meta_view(m: Option<ConfigMeta>) -> Option<ConfigMetaView> {
    match m {
        Some(x) => Some(x@),
        None => None,
    }
}

impl View for RcEvent {
    type V = RcEventView;

    open spec fn view(&self) -> RcEventView {
        match self {
            RcEvent::Discovery { from } => RcEventView::Discovery { from: *from },
            RcEvent::Heartbeat { from, heartbeat } => RcEventView::Heartbeat {
                from: *from,
                heartbeat: heartbeat@,
            },
            RcEvent::Command { from, command, now_ms, meta, save_meta } => RcEventView::Command {
                from: *from,
                command: command@,
                now_ms: *now_ms,
                meta: meta_view(*meta),
                save_meta: meta_view(*save_meta),
            },
            RcEvent::Gamepad { gamepad } => RcEventView::Gamepad { gamepad: *gamepad },
            RcEvent::Tick { now_ms } => RcEventView::Tick { now_ms: *now_ms },
        }
    }
}

/// The stand-in's state.
pub struct FakeRc {
    /// The Driver Station it talks to, once one has made itself known.
    pub ds: Option<Endpoint>,
    pub state: RobotState,
    pub opmode: String,
    /// Alliance BLUE (else RED), toggled by gamepad X during INIT.
    pub blue: bool,
    /// Start position RIGHT (else LEFT), toggled by gamepad Y during INIT.
    pub right: bool,
    pub prev_x: bool,
    pub prev_y: bool,
    /// Gamepad 1's left stick Y, as an `f32` bit pattern.
    pub left_stick_y: u32,
    pub seq: u16,
    /// When the running OpMode started, in ms.
    pub run_started: Option<u64>,
    pub configs: Vec<ConfigMeta>,
    pub active_config: ConfigMeta,
    /// Device XML saved per configuration name.
    pub saved_xml: Vec<(String, String)>,
    pub next_resource_id: i64,
    /// Set by an activation, applied on the restart that follows, as on
    /// real hardware.
    pub pending_activation: Option<ConfigMeta>,
    pub webcam_available: bool,
    pub webcam_frame_num: i32,
}

pub struct RcView {
    pub ds: Option<Endpoint>,
    pub state: RobotState,
    pub opmode: Seq<char>,
    pub blue: bool,
    pub right: bool,
    pub prev_x: bool,
    pub prev_y: bool,
    pub left_stick_y: u32,
    pub seq: u16,
    pub run_started: Option<u64>,
    pub configs: Seq<ConfigMetaView>,
    pub active_config: ConfigMetaView,
    pub saved_xml: Seq<(Seq<char>, Seq<char>)>,
    pub next_resource_id: i64,
    pub pending_activation: Option<ConfigMetaView>,
    pub webcam_available: bool,
    pub webcam_frame_num: i32,
}

pub open spec fn xml_view(v: Seq<(String, String)>) -> Seq<(Seq<char>, Seq<char>)> {
    v.map_values(|p: (String, String)| (p.0@, p.1@))
}

impl View for FakeRc {
    type V = RcView;

    open spec fn view(&self) -> RcView {
        RcView {
            ds: self.ds,
            state: self.state,
            opmode: self.opmode@,
            blue: self.blue,
            right: self.right,
            prev_x: self.prev_x,
            prev_y: self.prev_y,
            left_stick_y: self.left_stick_y,
            seq: self.seq,
            run_started: self.run_started,
            configs: configs_view(self.configs@),
            active_config: self.active_config@,
            saved_xml: xml_view(self.saved_xml@),
            next_resource_id: self.next_resource_id,
            pending_activation: meta_view(self.pending_activation),
            webcam_available: self.webcam_available,
            webcam_frame_num: self.webcam_frame_num,
        }
    }
}

// ---------------------------------------------------------------------------
// The rules
// ---------------------------------------------------------------------------

pub open spec fn next_seq_of(s: u16) -> u16 {
    if s == 0xffff {
        0
    } else {
        (s + 1) as u16
    }
}

/// Sends a command to the Driver Station, if there is one; the sequence
/// number advances either way.
pub open spec fn notify(s: RcView, name: Seq<char>, extra: RcExtraView) -> (RcView, Seq<RcActionView>) {
    let n = next_seq_of(s.seq);
    (
        RcView { seq: n, ..s },
        match s.ds {
            Some(d) => seq![RcActionView::Notify { to: d, name, extra, seq: n }],
            None => Seq::empty(),
        },
    )
}

/// Marks the webcam available or not, telling the Driver Station when that
/// changes.
pub open spec fn set_webcam(s: RcView, available: bool) -> (RcView, Seq<RcActionView>) {
    if s.webcam_available == available {
        (s, Seq::empty())
    } else {
        notify(
            RcView { webcam_available: available, ..s },
            cmd::STREAM_CHANGE@,
            RcExtraView::Text(
                if available {
                    "true"@
                } else {
                    "false"@
                },
            ),
        )
    }
}

/// The XML saved under `name`, if any.
pub open spec fn xml_lookup(m: Seq<(Seq<char>, Seq<char>)>, name: Seq<char>) -> Option<Seq<char>>
    decreases m.len(),
{
    if m.len() == 0 {
        None
    } else if m[0].0 == name {
        Some(m[0].1)
    } else {
        xml_lookup(m.drop_first(), name)
    }
}

/// Saves `xml` under `name`, in place of what was saved there.
pub open spec fn xml_put(m: Seq<(Seq<char>, Seq<char>)>, name: Seq<char>, xml: Seq<char>) -> Seq<
    (Seq<char>, Seq<char>),
>
    decreases m.len(),
{
    if m.len() == 0 {
        seq![(name, xml)]
    } else if m[0].0 == name {
        seq![(name, xml)] + m.drop_first()
    } else {
        seq![m[0]] + xml_put(m.drop_first(), name, xml)
    }
}

/// Replaces the first configuration named as `c` is, or adds `c` at the
/// end.
pub open spec fn config_put(v: Seq<ConfigMetaView>, c: ConfigMetaView) -> Seq<ConfigMetaView>
    decreases v.len(),
{
    if v.len() == 0 {
        seq![c]
    } else if v[0].name == c.name {
        seq![c] + v.drop_first()
    } else {
        seq![v[0]] + config_put(v.drop_first(), c)
    }
}

/// The configurations not named `name`.
pub open spec fn config_remove(v: Seq<ConfigMetaView>, name: Seq<char>) -> Seq<ConfigMetaView>
    decreases v.len(),
{
    if v.len() == 0 {
        Seq::empty()
    } else if v.last().name == name {
        config_remove(v.drop_last(), name)
    } else {
        config_remove(v.drop_last(), name).push(v.last())
    }
}

/// Where the first `;` of `s` is.
pub open spec fn first_semicolon(s: Seq<char>) -> Option<int> {
    if exists|i: int| 0 <= i < s.len() && s[i] == ';' {
        Some(choose|i: int| 0 <= i < s.len() && s[i] == ';' && forall|j: int| 0 <= j < i ==> s[j] != ';')
    } else {
        None
    }
}

/// The XML served for a particular configuration: what was saved under its
/// name, else the canned tree.
pub open spec fn particular_xml(s: RcView, meta: Option<ConfigMetaView>) -> Seq<char> {
    match meta {
        Some(m) => match xml_lookup(s.saved_xml, m.name) {
            Some(x) => x,
            None => FAKE_CONFIG_XML@,
        },
        None => FAKE_CONFIG_XML@,
    }
}

/// Saving a configuration: `meta` is its description (a new one gets the
/// next resource id), `xml` its device tree. The save makes it active
/// without a restart, as the RC does.
pub open spec fn save_config(s: RcView, meta: ConfigMetaView, xml: Seq<char>) -> (RcView, Seq<RcActionView>) {
    let nid: i64 = if meta.resource_id == 0 {
        (s.next_resource_id + 1) as i64
    } else {
        s.next_resource_id
    };
    let m = if meta.resource_id == 0 {
        ConfigMetaView { resource_id: nid, ..meta }
    } else {
        meta
    };
    notify(
        RcView {
            next_resource_id: nid,
            saved_xml: xml_put(s.saved_xml, m.name, xml),
            configs: config_put(s.configs, m),
            active_config: m,
            ..s
        },
        cmd::NOTIFY_ACTIVE_CONFIGURATION@,
        RcExtraView::Meta(m),
    )
}

/// A command that saves a configuration without a resource id, which takes
/// the next one.
pub open spec fn saves_new(c: CommandView, save_meta: Option<ConfigMetaView>) -> bool {
    &&& c.name == cmd::SAVE_CONFIGURATION@
    &&& first_semicolon(c.extra) is Some
    &&& save_meta matches Some(m) && m.resource_id == 0
}

/// An event on which the stand-in hands out a new resource id.
pub open spec fn needs_new_id(s: RcView, e: RcEventView) -> bool {
    e matches RcEventView::Command { from, command, save_meta, .. } && s.ds == Some(from)
        && !command.acknowledged && saves_new(command, save_meta)
}

/// What an unacknowledged command does, after its acknowledgement.
pub open spec fn command_effect(
    s: RcView,
    c: CommandView,
    now_ms: u64,
    meta: Option<ConfigMetaView>,
    save_meta: Option<ConfigMetaView>,
) -> (RcView, Seq<RcActionView>) {
    let n = c.name;
    if n == cmd::REQUEST_OP_MODE_LIST@ {
        notify(s, cmd::NOTIFY_OP_MODE_LIST@, RcExtraView::Text(OPMODES@))
    } else if n == cmd::INIT_OP_MODE@ {
        let s1 = RcView { run_started: None, ..s };
        let (s2, a2) = if c.extra == cmd::DEFAULT_OP_MODE@ {
            set_webcam(RcView { state: RobotState::Stopped, opmode: Seq::empty(), ..s1 }, false)
        } else {
            set_webcam(RcView { state: RobotState::Init, opmode: c.extra, ..s1 }, true)
        };
        let (s3, a3) = notify(s2, cmd::NOTIFY_INIT_OP_MODE@, RcExtraView::Text(c.extra));
        (s3, a2 + a3)
    } else if n == cmd::RUN_OP_MODE@ {
        notify(
            RcView { state: RobotState::Running, opmode: c.extra, run_started: Some(now_ms), ..s },
            cmd::NOTIFY_RUN_OP_MODE@,
            RcExtraView::Text(c.extra),
        )
    } else if n == cmd::RESTART_ROBOT@ {
        let (s2, a2) = set_webcam(RcView { state: RobotState::NotStarted, opmode: Seq::empty(), ..s }, false);
        match s2.pending_activation {
            Some(m) => {
                let (s3, a3) = notify(
                    RcView { active_config: m, pending_activation: None, ..s2 },
                    cmd::NOTIFY_ACTIVE_CONFIGURATION@,
                    RcExtraView::Meta(m),
                );
                (s3, a2 + a3)
            },
            None => (s2, a2),
        }
    } else if n == cmd::REQUEST_FRAME@ {
        if s.webcam_available {
            (
                RcView {
                    webcam_frame_num: if s.webcam_frame_num == i32::MAX {
                        i32::MIN
                    } else {
                        (s.webcam_frame_num + 1) as i32
                    },
                    ..s
                },
                seq![RcActionView::WebcamFrame { frame_num: s.webcam_frame_num }],
            )
        } else {
            (s, Seq::empty())
        }
    } else if n == cmd::REQUEST_ACTIVE_CONFIG@ {
        notify(s, cmd::NOTIFY_ACTIVE_CONFIGURATION@, RcExtraView::Meta(s.active_config))
    } else if n == cmd::REQUEST_CONFIGURATIONS@ {
        notify(s, cmd::REQUEST_CONFIGURATIONS_RESP@, RcExtraView::Configs(s.configs))
    } else if n == cmd::REQUEST_PARTICULAR_CONFIGURATION@ {
        notify(s, cmd::REQUEST_PARTICULAR_CONFIGURATION_RESP@, RcExtraView::Text(particular_xml(s, meta)))
    } else if n == cmd::REQUEST_USER_DEVICE_TYPES@ {
        notify(s, cmd::NOTIFY_USER_DEVICE_LIST@, RcExtraView::Text(USER_DEVICE_TYPES@))
    } else if n == cmd::SCAN@ {
        notify(s, cmd::SCAN_RESP@, RcExtraView::Text(SCAN_REPLY@))
    } else if n == cmd::ACTIVATE_CONFIGURATION@ {
        match meta {
            Some(m) => (RcView { pending_activation: Some(m), ..s }, Seq::empty()),
            None => (s, Seq::empty()),
        }
    } else if n == cmd::SAVE_CONFIGURATION@ {
        match (first_semicolon(c.extra), save_meta) {
            (Some(i), Some(m)) => save_config(s, m, c.extra.skip(i + 1)),
            _ => (s, Seq::empty()),
        }
    } else if n == cmd::DELETE_CONFIGURATION@ {
        match meta {
            Some(m) => (RcView { configs: config_remove(s.configs, m.name), ..s }, Seq::empty()),
            None => (s, Seq::empty()),
        }
    } else {
        (s, Seq::empty())
    }
}

/// The acknowledgement of a command.
pub open spec fn ack_view(c: CommandView) -> CommandView {
    CommandView { seq: c.seq, timestamp: c.timestamp, acknowledged: true, name: c.name, extra: Seq::empty() }
}

/// The running crash-test OpMode dies once it has run `CRASH_DELAY_MS`:
/// the stack trace goes out, the robot stops and the idle OpMode is
/// reported inited.
pub open spec fn crash_due(s: RcView, now_ms: u64) -> bool {
    &&& s.opmode == CRASH_OPMODE@
    &&& s.state == RobotState::Running
    &&& s.run_started matches Some(t) && now_ms >= t && now_ms - t >= CRASH_DELAY_MS
}

pub open spec fn crash(s: RcView) -> (RcView, Seq<RcActionView>) {
    let (s1, a1) = notify(RcView { run_started: None, ..s }, cmd::SHOW_STACKTRACE@, RcExtraView::Text(CRASH_STACKTRACE@));
    let (s2, a2) = set_webcam(RcView { state: RobotState::Stopped, opmode: Seq::empty(), ..s1 }, false);
    let (s3, a3) = notify(s2, cmd::NOTIFY_INIT_OP_MODE@, RcExtraView::Text(cmd::DEFAULT_OP_MODE@));
    (s3, a1 + a2 + a3)
}

/// What the stand-in does on an event. A Driver Station makes itself known
/// by discovery and is answered; heartbeats and commands are served only
/// from it. Heartbeats are echoed with the robot's state; every
/// unacknowledged command is acknowledged, then acted on. Gamepad 1 moves
/// the left stick reading, and during INIT a press of X toggles the
/// alliance and of Y the start position.
pub open spec fn rc_step(s: RcView, e: RcEventView) -> (RcView, Seq<RcActionView>) {
    match e {
        RcEventView::Discovery { from } => (
            RcView { ds: Some(from), ..s },
            seq![RcActionView::Reply { to: from, packet: PacketView::PeerDiscovery(default_peer_discovery()) }],
        ),
        RcEventView::Heartbeat { from, heartbeat } => if s.ds == Some(from) {
            let n = next_seq_of(s.seq);
            (
                RcView { seq: n, ..s },
                seq![
                    RcActionView::Reply {
                        to: from,
                        packet: PacketView::Heartbeat(
                            HeartbeatView { robot_state: s.state, seq: n, ..heartbeat },
                        ),
                    },
                ],
            )
        } else {
            (s, Seq::empty())
        },
        RcEventView::Command { from, command, now_ms, meta, save_meta } => if s.ds == Some(from)
            && !command.acknowledged {
            let (s2, a) = command_effect(s, command, now_ms, meta, save_meta);
            (s2, seq![RcActionView::Reply { to: from, packet: PacketView::Command(ack_view(command)) }] + a)
        } else {
            (s, Seq::empty())
        },
        RcEventView::Gamepad { gamepad: g } => if g.user == 1 {
            let init = s.state == RobotState::Init;
            (
                RcView {
                    left_stick_y: g.left_stick_y,
                    blue: if init && g.x && !s.prev_x {
                        !s.blue
                    } else {
                        s.blue
                    },
                    right: if init && g.y && !s.prev_y {
                        !s.right
                    } else {
                        s.right
                    },
                    prev_x: g.x,
                    prev_y: g.y,
                    ..s
                },
                Seq::empty(),
            )
        } else {
            (s, Seq::empty())
        },
        RcEventView::Tick { now_ms } => if crash_due(s, now_ms) {
            crash(s)
        } else {
            (s, Seq::empty())
        },
    }
}


// ---------------------------------------------------------------------------
// Carrying them out
// ---------------------------------------------------------------------------

fn push_action(out: &mut Vec<RcAction>, a: RcAction)
    ensures
        actions_view(final(out)@) == actions_view(old(out)@).push(a@),
{
    out.push(a);
    assert(actions_view(out@) =~= actions_view(old(out)@).push(a@));
}

fn xml_get(m: &Vec<(String, String)>, name: &str) -> (r: Option<String>)
    ensures
        match r {
            Some(x) => xml_lookup(xml_view(m@), name@) == Some(x@),
            None => xml_lookup(xml_view(m@), name@) is None,
        },
{
    let ghost v = xml_view(m@);
    let mut i: usize = 0;
    assert(v.skip(0) =~= v);
    while i < m.len()
        invariant
            i <= m@.len(),
            v == xml_view(m@),
            xml_lookup(v, name@) == xml_lookup(v.skip(i as int), name@),
        decreases m@.len() - i,
    {
        assert(v.skip(i as int)[0] == v[i as int]);
        assert(v.skip(i as int).drop_first() =~= v.skip(i + 1));
        if text::str_eq(m[i].0.as_str(), name) {
            return Some(m[i].1.clone());
        }
        i = i + 1;
    }
    assert(v.skip(i as int) =~= Seq::<(Seq<char>, Seq<char>)>::empty());
    None
}

fn xml_set(m: &mut Vec<(String, String)>, name: String, xml: String)
    ensures
        xml_view(final(m)@) == xml_put(xml_view(old(m)@), name@, xml@),
{
    let ghost m0 = xml_view(m@);
    let mut i: usize = 0;
    assert(m0.skip(0) =~= m0);
    assert(m0.take(0) =~= Seq::<(Seq<char>, Seq<char>)>::empty());
    while i < m.len()
        invariant
            m0 == xml_view(m@),
            m0 == xml_view(old(m)@),
            m@ == old(m)@,
            i <= m@.len(),
            xml_put(m0, name@, xml@) == m0.take(i as int) + xml_put(m0.skip(i as int), name@, xml@),
        decreases m@.len() - i,
    {
        let ghost tail = m0.skip(i as int);
        assert(tail[0] == m0[i as int]);
        assert(tail.drop_first() =~= m0.skip(i + 1));
        if text::str_eq(m[i].0.as_str(), name.as_str()) {
            m.set(i, (name, xml));
            assert(xml_view(m@) =~= m0.take(i as int) + (seq![(name@, xml@)] + tail.drop_first()));
            return;
        }
        assert(m0.take(i as int) + (seq![tail[0]] + xml_put(tail.drop_first(), name@, xml@)) =~= m0.take(
            i + 1,
        ) + xml_put(m0.skip(i + 1), name@, xml@));
        i = i + 1;
    }
    assert(m0.skip(i as int) =~= Seq::<(Seq<char>, Seq<char>)>::empty());
    m.push((name, xml));
    assert(xml_view(m@) =~= m0.take(i as int) + seq![(name@, xml@)]);
    assert(m0.take(i as int) =~= m0);
}

fn config_set(v: &mut Vec<ConfigMeta>, c: ConfigMeta)
    ensures
        configs_view(final(v)@) == config_put(configs_view(old(v)@), c@),
{
    let ghost m0 = configs_view(v@);
    let mut i: usize = 0;
    assert(m0.skip(0) =~= m0);
    assert(m0.take(0) =~= Seq::<ConfigMetaView>::empty());
    while i < v.len()
        invariant
            m0 == configs_view(v@),
            m0 == configs_view(old(v)@),
            v@ == old(v)@,
            i <= v@.len(),
            config_put(m0, c@) == m0.take(i as int) + config_put(m0.skip(i as int), c@),
        decreases v@.len() - i,
    {
        let ghost tail = m0.skip(i as int);
        assert(tail[0] == m0[i as int]);
        assert(tail.drop_first() =~= m0.skip(i + 1));
        if text::str_eq(v[i].name.as_str(), c.name.as_str()) {
            v.set(i, c);
            assert(configs_view(v@) =~= m0.take(i as int) + (seq![c@] + tail.drop_first()));
            return;
        }
        assert(m0.take(i as int) + (seq![tail[0]] + config_put(tail.drop_first(), c@)) =~= m0.take(i + 1)
            + config_put(m0.skip(i + 1), c@));
        i = i + 1;
    }
    assert(m0.skip(i as int) =~= Seq::<ConfigMetaView>::empty());
    v.push(c);
    assert(configs_view(v@) =~= m0.take(i as int) + seq![c@]);
    assert(m0.take(i as int) =~= m0);
}

fn config_drop(v: &Vec<ConfigMeta>, name: &str) -> (r: Vec<ConfigMeta>)
    ensures
        configs_view(r@) == config_remove(configs_view(v@), name@),
{
    let ghost m = configs_view(v@);
    let mut r: Vec<ConfigMeta> = Vec::new();
    let mut i: usize = 0;
    assert(m.take(0) =~= Seq::<ConfigMetaView>::empty());
    assert(configs_view(r@) =~= Seq::<ConfigMetaView>::empty());
    while i < v.len()
        invariant
            i <= v@.len(),
            m == configs_view(v@),
            configs_view(r@) == config_remove(m.take(i as int), name@),
        decreases v@.len() - i,
    {
        assert(m.take(i + 1).drop_last() =~= m.take(i as int));
        if !text::str_eq(v[i].name.as_str(), name) {
            let ghost before = r@;
            r.push(v[i].copy());
            assert(configs_view(r@) =~= configs_view(before).push(m[i as int]));
        }
        i = i + 1;
    }
    assert(m.take(i as int) =~= m);
    r
}

fn copy_configs(v: &Vec<ConfigMeta>) -> (r: Vec<ConfigMeta>)
    ensures
        configs_view(r@) == configs_view(v@),
{
    let mut r: Vec<ConfigMeta> = Vec::new();
    let mut i: usize = 0;
    while i < v.len()
        invariant
            i <= v@.len(),
            configs_view(r@) == configs_view(v@).take(i as int),
        decreases v@.len() - i,
    {
        let ghost before = r@;
        let c = v[i].copy();
        r.push(c);
        assert(configs_view(r@) =~= configs_view(before).push(v@[i as int]@));
        assert(configs_view(v@).take(i + 1) =~= configs_view(v@).take(i as int).push(v@[i as int]@));
        i = i + 1;
    }
    assert(configs_view(v@).take(i as int) =~= configs_view(v@));
    r
}

/// Splits `s` at its first `;`: the text after it, where there is one.
fn after_semicolon(s: &str) -> (r: Option<String>)
    ensures
        match r {
            Some(x) => first_semicolon(s@) matches Some(i) && x@ == s@.skip(i + 1),
            None => first_semicolon(s@) is None,
        },
{
    let cs = text::chars_of(s);
    let mut i: usize = 0;
    while i < cs.len()
        invariant
            i <= cs@.len(),
            cs@ == s@,
            forall|j: int| 0 <= j < i ==> s@[j] != ';',
        decreases cs@.len() - i,
    {
        if cs[i] == ';' {
            let r = text::string_of(&cs, i + 1, cs.len());
            proof {
                let k = choose|k: int| 0 <= k < s@.len() && s@[k] == ';' && forall|j: int| 0 <= j < k ==> s@[j] != ';';
                assert(s@[i as int] == ';');
                if k < i {
                    assert(s@[k] != ';');
                }
                if k > i {
                    assert(s@[i as int] != ';');
                }
                assert(cs@.subrange(i + 1, cs@.len() as int) =~= s@.skip(i + 1));
            }
            return Some(r);
        }
        i = i + 1;
    }
    None
}

impl FakeRc {
    /// Advances the sequence number and returns it.
    pub fn next_seq(&mut self) -> (n: u16)
        ensures
            n == next_seq_of(old(self)@.seq),
            final(self)@ == (RcView { seq: n, ..old(self)@ }),
    {
        self.seq = if self.seq == u16::MAX {
            0
        } else {
            self.seq + 1
        };
        self.seq
    }

    fn notify_ds(&mut self, name: &str, extra: RcExtra, out: &mut Vec<RcAction>)
        ensures
            final(self)@ == notify(old(self)@, name@, extra@).0,
            actions_view(final(out)@) == actions_view(old(out)@) + notify(old(self)@, name@, extra@).1,
    {
        let n = self.next_seq();
        match self.ds {
            Some(d) => {
                push_action(out, RcAction::Notify { to: d, name: name.to_owned(), extra, seq: n });
            },
            None => {},
        }
        assert(actions_view(out@) =~= actions_view(old(out)@) + notify(old(self)@, name@, extra@).1);
    }

    fn set_webcam_available(&mut self, available: bool, out: &mut Vec<RcAction>)
        ensures
            final(self)@ == set_webcam(old(self)@, available).0,
            actions_view(final(out)@) == actions_view(old(out)@) + set_webcam(old(self)@, available).1,
    {
        if self.webcam_available == available {
            assert(actions_view(out@) =~= actions_view(old(out)@) + Seq::<RcActionView>::empty());
            return;
        }
        self.webcam_available = available;
        let t = if available {
            "true"
        } else {
            "false"
        };
        self.notify_ds(cmd::STREAM_CHANGE, RcExtra::Text(t.to_owned()), out);
    }

    fn init_opmode(&mut self, extra: &str, out: &mut Vec<RcAction>)
        ensures
            ({
                let s1 = RcView { run_started: None, ..old(self)@ };
                let (s2, a2) = if extra@ == cmd::DEFAULT_OP_MODE@ {
                    set_webcam(RcView { state: RobotState::Stopped, opmode: Seq::empty(), ..s1 }, false)
                } else {
                    set_webcam(RcView { state: RobotState::Init, opmode: extra@, ..s1 }, true)
                };
                let (s3, a3) = notify(s2, cmd::NOTIFY_INIT_OP_MODE@, RcExtraView::Text(extra@));
                final(self)@ == s3 && actions_view(final(out)@) == actions_view(old(out)@) + (a2 + a3)
            }),
    {
        self.run_started = None;
        if text::str_eq(extra, cmd::DEFAULT_OP_MODE) {
            self.state = RobotState::Stopped;
            self.opmode = String::new();
            self.set_webcam_available(false, out);
        } else {
            self.state = RobotState::Init;
            self.opmode = extra.to_owned();
            self.set_webcam_available(true, out);
        }
        self.notify_ds(cmd::NOTIFY_INIT_OP_MODE, RcExtra::Text(extra.to_owned()), out);
        assert(actions_view(out@) =~= actions_view(old(out)@) + ({
            let s1 = RcView { run_started: None, ..old(self)@ };
            let (s2, a2) = if extra@ == cmd::DEFAULT_OP_MODE@ {
                set_webcam(RcView { state: RobotState::Stopped, opmode: Seq::empty(), ..s1 }, false)
            } else {
                set_webcam(RcView { state: RobotState::Init, opmode: extra@, ..s1 }, true)
            };
            let (s3, a3) = notify(s2, cmd::NOTIFY_INIT_OP_MODE@, RcExtraView::Text(extra@));
            a2 + a3
        }));
    }

    fn restart(&mut self, out: &mut Vec<RcAction>)
        ensures
            ({
                let (s2, a2) = set_webcam(
                    RcView { state: RobotState::NotStarted, opmode: Seq::empty(), ..old(self)@ },
                    false,
                );
                match s2.pending_activation {
                    Some(m) => {
                        let (s3, a3) = notify(
                            RcView { active_config: m, pending_activation: None, ..s2 },
                            cmd::NOTIFY_ACTIVE_CONFIGURATION@,
                            RcExtraView::Meta(m),
                        );
                        final(self)@ == s3 && actions_view(final(out)@) == actions_view(old(out)@) + (a2 + a3)
                    },
                    None => final(self)@ == s2 && actions_view(final(out)@) == actions_view(old(out)@) + a2,
                }
            }),
    {
        self.state = RobotState::NotStarted;
        self.opmode = String::new();
        self.set_webcam_available(false, out);
        let ghost o2 = actions_view(out@);
        let p = self.pending_activation.take();
        match p {
            Some(meta) => {
                self.active_config = meta.copy();
                self.notify_ds(cmd::NOTIFY_ACTIVE_CONFIGURATION, RcExtra::Meta(meta), out);
            },
            None => {},
        }
    }

    fn save(&mut self, meta: ConfigMeta, xml: String, out: &mut Vec<RcAction>)
        requires
            meta.resource_id == 0 ==> old(self)@.next_resource_id < i64::MAX,
        ensures
            final(self)@ == save_config(old(self)@, meta@, xml@).0,
            actions_view(final(out)@) == actions_view(old(out)@) + save_config(old(self)@, meta@, xml@).1,
    {
        let mut meta = meta;
        if meta.resource_id == 0 {
            self.next_resource_id = self.next_resource_id + 1;
            meta.resource_id = self.next_resource_id;
        }
        xml_set(&mut self.saved_xml, meta.name.clone(), xml);
        config_set(&mut self.configs, meta.copy());
        self.active_config = meta.copy();
        self.notify_ds(cmd::NOTIFY_ACTIVE_CONFIGURATION, RcExtra::Meta(meta), out);
    }

    fn particular(&self, meta: &Option<ConfigMeta>) -> (r: String)
        ensures
            r@ == particular_xml(self@, meta_view(*meta)),
    {
        match meta {
            Some(m) => match xml_get(&self.saved_xml, m.name.as_str()) {
                Some(x) => x,
                None => FAKE_CONFIG_XML.to_owned(),
            },
            None => FAKE_CONFIG_XML.to_owned(),
        }
    }

    fn act_on(
        &mut self,
        c: &Command,
        now_ms: u64,
        meta: Option<ConfigMeta>,
        save_meta: Option<ConfigMeta>,
        out: &mut Vec<RcAction>,
    )
        requires
            saves_new(c@, meta_view(save_meta)) ==> old(self)@.next_resource_id < i64::MAX,
        ensures
            final(self)@ == command_effect(old(self)@, c@, now_ms, meta_view(meta), meta_view(save_meta)).0,
            actions_view(final(out)@) == actions_view(old(out)@) + command_effect(
                old(self)@,
                c@,
                now_ms,
                meta_view(meta),
                meta_view(save_meta),
            ).1,
    {
        let n = c.name.as_str();
        let ghost o = actions_view(out@);
        if text::str_eq(n, cmd::REQUEST_OP_MODE_LIST) {
            self.notify_ds(cmd::NOTIFY_OP_MODE_LIST, RcExtra::Text(OPMODES.to_owned()), out);
        } else if text::str_eq(n, cmd::INIT_OP_MODE) {
            self.init_opmode(c.extra.as_str(), out);
        } else if text::str_eq(n, cmd::RUN_OP_MODE) {
            self.state = RobotState::Running;
            self.opmode = c.extra.clone();
            self.run_started = Some(now_ms);
            self.notify_ds(cmd::NOTIFY_RUN_OP_MODE, RcExtra::Text(c.extra.clone()), out);
        } else if text::str_eq(n, cmd::RESTART_ROBOT) {
            self.restart(out);
        } else if text::str_eq(n, cmd::REQUEST_FRAME) {
            if self.webcam_available {
                let f = self.webcam_frame_num;
                self.webcam_frame_num = if f == i32::MAX {
                    i32::MIN
                } else {
                    f + 1
                };
                push_action(out, RcAction::WebcamFrame { frame_num: f });
            }
        } else if text::str_eq(n, cmd::REQUEST_ACTIVE_CONFIG) {
            let m = self.active_config.copy();
            self.notify_ds(cmd::NOTIFY_ACTIVE_CONFIGURATION, RcExtra::Meta(m), out);
        } else if text::str_eq(n, cmd::REQUEST_CONFIGURATIONS) {
            let v = copy_configs(&self.configs);
            self.notify_ds(cmd::REQUEST_CONFIGURATIONS_RESP, RcExtra::Configs(v), out);
        } else if text::str_eq(n, cmd::REQUEST_PARTICULAR_CONFIGURATION) {
            let x = self.particular(&meta);
            self.notify_ds(cmd::REQUEST_PARTICULAR_CONFIGURATION_RESP, RcExtra::Text(x), out);
        } else if text::str_eq(n, cmd::REQUEST_USER_DEVICE_TYPES) {
            self.notify_ds(cmd::NOTIFY_USER_DEVICE_LIST, RcExtra::Text(USER_DEVICE_TYPES.to_owned()), out);
        } else if text::str_eq(n, cmd::SCAN) {
            self.notify_ds(cmd::SCAN_RESP, RcExtra::Text(SCAN_REPLY.to_owned()), out);
        } else if text::str_eq(n, cmd::ACTIVATE_CONFIGURATION) {
            match meta {
                Some(m) => {
                    self.pending_activation = Some(m);
                },
                None => {},
            }
        } else if text::str_eq(n, cmd::SAVE_CONFIGURATION) {
            match (after_semicolon(c.extra.as_str()), save_meta) {
                (Some(xml), Some(m)) => self.save(m, xml, out),
                _ => {},
            }
        } else if text::str_eq(n, cmd::DELETE_CONFIGURATION) {
            match meta {
                Some(m) => {
                    self.configs = config_drop(&self.configs, m.name.as_str());
                },
                None => {},
            }
        }
        assert(actions_view(out@) =~= o + command_effect(
            old(self)@,
            c@,
            now_ms,
            meta_view(meta),
            meta_view(save_meta),
        ).1);
    }

    fn crash_now(&mut self, out: &mut Vec<RcAction>)
        ensures
            final(self)@ == crash(old(self)@).0,
            actions_view(final(out)@) == actions_view(old(out)@) + crash(old(self)@).1,
    {
        self.run_started = None;
        self.notify_ds(cmd::SHOW_STACKTRACE, RcExtra::Text(CRASH_STACKTRACE.to_owned()), out);
        self.state = RobotState::Stopped;
        self.opmode = String::new();
        self.set_webcam_available(false, out);
        self.notify_ds(cmd::NOTIFY_INIT_OP_MODE, RcExtra::Text(cmd::DEFAULT_OP_MODE.to_owned()), out);
        assert(actions_view(out@) =~= actions_view(old(out)@) + crash(old(self)@).1);
    }

    /// What the stand-in does on `e` (see `rc_step`).
    pub fn step(&mut self, e: RcEvent) -> (r: Vec<RcAction>)
        requires
            needs_new_id(old(self)@, e@) ==> old(self)@.next_resource_id < i64::MAX,
        ensures
            (final(self)@, actions_view(r@)) == rc_step(old(self)@, e@),
    {
        let mut out: Vec<RcAction> = Vec::new();
        assert(actions_view(out@) =~= Seq::<RcActionView>::empty());
        match e {
            RcEvent::Discovery { from } => {
                self.ds = Some(from);
                push_action(&mut out, RcAction::Reply { to: from, packet: Packet::PeerDiscovery(PeerDiscovery::default()) });
            },
            RcEvent::Heartbeat { from, heartbeat } => {
                if self.ds == Some(from) {
                    let mut hb = heartbeat;
                    hb.robot_state = self.state;
                    hb.seq = self.next_seq();
                    push_action(&mut out, RcAction::Reply { to: from, packet: Packet::Heartbeat(hb) });
                }
            },
            RcEvent::Command { from, command, now_ms, meta, save_meta } => {
                if self.ds == Some(from) && !command.acknowledged {
                    push_action(&mut out, RcAction::Reply { to: from, packet: Packet::Command(Command::ack_of(&command)) });
                    self.act_on(&command, now_ms, meta, save_meta, &mut out);
                }
            },
            RcEvent::Gamepad { gamepad: g } => {
                if g.user == 1 {
                    self.left_stick_y = g.left_stick_y;
                    if self.state == RobotState::Init {
                        if g.x && !self.prev_x {
                            self.blue = !self.blue;
                        }
                        if g.y && !self.prev_y {
                            self.right = !self.right;
                        }
                    }
                    self.prev_x = g.x;
                    self.prev_y = g.y;
                }
            },
            RcEvent::Tick { now_ms } => {
                let due = match self.run_started {
                    Some(t) => now_ms >= t && now_ms - t >= CRASH_DELAY_MS,
                    None => false,
                } && self.state == RobotState::Running && text::str_eq(self.opmode.as_str(), CRASH_OPMODE);
                if due {
                    self.crash_now(&mut out);
                }
            },
        }
        out
    }
}


/// The readings of the moment that go into telemetry, formatted by the
/// caller: the battery voltage, the numbers shown while running (as `f32`
/// bit patterns), the servo bus current line and the field-overlay lines.
pub struct RcReadings {
    pub timestamp: i64,
    pub battery: String,
    pub flywheel_rpm: u32,
    pub target_rpm: u32,
    pub heading_deg: u32,
    pub drive_power: u32,
    pub servo_line: String,
    pub field_lines: Vec<String>,
}

pub open spec fn lines_as_entries(v: Seq<Seq<char>>) -> Seq<(Seq<char>, Seq<char>)> {
    v.map_values(|l: Seq<char>| (Seq::<char>::empty(), l))
}

/// The periodic telemetry: the battery voltage and a system line always;
/// during INIT the OpMode, alliance, start position and a hint; while
/// running the drive state, five numbers, the servo current and the field
/// overlay.
pub open spec fn rc_telemetry(
    s: RcView,
    timestamp: i64,
    battery: Seq<char>,
    flywheel_rpm: u32,
    target_rpm: u32,
    heading_deg: u32,
    drive_power: u32,
    servo_line: Seq<char>,
    field_lines: Seq<Seq<char>>,
) -> (RcView, TelemetryView) {
    let n = next_seq_of(s.seq);
    let base = seq![
        (BATTERY_LEVEL_KEY@, battery),
        (SYSTEM_KEY_PREFIX@ + "i2c"@, "1 device on the I2C bus"@),
    ];
    let (strings, numbers) = if s.state == RobotState::Init {
        (
            base + lines_as_entries(
                seq![
                    "00 OpMode : "@ + s.opmode,
                    "01 Alliance : "@ + if s.blue {
                        "BLUE"@
                    } else {
                        "RED"@
                    },
                    "02 Start Position : "@ + if s.right {
                        "RIGHT"@
                    } else {
                        "LEFT"@
                    },
                    "03 Hint : X toggles alliance, Y toggles start"@,
                ],
            ),
            Seq::<(Seq<char>, u32)>::empty(),
        )
    } else if s.state == RobotState::Running {
        (
            base + lines_as_entries(seq!["State : DRIVING"@, servo_line] + field_lines),
            insert_number(
                insert_number(
                    insert_number(
                        insert_number(
                            insert_number(Seq::empty(), "flywheel_rpm"@, flywheel_rpm),
                            "target_rpm"@,
                            target_rpm,
                        ),
                        "heading_deg"@,
                        heading_deg,
                    ),
                    "drive_power"@,
                    drive_power,
                ),
                "left_stick_y"@,
                s.left_stick_y,
            ),
        )
    } else {
        (base, Seq::<(Seq<char>, u32)>::empty())
    };
    (
        RcView { seq: n, ..s },
        TelemetryView {
            seq: n,
            timestamp,
            is_sorted: true,
            robot_state: s.state,
            tag: "TELEMETRY_DATA"@,
            strings,
            numbers,
        },
    )
}

impl FakeRc {
    /// The periodic telemetry packet (see `rc_telemetry`).
    pub fn telemetry(&mut self, r: &RcReadings) -> (t: Telemetry)
        ensures
            (final(self)@, t@) == rc_telemetry(
                old(self)@,
                r.timestamp,
                r.battery@,
                r.flywheel_rpm,
                r.target_rpm,
                r.heading_deg,
                r.drive_power,
                r.servo_line@,
                crate::capture::report::strings_view(r.field_lines@),
            ),
    {
        let n = self.next_seq();
        let mut t = Telemetry {
            seq: n,
            timestamp: r.timestamp,
            is_sorted: true,
            robot_state: self.state,
            tag: "TELEMETRY_DATA".to_owned(),
            strings: Vec::new(),
            numbers: Vec::new(),
        };
        assert(t@.numbers =~= Seq::<(Seq<char>, u32)>::empty());
        t.strings.push((BATTERY_LEVEL_KEY.to_owned(), r.battery.clone()));
        let mut k = SYSTEM_KEY_PREFIX.to_owned();
        push_str(&mut k, "i2c");
        t.strings.push((k, "1 device on the I2C bus".to_owned()));
        let ghost base = t@.strings;
        let ghost fl = crate::capture::report::strings_view(r.field_lines@);
        if self.state == RobotState::Init {
            let mut l = "00 OpMode : ".to_owned();
            push_str(&mut l, self.opmode.as_str());
            t.push_line(l.as_str());
            let mut l = "01 Alliance : ".to_owned();
            push_str(&mut l, if self.blue { "BLUE" } else { "RED" });
            t.push_line(l.as_str());
            let mut l = "02 Start Position : ".to_owned();
            push_str(&mut l, if self.right { "RIGHT" } else { "LEFT" });
            t.push_line(l.as_str());
            t.push_line("03 Hint : X toggles alliance, Y toggles start");
        } else if self.state == RobotState::Running {
            t.push_line("State : DRIVING");
            t.insert_number("flywheel_rpm".to_owned(), r.flywheel_rpm);
            t.insert_number("target_rpm".to_owned(), r.target_rpm);
            t.insert_number("heading_deg".to_owned(), r.heading_deg);
            t.insert_number("drive_power".to_owned(), r.drive_power);
            t.insert_number("left_stick_y".to_owned(), self.left_stick_y);
            t.push_line(r.servo_line.as_str());
            let ghost mid = t@.strings;
            let ghost nums = t@.numbers;
            let ghost t1 = t@;
            let mut i: usize = 0;
            while i < r.field_lines.len()
                invariant
                    i <= r.field_lines@.len(),
                    fl == crate::capture::report::strings_view(r.field_lines@),
                    t@.strings == mid + lines_as_entries(fl.take(i as int)),
                    t@.numbers == nums,
                    t@ == (TelemetryView { strings: t@.strings, ..t1 }),
                decreases r.field_lines@.len() - i,
            {
                t.push_line(r.field_lines[i].as_str());
                assert(lines_as_entries(fl.take(i + 1)) =~= lines_as_entries(fl.take(i as int)).push(
                    (Seq::<char>::empty(), fl[i as int]),
                ));
                i = i + 1;
            }
            assert(fl.take(i as int) =~= fl);
        }
        proof {
            reveal_strlit("i2c");
        }
        assert(t@.strings =~= rc_telemetry(
            old(self)@,
            r.timestamp,
            r.battery@,
            r.flywheel_rpm,
            r.target_rpm,
            r.heading_deg,
            r.drive_power,
            r.servo_line@,
            fl,
        ).1.strings);
        t
    }
}


/// The state a stand-in starts in: no Driver Station, robot not started,
/// alliance RED, start LEFT, two stored configurations (a local one and an
/// immutable built-in) and none active.
pub open spec fn rc_initial() -> RcView {
    RcView {
        ds: None,
        state: RobotState::NotStarted,
        opmode: Seq::empty(),
        blue: false,
        right: false,
        prev_x: false,
        prev_y: false,
        left_stick_y: 0,
        seq: 0,
        run_started: None,
        configs: seq![
            ConfigMetaView { is_dirty: false, location: "LOCAL_STORAGE"@, name: "practice_bot"@, resource_id: 1 },
            ConfigMetaView {
                is_dirty: false,
                location: "RESOURCE"@,
                name: "goBILDA Starter Bot"@,
                resource_id: 2132017159,
            },
        ],
        active_config: ConfigMetaView {
            is_dirty: false,
            location: "NONE"@,
            name: "<No Config Set>"@,
            resource_id: 0,
        },
        saved_xml: Seq::empty(),
        next_resource_id: 1,
        pending_activation: None,
        webcam_available: false,
        webcam_frame_num: 0,
    }
}

impl FakeRc {
    pub fn new() -> (r: FakeRc)
        ensures
            r@ == rc_initial(),
    {
        let mut configs: Vec<ConfigMeta> = Vec::new();
        configs.push(ConfigMeta {
            is_dirty: false,
            location: "LOCAL_STORAGE".to_owned(),
            name: "practice_bot".to_owned(),
            resource_id: 1,
        });
        configs.push(ConfigMeta {
            is_dirty: false,
            location: "RESOURCE".to_owned(),
            name: "goBILDA Starter Bot".to_owned(),
            resource_id: 2132017159,
        });
        let r = FakeRc {
            ds: None,
            state: RobotState::NotStarted,
            opmode: String::new(),
            blue: false,
            right: false,
            prev_x: false,
            prev_y: false,
            left_stick_y: 0,
            seq: 0,
            run_started: None,
            configs,
            active_config: ConfigMeta {
                is_dirty: false,
                location: "NONE".to_owned(),
                name: "<No Config Set>".to_owned(),
                resource_id: 0,
            },
            saved_xml: Vec::new(),
            next_resource_id: 1,
            pending_activation: None,
            webcam_available: false,
            webcam_frame_num: 0,
        };
        assert(r@.configs =~= rc_initial().configs);
        assert(r@.saved_xml =~= Seq::<(Seq<char>, Seq<char>)>::empty());
        r
    }
}


/// Every unacknowledged command from the Driver Station is acknowledged
/// before anything else is sent: its sequence number and name, flagged.
pub proof fn commands_are_acknowledged_first(
    s: RcView,
    from: Endpoint,
    c: CommandView,
    now_ms: u64,
    meta: Option<ConfigMetaView>,
    save_meta: Option<ConfigMetaView>,
)
    requires
        s.ds == Some(from),
        !c.acknowledged,
    ensures
        ({
            let a = rc_step(s, RcEventView::Command { from, command: c, now_ms, meta, save_meta }).1;
            a.len() >= 1 && a[0] == RcActionView::Reply { to: from, packet: PacketView::Command(ack_view(c)) }
        }),
{
}

/// Heartbeats and commands from anyone but the Driver Station change
/// nothing and are not answered.
pub proof fn strangers_are_ignored(s: RcView, e: RcEventView)
    requires
        match e {
            RcEventView::Heartbeat { from, .. } => s.ds != Some(from),
            RcEventView::Command { from, .. } => s.ds != Some(from),
            _ => false,
        },
    ensures
        rc_step(s, e) == (s, Seq::<RcActionView>::empty()),
{
}

/// Outside INIT, the gamepad never changes the alliance or start position.
pub proof fn pattern_is_set_only_in_init(s: RcView, g: Gamepad)
    requires
        s.state != RobotState::Init,
    ensures
        rc_step(s, RcEventView::Gamepad { gamepad: g }).0.blue == s.blue,
        rc_step(s, RcEventView::Gamepad { gamepad: g }).0.right == s.right,
{
}


impl FakeRc {
    /// Whether `e` hands out a new resource id (see `needs_new_id`).
    pub fn takes_new_id(&self, e: &RcEvent) -> (r: bool)
        ensures
            r == needs_new_id(self@, e@),
    {
        match e {
            RcEvent::Command { from, command, save_meta, .. } => {
                self.ds == Some(*from) && !command.acknowledged && text::str_eq(
                    command.name.as_str(),
                    cmd::SAVE_CONFIGURATION,
                ) && after_semicolon(command.extra.as_str()).is_some() && match save_meta {
                    Some(m) => m.resource_id == 0,
                    None => false,
                }
            },
            _ => false,
        }
    }
}


// ---------------------------------------------------------------------------
// Camera frames
// ---------------------------------------------------------------------------

pub const CAM_WIDTH: u16 = 320;
pub const CAM_HEIGHT: u16 = 240;
/// JPEG quality of the test frames.
pub const CAM_QUALITY: u8 = 70;

/// The JPEG `jpeg_encoder` writes for RGB pixels `data` of a `width` by
/// `height` image at `quality`.
pub uninterp spec fn jpeg_rgb(data: Seq<u8>, width: u16, height: u16, quality: u8) -> Seq<u8>;

/// `jpeg_encoder::Encoder::new(.., quality).encode(data, width, height,
/// ColorType::Rgb)` into a `Vec`: it fails exactly when the image has no
/// pixels or `data` holds fewer than three bytes per pixel (writing to a
/// `Vec` cannot fail); otherwise the JPEG is a function of its arguments
/// alone, named `jpeg_rgb`.
#[verifier::external_body]
fn encode_jpeg(data: &[u8], width: u16, height: u16, quality: u8) -> (r: Option<Vec<u8>>)
    requires
        width as int * height as int * 3 <= usize::MAX,
    ensures
        match r {
            Some(v) => width > 0 && height > 0 && data@.len() >= width as int * height as int * 3 && v@
                == jpeg_rgb(data@, width, height, quality),
            None => !(width > 0 && height > 0 && data@.len() >= width as int * height as int * 3),
        },
{
    let mut out = Vec::new();
    match jpeg_encoder::Encoder::new(&mut out, quality).encode(data, width, height, jpeg_encoder::ColorType::Rgb) {
        Ok(()) => Some(out),
        Err(_) => None,
    }
}

/// A test frame's RGB pixels (320 by 240) as a JPEG; `None` when there are
/// too few of them.
pub fn frame_jpeg(rgb: &[u8]) -> (r: Option<Vec<u8>>)
    ensures
        match r {
            Some(v) => rgb@.len() >= 230400 && v@ == jpeg_rgb(rgb@, 320, 240, 70),
            None => rgb@.len() < 230400,
        },
{
    encode_jpeg(rgb, CAM_WIDTH, CAM_HEIGHT, CAM_QUALITY)
}


// ---------------------------------------------------------------------------
// Drawing on test frames
// ---------------------------------------------------------------------------

/// Pixel (`x`, `y`) of an RGB image `w` pixels wide.
pub open spec fn pixel(img: Seq<u8>, w: int, x: int, y: int) -> (u8, u8, u8) {
    let i = (y * w + x) * 3;
    (img[i], img[i + 1], img[i + 2])
}

pub open spec fn in_frame(w: int, h: int, x: int, y: int) -> bool {
    0 <= x < w && 0 <= y < h
}

/// An RGB image of `w` by `h` pixels whose byte indices fit an `i32`.
pub open spec fn image_shape(img: Seq<u8>, w: i32, h: i32) -> bool {
    0 <= w && 0 <= h && w * h * 3 <= i32::MAX && img.len() == w * h * 3
}

proof fn pixel_bounds(w: int, h: int, x: int, y: int)
    requires
        in_frame(w, h, x, y),
    ensures
        0 <= y * w + x < w * h,
{
    assert(0 <= y * w) by (nonlinear_arith)
        requires
            0 <= y,
            0 <= w,
    ;
    assert(y * w + w <= h * w) by (nonlinear_arith)
        requires
            y + 1 <= h,
            0 <= w,
    ;
    assert(h * w == w * h) by (nonlinear_arith);
}

proof fn pixels_apart(w: int, h: int, a: int, b: int, c: int, d: int)
    requires
        in_frame(w, h, a, b),
        in_frame(w, h, c, d),
        a != c || b != d,
    ensures
        b * w + a != d * w + c,
{
    if b < d {
        assert(b * w + w <= d * w) by (nonlinear_arith)
            requires
                b + 1 <= d,
                0 <= w,
        ;
    } else if d < b {
        assert(d * w + w <= b * w) by (nonlinear_arith)
            requires
                d + 1 <= b,
                0 <= w,
        ;
    }
}

/// Sets pixel (`x`, `y`) to `rgb` if it is in the frame.
pub fn put_pixel(img: &mut Vec<u8>, w: i32, h: i32, x: i32, y: i32, rgb: (u8, u8, u8))
    requires
        image_shape(old(img)@, w, h),
    ensures
        image_shape(final(img)@, w, h),
        forall|px: int, py: int|
            in_frame(w as int, h as int, px, py) ==> #[trigger] pixel(final(img)@, w as int, px, py) == if px
                == x && py == y {
                rgb
            } else {
                pixel(old(img)@, w as int, px, py)
            },
{
    if x < 0 || y < 0 || x >= w || y >= h {
        return;
    }
    proof {
        pixel_bounds(w as int, h as int, x as int, y as int);
    }
    let i = ((y * w + x) * 3) as usize;
    img.set(i, rgb.0);
    img.set(i + 1, rgb.1);
    img.set(i + 2, rgb.2);
    assert forall|px: int, py: int| in_frame(w as int, h as int, px, py) implies #[trigger] pixel(
        img@,
        w as int,
        px,
        py,
    ) == if px == x && py == y {
        rgb
    } else {
        pixel(old(img)@, w as int, px, py)
    } by {
        pixel_bounds(w as int, h as int, px, py);
        if !(px == x && py == y) {
            pixels_apart(w as int, h as int, px, py, x as int, y as int);
        }
    }
}

pub open spec fn in_rect(x: int, y: int, rw: int, rh: int, px: int, py: int) -> bool {
    x <= px < x + rw && y <= py < y + rh
}

/// Fills the `rw` by `rh` rectangle at (`x`, `y`) with `rgb`, as far as it
/// lies in the frame.
pub fn fill_rect(img: &mut Vec<u8>, w: i32, h: i32, x: i32, y: i32, rw: i32, rh: i32, rgb: (u8, u8, u8))
    requires
        image_shape(old(img)@, w, h),
        i32::MIN <= x + rw <= i32::MAX,
        i32::MIN <= y + rh <= i32::MAX,
    ensures
        image_shape(final(img)@, w, h),
        forall|px: int, py: int|
            in_frame(w as int, h as int, px, py) ==> #[trigger] pixel(final(img)@, w as int, px, py) == if in_rect(
                x as int,
                y as int,
                rw as int,
                rh as int,
                px,
                py,
            ) {
                rgb
            } else {
                pixel(old(img)@, w as int, px, py)
            },
{
    let ghost orig = img@;
    let mut yy = y;
    while yy < y + rh
        invariant
            image_shape(img@, w, h),
            i32::MIN <= y + rh <= i32::MAX,
            i32::MIN <= x + rw <= i32::MAX,
            yy >= y,
            yy == y || yy <= y + rh,
            orig == old(img)@,
            forall|px: int, py: int|
                in_frame(w as int, h as int, px, py) ==> #[trigger] pixel(img@, w as int, px, py) == if x <= px < x
                    + rw && y <= py < yy {
                    rgb
                } else {
                    pixel(orig, w as int, px, py)
                },
        decreases y + rh - yy,
    {
        let mut xx = x;
        while xx < x + rw
            invariant
                image_shape(img@, w, h),
                y <= yy < y + rh,
                i32::MIN <= y + rh <= i32::MAX,
                i32::MIN <= x + rw <= i32::MAX,
                xx >= x,
                xx == x || xx <= x + rw,
                orig == old(img)@,
                forall|px: int, py: int|
                    in_frame(w as int, h as int, px, py) ==> #[trigger] pixel(img@, w as int, px, py) == if (x <= px
                        < x + rw && y <= py < yy) || (py == yy && x <= px < xx) {
                        rgb
                    } else {
                        pixel(orig, w as int, px, py)
                    },
            decreases x + rw - xx,
        {
            put_pixel(img, w, h, xx, yy, rgb);
            xx = xx + 1;
        }
        yy = yy + 1;
    }
}

/// On the outline of the `rw` by `rh` rectangle at (`x`, `y`): its top and
/// bottom rows, and its left and right columns.
pub open spec fn on_outline(x: int, y: int, rw: int, rh: int, px: int, py: int) -> bool {
    ||| x <= px < x + rw && (py == y || py == y + rh - 1)
    ||| y <= py < y + rh && (px == x || px == x + rw - 1)
}

/// Draws the outline of the `rw` by `rh` rectangle at (`x`, `y`) in `rgb`,
/// as far as it lies in the frame.
pub fn draw_rect_outline(img: &mut Vec<u8>, w: i32, h: i32, x: i32, y: i32, rw: i32, rh: i32, rgb: (u8, u8, u8))
    requires
        image_shape(old(img)@, w, h),
        i32::MIN < x + rw <= i32::MAX,
        i32::MIN < y + rh <= i32::MAX,
    ensures
        image_shape(final(img)@, w, h),
        forall|px: int, py: int|
            in_frame(w as int, h as int, px, py) ==> #[trigger] pixel(final(img)@, w as int, px, py) == if on_outline(
                x as int,
                y as int,
                rw as int,
                rh as int,
                px,
                py,
            ) {
                rgb
            } else {
                pixel(old(img)@, w as int, px, py)
            },
{
    let ghost orig = img@;
    let mut xx = x;
    while xx < x + rw
        invariant
            image_shape(img@, w, h),
            i32::MIN < x + rw <= i32::MAX,
            i32::MIN < y + rh <= i32::MAX,
            xx >= x,
            xx == x || xx <= x + rw,
            orig == old(img)@,
            forall|px: int, py: int|
                in_frame(w as int, h as int, px, py) ==> #[trigger] pixel(img@, w as int, px, py) == if x <= px < xx
                    && (py == y || py == y + rh - 1) {
                    rgb
                } else {
                    pixel(orig, w as int, px, py)
                },
        decreases x + rw - xx,
    {
        put_pixel(img, w, h, xx, y, rgb);
        put_pixel(img, w, h, xx, y + rh - 1, rgb);
        xx = xx + 1;
    }
    let mut yy = y;
    while yy < y + rh
        invariant
            image_shape(img@, w, h),
            i32::MIN < x + rw <= i32::MAX,
            i32::MIN < y + rh <= i32::MAX,
            yy >= y,
            yy == y || yy <= y + rh,
            orig == old(img)@,
            forall|px: int, py: int|
                in_frame(w as int, h as int, px, py) ==> #[trigger] pixel(img@, w as int, px, py) == if (x <= px < x
                    + rw && (py == y || py == y + rh - 1)) || (y <= py < yy && (px == x || px == x + rw - 1)) {
                    rgb
                } else {
                    pixel(orig, w as int, px, py)
                },
        decreases y + rh - yy,
    {
        put_pixel(img, w, h, x, yy, rgb);
        put_pixel(img, w, h, x + rw - 1, yy, rgb);
        yy = yy + 1;
    }
}

} // verus!
