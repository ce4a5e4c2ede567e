//! Shared protocol enums.

use vstd::prelude::*;

verus! {

/// Robot lifecycle state reported by the RC in Heartbeat and Telemetry.
#[derive(Debug, Clone, Copy, PartialEq, Eq, Structural)]
pub enum RobotState {
    Unknown,
    NotStarted,
    Init,
    Running,
    Stopped,
    EmergencyStop,
}

/// The wire byte of a robot state: a signed byte, -1 (0xFF) for `Unknown`,
/// 0..=4 for the rest.
pub open spec fn robot_state_byte(s: RobotState) -> u8 {
    match s {
        RobotState::Unknown => 255,
        RobotState::NotStarted => 0,
        RobotState::Init => 1,
        RobotState::Running => 2,
        RobotState::Stopped => 3,
        RobotState::EmergencyStop => 4,
    }
}

/// The robot state a wire byte denotes; every byte outside 0..=4 reads as
/// `Unknown`.
pub open spec fn robot_state_of_byte(b: u8) -> RobotState {
    if b == 0 {
        RobotState::NotStarted
    } else if b == 1 {
        RobotState::Init
    } else if b == 2 {
        RobotState::Running
    } else if b == 3 {
        RobotState::Stopped
    } else if b == 4 {
        RobotState::EmergencyStop
    } else {
        RobotState::Unknown
    }
}

impl RobotState {
    /// Wire encoding is a signed byte: -1 Unknown, 0..=4 the rest.
    pub fn from_byte(b: u8) -> (s: RobotState)
        ensures
            s == robot_state_of_byte(b),
    {
        match b {
            0 => RobotState::NotStarted,
            1 => RobotState::Init,
            2 => RobotState::Running,
            3 => RobotState::Stopped,
            4 => RobotState::EmergencyStop,
            _ => RobotState::Unknown,
        }
    }

    pub fn to_byte(self) -> (b: u8)
        ensures
            b == robot_state_byte(self),
    {
        match self {
            RobotState::Unknown => 255,
            RobotState::NotStarted => 0,
            RobotState::Init => 1,
            RobotState::Running => 2,
            RobotState::Stopped => 3,
            RobotState::EmergencyStop => 4,
        }
    }
}

/// Decoding the byte of any robot state gives that state back.
pub proof fn robot_state_byte_round_trip(s: RobotState)
    ensures
        robot_state_of_byte(robot_state_byte(s)) == s,
{
}

/// Physical controller type advertised in Gamepad packets.
#[derive(Debug, Clone, Copy, PartialEq, Eq, Structural)]
pub enum GamepadType {
    Unknown,
    LogitechF310,
    Xbox360,
    SonyPs4,
    SonyPs4Kernel,
}

/// The wire byte of a gamepad type.
pub open spec fn gamepad_type_byte(t: GamepadType) -> u8 {
    match t {
        GamepadType::Unknown => 0,
        GamepadType::LogitechF310 => 1,
        GamepadType::Xbox360 => 2,
        GamepadType::SonyPs4 => 3,
        GamepadType::SonyPs4Kernel => 4,
    }
}

/// The gamepad type a wire byte denotes; bytes outside 1..=4 read as `Unknown`.
pub open spec fn gamepad_type_of_byte(b: u8) -> GamepadType {
    if b == 1 {
        GamepadType::LogitechF310
    } else if b == 2 {
        GamepadType::Xbox360
    } else if b == 3 {
        GamepadType::SonyPs4
    } else if b == 4 {
        GamepadType::SonyPs4Kernel
    } else {
        GamepadType::Unknown
    }
}

impl GamepadType {
    pub fn to_byte(self) -> (b: u8)
        ensures
            b == gamepad_type_byte(self),
    {
        match self {
            GamepadType::Unknown => 0,
            GamepadType::LogitechF310 => 1,
            GamepadType::Xbox360 => 2,
            GamepadType::SonyPs4 => 3,
            GamepadType::SonyPs4Kernel => 4,
        }
    }

    pub fn from_byte(b: u8) -> (t: GamepadType)
        ensures
            t == gamepad_type_of_byte(b),
    {
        match b {
            1 => GamepadType::LogitechF310,
            2 => GamepadType::Xbox360,
            3 => GamepadType::SonyPs4,
            4 => GamepadType::SonyPs4Kernel,
            _ => GamepadType::Unknown,
        }
    }
}

impl Default for GamepadType {
    fn default() -> (t: GamepadType)
        ensures
            t == GamepadType::Unknown,
    {
        GamepadType::Unknown
    }
}

/// Decoding the byte of any gamepad type gives that type back.
pub proof fn gamepad_type_byte_round_trip(t: GamepadType)
    ensures
        gamepad_type_of_byte(gamepad_type_byte(t)) == t,
{
}

/// Sentinel gamepad ID. The stock DS sends it for gamepads it composes
/// itself rather than raw HID devices.
pub const GAMEPAD_ID_SYNTHETIC: i32 = -2;

} // verus!
