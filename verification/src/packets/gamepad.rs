//! Gamepad state packet (uid 2), 65 bytes total.
//!
//! `user` (offset 46) selects: 1 = gamepad1, 2 = gamepad2.
//!
//! The analog axes and touchpad coordinates are IEEE-754 single-precision
//! values; this codec carries them as their 32-bit patterns (`f32::to_bits`),
//! which is exactly what travels on the wire.

use vstd::prelude::*;

use crate::types::{gamepad_type_byte, gamepad_type_of_byte, GamepadType, GAMEPAD_ID_SYNTHETIC};
use crate::wire::{self, header, i32_be, i64_be, u32_be, u32_of, u64_of, zeros, Error};

verus! {

#[derive(Debug, Clone, Copy, PartialEq, Eq, Structural)]
pub struct Gamepad {
    pub seq: u16,
    pub version: u8,
    pub user: u8,
    pub id: i32,
    pub timestamp: i64,
    pub gamepad_type: GamepadType,
    /// Axis values, as the bit patterns of their `f32` values.
    pub left_stick_x: u32,
    pub left_stick_y: u32,
    pub right_stick_x: u32,
    pub right_stick_y: u32,
    pub left_trigger: u32,
    pub right_trigger: u32,
    pub dpad_up: bool,
    pub dpad_down: bool,
    pub dpad_left: bool,
    pub dpad_right: bool,
    pub a: bool,
    pub b: bool,
    pub x: bool,
    pub y: bool,
    pub guide: bool,
    pub start: bool,
    pub back: bool,
    pub left_bumper: bool,
    pub right_bumper: bool,
    pub left_stick_button: bool,
    pub right_stick_button: bool,
    pub touchpad: bool,
    pub touchpad_finger_1: bool,
    pub touchpad_finger_2: bool,
    /// Touchpad coordinates, as the bit patterns of their `f32` values.
    pub touchpad_finger_1_x: u32,
    pub touchpad_finger_1_y: u32,
    pub touchpad_finger_2_x: u32,
    pub touchpad_finger_2_y: u32,
}

/// The idle gamepad the stock DS sends: version 5, gamepad1, synthetic id,
/// nothing pressed, every axis at 0.0 (bit pattern 0).
pub open spec fn default_gamepad() -> Gamepad {
    Gamepad {
        seq: 0,
        version: 5,
        user: 1,
        id: GAMEPAD_ID_SYNTHETIC,
        timestamp: 0,
        gamepad_type: GamepadType::Unknown,
        left_stick_x: 0,
        left_stick_y: 0,
        right_stick_x: 0,
        right_stick_y: 0,
        left_trigger: 0,
        right_trigger: 0,
        dpad_up: false,
        dpad_down: false,
        dpad_left: false,
        dpad_right: false,
        a: false,
        b: false,
        x: false,
        y: false,
        guide: false,
        start: false,
        back: false,
        left_bumper: false,
        right_bumper: false,
        left_stick_button: false,
        right_stick_button: false,
        touchpad: false,
        touchpad_finger_1: false,
        touchpad_finger_2: false,
        touchpad_finger_1_x: 0,
        touchpad_finger_1_y: 0,
        touchpad_finger_2_x: 0,
        touchpad_finger_2_y: 0,
    }
}

impl Default for Gamepad {
    fn default() -> (g: Gamepad)
        ensures
            g == default_gamepad(),
    {
        Gamepad {
            seq: 0,
            version: 5,
            user: 1,
            id: GAMEPAD_ID_SYNTHETIC,
            timestamp: 0,
            gamepad_type: GamepadType::Unknown,
            left_stick_x: 0,
            left_stick_y: 0,
            right_stick_x: 0,
            right_stick_y: 0,
            left_trigger: 0,
            right_trigger: 0,
            dpad_up: false,
            dpad_down: false,
            dpad_left: false,
            dpad_right: false,
            a: false,
            b: false,
            x: false,
            y: false,
            guide: false,
            start: false,
            back: false,
            left_bumper: false,
            right_bumper: false,
            left_stick_button: false,
            right_stick_button: false,
            touchpad: false,
            touchpad_finger_1: false,
            touchpad_finger_2: false,
            touchpad_finger_1_x: 0,
            touchpad_finger_1_y: 0,
            touchpad_finger_2_x: 0,
            touchpad_finger_2_y: 0,
        }
    }
}

/// The word with bit 17 down to bit 0 set as `k17` down to `k0` say 
#[verifier::opaque]
pub open spec fn flags_word(
    k17: bool,
    k16: bool,
    k15: bool,
    k14: bool,
    k13: bool,
    k12: bool,
    k11: bool,
    k10: bool,
    k9: bool,
    k8: bool,
    k7: bool,
    k6: bool,
    k5: bool,
    k4: bool,
    k3: bool,
    k2: bool,
    k1: bool,
    k0: bool,
) -> u32 {
    (if k17 { 1u32 << 17u32 } else { 0u32 })
        | (if k16 { 1u32 << 16u32 } else { 0u32 })
        | (if k15 { 1u32 << 15u32 } else { 0u32 })
        | (if k14 { 1u32 << 14u32 } else { 0u32 })
        | (if k13 { 1u32 << 13u32 } else { 0u32 })
        | (if k12 { 1u32 << 12u32 } else { 0u32 })
        | (if k11 { 1u32 << 11u32 } else { 0u32 })
        | (if k10 { 1u32 << 10u32 } else { 0u32 })
        | (if k9 { 1u32 << 9u32 } else { 0u32 })
        | (if k8 { 1u32 << 8u32 } else { 0u32 })
        | (if k7 { 1u32 << 7u32 } else { 0u32 })
        | (if k6 { 1u32 << 6u32 } else { 0u32 })
        | (if k5 { 1u32 << 5u32 } else { 0u32 })
        | (if k4 { 1u32 << 4u32 } else { 0u32 })
        | (if k3 { 1u32 << 3u32 } else { 0u32 })
        | (if k2 { 1u32 << 2u32 } else { 0u32 })
        | (if k1 { 1u32 << 1u32 } else { 0u32 })
        | (if k0 { 1u32 << 0u32 } else { 0u32 })
}

/// The 65 wire bytes of a gamepad (a 60-byte v5 payload).
#[verifier::opaque]
pub open spec fn gamepad_bytes(g: Gamepad) -> Seq<u8> {
    header(super::UID_GAMEPAD, 60, g.seq) + seq![g.version] + i32_be(g.id) + i64_be(g.timestamp)
        + u32_be(g.left_stick_x) + u32_be(g.left_stick_y) + u32_be(g.right_stick_x) + u32_be(
        g.right_stick_y,
    ) + u32_be(g.left_trigger) + u32_be(g.right_trigger) + u32_be(buttons_word(g)) + seq![
        g.user,
        gamepad_type_byte(g.gamepad_type),
        gamepad_type_byte(g.gamepad_type),
    ] + u32_be(g.touchpad_finger_1_x) + u32_be(g.touchpad_finger_1_y) + u32_be(
        g.touchpad_finger_2_x,
    ) + u32_be(g.touchpad_finger_2_y)
}

/// The big-endian `u32` at `off` of `buf`.
pub open spec fn word_at(buf: Seq<u8>, off: int) -> u32 {
    u32_of(buf[off], buf[off + 1], buf[off + 2], buf[off + 3])
}

/// The gamepad `buf` holds; anything shorter than 65 bytes is truncated.
pub open spec fn parse_gamepad(buf: Seq<u8>) -> Result<Gamepad, Error> {
    if buf.len() < 65 {
        Err(Error::Truncated)
    } else {
        let w = word_at(buf, 42);
        Ok(
            Gamepad {
                seq: wire::u16_of(buf[3], buf[4]),
                version: buf[5],
                id: word_at(buf, 6) as i32,
                timestamp: u64_of(buf.subrange(10, 18)) as i64,
                left_stick_x: word_at(buf, 18),
                left_stick_y: word_at(buf, 22),
                right_stick_x: word_at(buf, 26),
                right_stick_y: word_at(buf, 30),
                left_trigger: word_at(buf, 34),
                right_trigger: word_at(buf, 38),
                touchpad_finger_1: (w & (1u32 << 17u32)) != 0u32,
                touchpad_finger_2: (w & (1u32 << 16u32)) != 0u32,
                touchpad: (w & (1u32 << 15u32)) != 0u32,
                left_stick_button: (w & (1u32 << 14u32)) != 0u32,
                right_stick_button: (w & (1u32 << 13u32)) != 0u32,
                dpad_up: (w & (1u32 << 12u32)) != 0u32,
                dpad_down: (w & (1u32 << 11u32)) != 0u32,
                dpad_left: (w & (1u32 << 10u32)) != 0u32,
                dpad_right: (w & (1u32 << 9u32)) != 0u32,
                a: (w & (1u32 << 8u32)) != 0u32,
                b: (w & (1u32 << 7u32)) != 0u32,
                x: (w & (1u32 << 6u32)) != 0u32,
                y: (w & (1u32 << 5u32)) != 0u32,
                guide: (w & (1u32 << 4u32)) != 0u32,
                start: (w & (1u32 << 3u32)) != 0u32,
                back: (w & (1u32 << 2u32)) != 0u32,
                left_bumper: (w & (1u32 << 1u32)) != 0u32,
                right_bumper: (w & (1u32 << 0u32)) != 0u32,
                user: buf[46],
                gamepad_type: gamepad_type_of_byte(buf[48]),
                touchpad_finger_1_x: word_at(buf, 49),
                touchpad_finger_1_y: word_at(buf, 53),
                touchpad_finger_2_x: word_at(buf, 57),
                touchpad_finger_2_y: word_at(buf, 61),
            },
        )
    }
}

impl Gamepad {
    pub const TOTAL_LEN: usize = 65;

    pub fn buttons_bitfield(&self) -> (w: u32)
        ensures
            w == flags_word(
                self.touchpad_finger_1,
                self.touchpad_finger_2,
                self.touchpad,
                self.left_stick_button,
                self.right_stick_button,
                self.dpad_up,
                self.dpad_down,
                self.dpad_left,
                self.dpad_right,
                self.a,
                self.b,
                self.x,
                self.y,
                self.guide,
                self.start,
                self.back,
                self.left_bumper,
                self.right_bumper,
            ),
    {
        reveal(flags_word);
        (if self.touchpad_finger_1 { 1u32 << 17u32 } else { 0u32 })
            | (if self.touchpad_finger_2 { 1u32 << 16u32 } else { 0u32 })
            | (if self.touchpad { 1u32 << 15u32 } else { 0u32 })
            | (if self.left_stick_button { 1u32 << 14u32 } else { 0u32 })
            | (if self.right_stick_button { 1u32 << 13u32 } else { 0u32 })
            | (if self.dpad_up { 1u32 << 12u32 } else { 0u32 })
            | (if self.dpad_down { 1u32 << 11u32 } else { 0u32 })
            | (if self.dpad_left { 1u32 << 10u32 } else { 0u32 })
            | (if self.dpad_right { 1u32 << 9u32 } else { 0u32 })
            | (if self.a { 1u32 << 8u32 } else { 0u32 })
            | (if self.b { 1u32 << 7u32 } else { 0u32 })
            | (if self.x { 1u32 << 6u32 } else { 0u32 })
            | (if self.y { 1u32 << 5u32 } else { 0u32 })
            | (if self.guide { 1u32 << 4u32 } else { 0u32 })
            | (if self.start { 1u32 << 3u32 } else { 0u32 })
            | (if self.back { 1u32 << 2u32 } else { 0u32 })
            | (if self.left_bumper { 1u32 << 1u32 } else { 0u32 })
            | (if self.right_bumper { 1u32 << 0u32 } else { 0u32 })
    }

    pub fn serialize(&self) -> (buf: Vec<u8>)
        ensures
            buf@ == gamepad_bytes(*self),
    {
        let mut buf = wire::with_header(super::UID_GAMEPAD, 60, self.seq);
        let ghost mut p = header(super::UID_GAMEPAD, 60, self.seq);
        let ghost mut m: nat = 60;
        wire::fill_u8(&mut buf, 5, self.version, Ghost(p), Ghost(m));
        proof {
            p = p + seq![self.version];
            m = (m - 1) as nat;
        }
        wire::fill_i32(&mut buf, 6, self.id, Ghost(p), Ghost(m));
        proof {
            p = p + i32_be(self.id);
            m = (m - 4) as nat;
        }
        wire::fill_i64(&mut buf, 10, self.timestamp, Ghost(p), Ghost(m));
        proof {
            p = p + i64_be(self.timestamp);
            m = (m - 8) as nat;
        }
        wire::fill_u32(&mut buf, 18, self.left_stick_x, Ghost(p), Ghost(m));
        proof {
            p = p + u32_be(self.left_stick_x);
            m = (m - 4) as nat;
        }
        wire::fill_u32(&mut buf, 22, self.left_stick_y, Ghost(p), Ghost(m));
        proof {
            p = p + u32_be(self.left_stick_y);
            m = (m - 4) as nat;
        }
        wire::fill_u32(&mut buf, 26, self.right_stick_x, Ghost(p), Ghost(m));
        proof {
            p = p + u32_be(self.right_stick_x);
            m = (m - 4) as nat;
        }
        wire::fill_u32(&mut buf, 30, self.right_stick_y, Ghost(p), Ghost(m));
        proof {
            p = p + u32_be(self.right_stick_y);
            m = (m - 4) as nat;
        }
        wire::fill_u32(&mut buf, 34, self.left_trigger, Ghost(p), Ghost(m));
        proof {
            p = p + u32_be(self.left_trigger);
            m = (m - 4) as nat;
        }
        wire::fill_u32(&mut buf, 38, self.right_trigger, Ghost(p), Ghost(m));
        proof {
            p = p + u32_be(self.right_trigger);
            m = (m - 4) as nat;
        }
        let buttons = self.buttons_bitfield();
        wire::fill_u32(&mut buf, 42, buttons, Ghost(p), Ghost(m));
        proof {
            p = p + u32_be(buttons);
            m = (m - 4) as nat;
        }
        wire::fill_u8(&mut buf, 46, self.user, Ghost(p), Ghost(m));
        proof {
            p = p + seq![self.user];
            m = (m - 1) as nat;
        }
        let t = self.gamepad_type.to_byte();
        wire::fill_u8(&mut buf, 47, t, Ghost(p), Ghost(m));
        proof {
            p = p + seq![t];
            m = (m - 1) as nat;
        }
        wire::fill_u8(&mut buf, 48, t, Ghost(p), Ghost(m));
        proof {
            p = p + seq![t];
            m = (m - 1) as nat;
        }
        wire::fill_u32(&mut buf, 49, self.touchpad_finger_1_x, Ghost(p), Ghost(m));
        proof {
            p = p + u32_be(self.touchpad_finger_1_x);
            m = (m - 4) as nat;
        }
        wire::fill_u32(&mut buf, 53, self.touchpad_finger_1_y, Ghost(p), Ghost(m));
        proof {
            p = p + u32_be(self.touchpad_finger_1_y);
            m = (m - 4) as nat;
        }
        wire::fill_u32(&mut buf, 57, self.touchpad_finger_2_x, Ghost(p), Ghost(m));
        proof {
            p = p + u32_be(self.touchpad_finger_2_x);
            m = (m - 4) as nat;
        }
        wire::fill_u32(&mut buf, 61, self.touchpad_finger_2_y, Ghost(p), Ghost(m));
        proof {
            p = p + u32_be(self.touchpad_finger_2_y);
            m = (m - 4) as nat;
        }
        reveal(gamepad_bytes);
        assert(buf@ =~= gamepad_bytes(*self));
        buf
    }

    #[verifier::rlimit(60)]
    pub fn parse(buf: &[u8]) -> (r: Result<Gamepad, Error>)
        ensures
            r == parse_gamepad(buf@),
    {
        let buttons = wire::get_u32(buf, 42)?;
        let type_byte = match wire::get_u8(buf, 48) {
            Ok(t) => t,
            Err(_) => wire::get_u8(buf, 47)?,
        };
        let g = Gamepad {
            seq: wire::get_u16(buf, 3)?,
            version: wire::get_u8(buf, 5)?,
            id: wire::get_i32(buf, 6)?,
            timestamp: wire::get_i64(buf, 10)?,
            left_stick_x: wire::get_u32(buf, 18)?,
            left_stick_y: wire::get_u32(buf, 22)?,
            right_stick_x: wire::get_u32(buf, 26)?,
            right_stick_y: wire::get_u32(buf, 30)?,
            left_trigger: wire::get_u32(buf, 34)?,
            right_trigger: wire::get_u32(buf, 38)?,
            touchpad_finger_1: buttons & (1u32 << 17u32) != 0,
            touchpad_finger_2: buttons & (1u32 << 16u32) != 0,
            touchpad: buttons & (1u32 << 15u32) != 0,
            left_stick_button: buttons & (1u32 << 14u32) != 0,
            right_stick_button: buttons & (1u32 << 13u32) != 0,
            dpad_up: buttons & (1u32 << 12u32) != 0,
            dpad_down: buttons & (1u32 << 11u32) != 0,
            dpad_left: buttons & (1u32 << 10u32) != 0,
            dpad_right: buttons & (1u32 << 9u32) != 0,
            a: buttons & (1u32 << 8u32) != 0,
            b: buttons & (1u32 << 7u32) != 0,
            x: buttons & (1u32 << 6u32) != 0,
            y: buttons & (1u32 << 5u32) != 0,
            guide: buttons & (1u32 << 4u32) != 0,
            start: buttons & (1u32 << 3u32) != 0,
            back: buttons & (1u32 << 2u32) != 0,
            left_bumper: buttons & (1u32 << 1u32) != 0,
            right_bumper: buttons & (1u32 << 0u32) != 0,
            user: wire::get_u8(buf, 46)?,
            gamepad_type: GamepadType::from_byte(type_byte),
            touchpad_finger_1_x: wire::get_u32(buf, 49)?,
            touchpad_finger_1_y: wire::get_u32(buf, 53)?,
            touchpad_finger_2_x: wire::get_u32(buf, 57)?,
            touchpad_finger_2_y: wire::get_u32(buf, 61)?,
        };
        proof {
            assert(buf@.subrange(10, 18) =~= seq![
                buf@[10],
                buf@[11],
                buf@[12],
                buf@[13],
                buf@[14],
                buf@[15],
                buf@[16],
                buf@[17],
            ]);
        }
        Ok(g)
    }
}

/// Bit `k` of the flags word is the `k`-th flag.
proof fn flags_word_bits(
    k17: bool,
    k16: bool,
    k15: bool,
    k14: bool,
    k13: bool,
    k12: bool,
    k11: bool,
    k10: bool,
    k9: bool,
    k8: bool,
    k7: bool,
    k6: bool,
    k5: bool,
    k4: bool,
    k3: bool,
    k2: bool,
    k1: bool,
    k0: bool,
) by (bit_vector)
    ensures
        ((flags_word(k17, k16, k15, k14, k13, k12, k11, k10, k9, k8, k7, k6, k5, k4, k3, k2, k1, k0) & (1u32 << 17u32)) != 0u32) == k17,
        ((flags_word(k17, k16, k15, k14, k13, k12, k11, k10, k9, k8, k7, k6, k5, k4, k3, k2, k1, k0) & (1u32 << 16u32)) != 0u32) == k16,
        ((flags_word(k17, k16, k15, k14, k13, k12, k11, k10, k9, k8, k7, k6, k5, k4, k3, k2, k1, k0) & (1u32 << 15u32)) != 0u32) == k15,
        ((flags_word(k17, k16, k15, k14, k13, k12, k11, k10, k9, k8, k7, k6, k5, k4, k3, k2, k1, k0) & (1u32 << 14u32)) != 0u32) == k14,
        ((flags_word(k17, k16, k15, k14, k13, k12, k11, k10, k9, k8, k7, k6, k5, k4, k3, k2, k1, k0) & (1u32 << 13u32)) != 0u32) == k13,
        ((flags_word(k17, k16, k15, k14, k13, k12, k11, k10, k9, k8, k7, k6, k5, k4, k3, k2, k1, k0) & (1u32 << 12u32)) != 0u32) == k12,
        ((flags_word(k17, k16, k15, k14, k13, k12, k11, k10, k9, k8, k7, k6, k5, k4, k3, k2, k1, k0) & (1u32 << 11u32)) != 0u32) == k11,
        ((flags_word(k17, k16, k15, k14, k13, k12, k11, k10, k9, k8, k7, k6, k5, k4, k3, k2, k1, k0) & (1u32 << 10u32)) != 0u32) == k10,
        ((flags_word(k17, k16, k15, k14, k13, k12, k11, k10, k9, k8, k7, k6, k5, k4, k3, k2, k1, k0) & (1u32 << 9u32)) != 0u32) == k9,
        ((flags_word(k17, k16, k15, k14, k13, k12, k11, k10, k9, k8, k7, k6, k5, k4, k3, k2, k1, k0) & (1u32 << 8u32)) != 0u32) == k8,
        ((flags_word(k17, k16, k15, k14, k13, k12, k11, k10, k9, k8, k7, k6, k5, k4, k3, k2, k1, k0) & (1u32 << 7u32)) != 0u32) == k7,
        ((flags_word(k17, k16, k15, k14, k13, k12, k11, k10, k9, k8, k7, k6, k5, k4, k3, k2, k1, k0) & (1u32 << 6u32)) != 0u32) == k6,
        ((flags_word(k17, k16, k15, k14, k13, k12, k11, k10, k9, k8, k7, k6, k5, k4, k3, k2, k1, k0) & (1u32 << 5u32)) != 0u32) == k5,
        ((flags_word(k17, k16, k15, k14, k13, k12, k11, k10, k9, k8, k7, k6, k5, k4, k3, k2, k1, k0) & (1u32 << 4u32)) != 0u32) == k4,
        ((flags_word(k17, k16, k15, k14, k13, k12, k11, k10, k9, k8, k7, k6, k5, k4, k3, k2, k1, k0) & (1u32 << 3u32)) != 0u32) == k3,
        ((flags_word(k17, k16, k15, k14, k13, k12, k11, k10, k9, k8, k7, k6, k5, k4, k3, k2, k1, k0) & (1u32 << 2u32)) != 0u32) == k2,
        ((flags_word(k17, k16, k15, k14, k13, k12, k11, k10, k9, k8, k7, k6, k5, k4, k3, k2, k1, k0) & (1u32 << 1u32)) != 0u32) == k1,
        ((flags_word(k17, k16, k15, k14, k13, k12, k11, k10, k9, k8, k7, k6, k5, k4, k3, k2, k1, k0) & (1u32 << 0u32)) != 0u32) == k0,
{
}

/// Every button flag reads back from the buttons word.
pub proof fn buttons_round_trip(g: Gamepad)
    ensures
        ((flags_word(
                g.touchpad_finger_1,
                g.touchpad_finger_2,
                g.touchpad,
                g.left_stick_button,
                g.right_stick_button,
                g.dpad_up,
                g.dpad_down,
                g.dpad_left,
                g.dpad_right,
                g.a,
                g.b,
                g.x,
                g.y,
                g.guide,
                g.start,
                g.back,
                g.left_bumper,
                g.right_bumper,
            ) & (1u32 << 17u32)) != 0u32) == g.touchpad_finger_1,
        ((flags_word(
                g.touchpad_finger_1,
                g.touchpad_finger_2,
                g.touchpad,
                g.left_stick_button,
                g.right_stick_button,
                g.dpad_up,
                g.dpad_down,
                g.dpad_left,
                g.dpad_right,
                g.a,
                g.b,
                g.x,
                g.y,
                g.guide,
                g.start,
                g.back,
                g.left_bumper,
                g.right_bumper,
            ) & (1u32 << 16u32)) != 0u32) == g.touchpad_finger_2,
        ((flags_word(
                g.touchpad_finger_1,
                g.touchpad_finger_2,
                g.touchpad,
                g.left_stick_button,
                g.right_stick_button,
                g.dpad_up,
                g.dpad_down,
                g.dpad_left,
                g.dpad_right,
                g.a,
                g.b,
                g.x,
                g.y,
                g.guide,
                g.start,
                g.back,
                g.left_bumper,
                g.right_bumper,
            ) & (1u32 << 15u32)) != 0u32) == g.touchpad,
        ((flags_word(
                g.touchpad_finger_1,
                g.touchpad_finger_2,
                g.touchpad,
                g.left_stick_button,
                g.right_stick_button,
                g.dpad_up,
                g.dpad_down,
                g.dpad_left,
                g.dpad_right,
                g.a,
                g.b,
                g.x,
                g.y,
                g.guide,
                g.start,
                g.back,
                g.left_bumper,
                g.right_bumper,
            ) & (1u32 << 14u32)) != 0u32) == g.left_stick_button,
        ((flags_word(
                g.touchpad_finger_1,
                g.touchpad_finger_2,
                g.touchpad,
                g.left_stick_button,
                g.right_stick_button,
                g.dpad_up,
                g.dpad_down,
                g.dpad_left,
                g.dpad_right,
                g.a,
                g.b,
                g.x,
                g.y,
                g.guide,
                g.start,
                g.back,
                g.left_bumper,
                g.right_bumper,
            ) & (1u32 << 13u32)) != 0u32) == g.right_stick_button,
        ((flags_word(
                g.touchpad_finger_1,
                g.touchpad_finger_2,
                g.touchpad,
                g.left_stick_button,
                g.right_stick_button,
                g.dpad_up,
                g.dpad_down,
                g.dpad_left,
                g.dpad_right,
                g.a,
                g.b,
                g.x,
                g.y,
                g.guide,
                g.start,
                g.back,
                g.left_bumper,
                g.right_bumper,
            ) & (1u32 << 12u32)) != 0u32) == g.dpad_up,
        ((flags_word(
                g.touchpad_finger_1,
                g.touchpad_finger_2,
                g.touchpad,
                g.left_stick_button,
                g.right_stick_button,
                g.dpad_up,
                g.dpad_down,
                g.dpad_left,
                g.dpad_right,
                g.a,
                g.b,
                g.x,
                g.y,
                g.guide,
                g.start,
                g.back,
                g.left_bumper,
                g.right_bumper,
            ) & (1u32 << 11u32)) != 0u32) == g.dpad_down,
        ((flags_word(
                g.touchpad_finger_1,
                g.touchpad_finger_2,
                g.touchpad,
                g.left_stick_button,
                g.right_stick_button,
                g.dpad_up,
                g.dpad_down,
                g.dpad_left,
                g.dpad_right,
                g.a,
                g.b,
                g.x,
                g.y,
                g.guide,
                g.start,
                g.back,
                g.left_bumper,
                g.right_bumper,
            ) & (1u32 << 10u32)) != 0u32) == g.dpad_left,
        ((flags_word(
                g.touchpad_finger_1,
                g.touchpad_finger_2,
                g.touchpad,
                g.left_stick_button,
                g.right_stick_button,
                g.dpad_up,
                g.dpad_down,
                g.dpad_left,
                g.dpad_right,
                g.a,
                g.b,
                g.x,
                g.y,
                g.guide,
                g.start,
                g.back,
                g.left_bumper,
                g.right_bumper,
            ) & (1u32 << 9u32)) != 0u32) == g.dpad_right,
        ((flags_word(
                g.touchpad_finger_1,
                g.touchpad_finger_2,
                g.touchpad,
                g.left_stick_button,
                g.right_stick_button,
                g.dpad_up,
                g.dpad_down,
                g.dpad_left,
                g.dpad_right,
                g.a,
                g.b,
                g.x,
                g.y,
                g.guide,
                g.start,
                g.back,
                g.left_bumper,
                g.right_bumper,
            ) & (1u32 << 8u32)) != 0u32) == g.a,
        ((flags_word(
                g.touchpad_finger_1,
                g.touchpad_finger_2,
                g.touchpad,
                g.left_stick_button,
                g.right_stick_button,
                g.dpad_up,
                g.dpad_down,
                g.dpad_left,
                g.dpad_right,
                g.a,
                g.b,
                g.x,
                g.y,
                g.guide,
                g.start,
                g.back,
                g.left_bumper,
                g.right_bumper,
            ) & (1u32 << 7u32)) != 0u32) == g.b,
        ((flags_word(
                g.touchpad_finger_1,
                g.touchpad_finger_2,
                g.touchpad,
                g.left_stick_button,
                g.right_stick_button,
                g.dpad_up,
                g.dpad_down,
                g.dpad_left,
                g.dpad_right,
                g.a,
                g.b,
                g.x,
                g.y,
                g.guide,
                g.start,
                g.back,
                g.left_bumper,
                g.right_bumper,
            ) & (1u32 << 6u32)) != 0u32) == g.x,
        ((flags_word(
                g.touchpad_finger_1,
                g.touchpad_finger_2,
                g.touchpad,
                g.left_stick_button,
                g.right_stick_button,
                g.dpad_up,
                g.dpad_down,
                g.dpad_left,
                g.dpad_right,
                g.a,
                g.b,
                g.x,
                g.y,
                g.guide,
                g.start,
                g.back,
                g.left_bumper,
                g.right_bumper,
            ) & (1u32 << 5u32)) != 0u32) == g.y,
        ((flags_word(
                g.touchpad_finger_1,
                g.touchpad_finger_2,
                g.touchpad,
                g.left_stick_button,
                g.right_stick_button,
                g.dpad_up,
                g.dpad_down,
                g.dpad_left,
                g.dpad_right,
                g.a,
                g.b,
                g.x,
                g.y,
                g.guide,
                g.start,
                g.back,
                g.left_bumper,
                g.right_bumper,
            ) & (1u32 << 4u32)) != 0u32) == g.guide,
        ((flags_word(
                g.touchpad_finger_1,
                g.touchpad_finger_2,
                g.touchpad,
                g.left_stick_button,
                g.right_stick_button,
                g.dpad_up,
                g.dpad_down,
                g.dpad_left,
                g.dpad_right,
                g.a,
                g.b,
                g.x,
                g.y,
                g.guide,
                g.start,
                g.back,
                g.left_bumper,
                g.right_bumper,
            ) & (1u32 << 3u32)) != 0u32) == g.start,
        ((flags_word(
                g.touchpad_finger_1,
                g.touchpad_finger_2,
                g.touchpad,
                g.left_stick_button,
                g.right_stick_button,
                g.dpad_up,
                g.dpad_down,
                g.dpad_left,
                g.dpad_right,
                g.a,
                g.b,
                g.x,
                g.y,
                g.guide,
                g.start,
                g.back,
                g.left_bumper,
                g.right_bumper,
            ) & (1u32 << 2u32)) != 0u32) == g.back,
        ((flags_word(
                g.touchpad_finger_1,
                g.touchpad_finger_2,
                g.touchpad,
                g.left_stick_button,
                g.right_stick_button,
                g.dpad_up,
                g.dpad_down,
                g.dpad_left,
                g.dpad_right,
                g.a,
                g.b,
                g.x,
                g.y,
                g.guide,
                g.start,
                g.back,
                g.left_bumper,
                g.right_bumper,
            ) & (1u32 << 1u32)) != 0u32) == g.left_bumper,
        ((flags_word(
                g.touchpad_finger_1,
                g.touchpad_finger_2,
                g.touchpad,
                g.left_stick_button,
                g.right_stick_button,
                g.dpad_up,
                g.dpad_down,
                g.dpad_left,
                g.dpad_right,
                g.a,
                g.b,
                g.x,
                g.y,
                g.guide,
                g.start,
                g.back,
                g.left_bumper,
                g.right_bumper,
            ) & (1u32 << 0u32)) != 0u32) == g.right_bumper,
{
    flags_word_bits(
        g.touchpad_finger_1,
        g.touchpad_finger_2,
        g.touchpad,
        g.left_stick_button,
        g.right_stick_button,
        g.dpad_up,
        g.dpad_down,
        g.dpad_left,
        g.dpad_right,
        g.a,
        g.b,
        g.x,
        g.y,
        g.guide,
        g.start,
        g.back,
        g.left_bumper,
        g.right_bumper,
    );
}

/// The buttons word of a gamepad.
pub open spec fn buttons_word(g: Gamepad) -> u32 {
    flags_word(g.touchpad_finger_1, g.touchpad_finger_2, g.touchpad, g.left_stick_button, g.right_stick_button, g.dpad_up, g.dpad_down, g.dpad_left, g.dpad_right, g.a, g.b, g.x, g.y, g.guide, g.start, g.back, g.left_bumper, g.right_bumper)
}

/// Where each field of a gamepad sits in its bytes.
pub proof fn gamepad_layout(g: Gamepad)
    ensures
        gamepad_bytes(g).len() == 65,
        gamepad_bytes(g)[0] == super::UID_GAMEPAD,
        gamepad_bytes(g).subrange(3, 5) == wire::u16_be(g.seq),
        gamepad_bytes(g)[5] == g.version,
        gamepad_bytes(g).subrange(10, 18) == i64_be(g.timestamp),
        gamepad_bytes(g).subrange(6, 10) == i32_be(g.id),
        gamepad_bytes(g).subrange(18, 22) == u32_be(g.left_stick_x),
        gamepad_bytes(g).subrange(22, 26) == u32_be(g.left_stick_y),
        gamepad_bytes(g).subrange(26, 30) == u32_be(g.right_stick_x),
        gamepad_bytes(g).subrange(30, 34) == u32_be(g.right_stick_y),
        gamepad_bytes(g).subrange(34, 38) == u32_be(g.left_trigger),
        gamepad_bytes(g).subrange(38, 42) == u32_be(g.right_trigger),
        gamepad_bytes(g).subrange(42, 46) == u32_be(buttons_word(g)),
        gamepad_bytes(g).subrange(49, 53) == u32_be(g.touchpad_finger_1_x),
        gamepad_bytes(g).subrange(53, 57) == u32_be(g.touchpad_finger_1_y),
        gamepad_bytes(g).subrange(57, 61) == u32_be(g.touchpad_finger_2_x),
        gamepad_bytes(g).subrange(61, 65) == u32_be(g.touchpad_finger_2_y),
        gamepad_bytes(g)[46] == g.user,
        gamepad_bytes(g)[48] == gamepad_type_byte(g.gamepad_type),
{
    reveal(gamepad_bytes);
    let b = gamepad_bytes(g);
    assert(b.subrange(3, 5) =~= wire::u16_be(g.seq));
    assert(b.subrange(10, 18) =~= i64_be(g.timestamp));
    assert(b.subrange(6, 10) =~= i32_be(g.id));
    assert(b.subrange(18, 22) =~= u32_be(g.left_stick_x));
    assert(b.subrange(22, 26) =~= u32_be(g.left_stick_y));
    assert(b.subrange(26, 30) =~= u32_be(g.right_stick_x));
    assert(b.subrange(30, 34) =~= u32_be(g.right_stick_y));
    assert(b.subrange(34, 38) =~= u32_be(g.left_trigger));
    assert(b.subrange(38, 42) =~= u32_be(g.right_trigger));
    assert(b.subrange(42, 46) =~= u32_be(buttons_word(g)));
    assert(b.subrange(49, 53) =~= u32_be(g.touchpad_finger_1_x));
    assert(b.subrange(53, 57) =~= u32_be(g.touchpad_finger_1_y));
    assert(b.subrange(57, 61) =~= u32_be(g.touchpad_finger_2_x));
    assert(b.subrange(61, 65) =~= u32_be(g.touchpad_finger_2_y));
}

/// Parsing the bytes of any gamepad gives it back.
#[verifier::rlimit(100)]
pub proof fn gamepad_round_trip(g: Gamepad)
    ensures
        parse_gamepad(gamepad_bytes(g)) == Ok::<Gamepad, Error>(g),
{
    let b = gamepad_bytes(g);
    gamepad_layout(g);
    let w = buttons_word(g);
    buttons_round_trip(g);
    wire::u16_round_trip(g.seq);
    wire::i32_round_trip(g.id);
    wire::i64_round_trip(g.timestamp);
    wire::u32_round_trip(g.left_stick_x);
    assert(word_at(b, 18) == g.left_stick_x) by {
        assert(b[18] == b.subrange(18, 22)[0] && b[19] == b.subrange(18, 22)[1] && b[20] == b.subrange(18, 22)[2] && b[21] == b.subrange(18, 22)[3]);
    }
    wire::u32_round_trip(g.left_stick_y);
    assert(word_at(b, 22) == g.left_stick_y) by {
        assert(b[22] == b.subrange(22, 26)[0] && b[23] == b.subrange(22, 26)[1] && b[24] == b.subrange(22, 26)[2] && b[25] == b.subrange(22, 26)[3]);
    }
    wire::u32_round_trip(g.right_stick_x);
    assert(word_at(b, 26) == g.right_stick_x) by {
        assert(b[26] == b.subrange(26, 30)[0] && b[27] == b.subrange(26, 30)[1] && b[28] == b.subrange(26, 30)[2] && b[29] == b.subrange(26, 30)[3]);
    }
    wire::u32_round_trip(g.right_stick_y);
    assert(word_at(b, 30) == g.right_stick_y) by {
        assert(b[30] == b.subrange(30, 34)[0] && b[31] == b.subrange(30, 34)[1] && b[32] == b.subrange(30, 34)[2] && b[33] == b.subrange(30, 34)[3]);
    }
    wire::u32_round_trip(g.left_trigger);
    assert(word_at(b, 34) == g.left_trigger) by {
        assert(b[34] == b.subrange(34, 38)[0] && b[35] == b.subrange(34, 38)[1] && b[36] == b.subrange(34, 38)[2] && b[37] == b.subrange(34, 38)[3]);
    }
    wire::u32_round_trip(g.right_trigger);
    assert(word_at(b, 38) == g.right_trigger) by {
        assert(b[38] == b.subrange(38, 42)[0] && b[39] == b.subrange(38, 42)[1] && b[40] == b.subrange(38, 42)[2] && b[41] == b.subrange(38, 42)[3]);
    }
    wire::u32_round_trip(buttons_word(g));
    assert(word_at(b, 42) == buttons_word(g)) by {
        assert(b[42] == b.subrange(42, 46)[0] && b[43] == b.subrange(42, 46)[1] && b[44] == b.subrange(42, 46)[2] && b[45] == b.subrange(42, 46)[3]);
    }
    wire::u32_round_trip(g.touchpad_finger_1_x);
    assert(word_at(b, 49) == g.touchpad_finger_1_x) by {
        assert(b[49] == b.subrange(49, 53)[0] && b[50] == b.subrange(49, 53)[1] && b[51] == b.subrange(49, 53)[2] && b[52] == b.subrange(49, 53)[3]);
    }
    wire::u32_round_trip(g.touchpad_finger_1_y);
    assert(word_at(b, 53) == g.touchpad_finger_1_y) by {
        assert(b[53] == b.subrange(53, 57)[0] && b[54] == b.subrange(53, 57)[1] && b[55] == b.subrange(53, 57)[2] && b[56] == b.subrange(53, 57)[3]);
    }
    wire::u32_round_trip(g.touchpad_finger_2_x);
    assert(word_at(b, 57) == g.touchpad_finger_2_x) by {
        assert(b[57] == b.subrange(57, 61)[0] && b[58] == b.subrange(57, 61)[1] && b[59] == b.subrange(57, 61)[2] && b[60] == b.subrange(57, 61)[3]);
    }
    wire::u32_round_trip(g.touchpad_finger_2_y);
    assert(word_at(b, 61) == g.touchpad_finger_2_y) by {
        assert(b[61] == b.subrange(61, 65)[0] && b[62] == b.subrange(61, 65)[1] && b[63] == b.subrange(61, 65)[2] && b[64] == b.subrange(61, 65)[3]);
    }
    assert(word_at(b, 6) == #[verifier::truncate] (g.id as u32)) by {
        wire::u32_round_trip(#[verifier::truncate] (g.id as u32));
        assert(b[6] == b.subrange(6, 10)[0] && b[7] == b.subrange(6, 10)[1] && b[8] == b.subrange(6, 10)[2] && b[9] == b.subrange(6, 10)[3]);
    }
    assert(wire::u16_of(b[3], b[4]) == g.seq) by {
        assert(b[3] == b.subrange(3, 5)[0] && b[4] == b.subrange(3, 5)[1]);
    }
    crate::types::gamepad_type_byte_round_trip(g.gamepad_type);
    let parsed = parse_gamepad(b)->Ok_0;
    assert(parsed == g);
}

} // verus!
