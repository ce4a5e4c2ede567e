//! Telemetry packet (uid 5): tagged bundles of string and float32 key/value
//! pairs pushed by the RC (`telemetry.update()` on the robot side).
//!
//! For ordinary OpMode lines the real RC keys each string entry by an
//! opaque, monotonically increasing sort-order tag (not a caption) and bakes
//! the full "Caption : Data" text into the *value*. Only the reserved keys
//! below carry a real, meaningful key. `strings` keeps wire order.
//!
//! `numbers` is an ordered map from key to value: its entries are kept sorted
//! strictly by the UTF-8 bytes of their keys (the order of `String`), so no
//! key occurs twice. Values are the bit patterns of their `f32` values.

use vstd::prelude::*;

use crate::text::{self, key_lt};
use crate::types::{robot_state_byte, robot_state_of_byte, RobotState};
use crate::wire::{
    self, header, i64_be, read_i64, read_str_u16, read_str_u8, read_u16, read_u32, read_u8,
    str_u16_field, str_u8_field, u32_be, utf8, zeros, Error,
};

verus! {

broadcast use vstd::seq_lib::group_seq_properties;

pub const BATTERY_LEVEL_KEY: &'static str = "$Robot$Battery$Level$";

/// The value the RC reports under `BATTERY_LEVEL_KEY` when it has no
/// voltage sensor.
pub const NO_VOLTAGE_SENSOR: &'static str = "$no$voltage$sensor$";

/// Reserved key prefix for RC-originated system telemetry: warnings the
/// Robot Controller raises itself, independent of any OpMode (lost Expansion
/// Hub, low battery, and the like).
pub const SYSTEM_KEY_PREFIX: &'static str = "$System$";

#[derive(Debug, Clone, PartialEq)]
pub struct Telemetry {
    pub seq: u16,
    pub timestamp: i64,
    pub is_sorted: bool,
    pub robot_state: RobotState,
    pub tag: String,
    pub strings: Vec<(String, String)>,
    pub numbers: Vec<(String, u32)>,
}

/// A telemetry packet as a value.
pub struct TelemetryView {
    pub seq: u16,
    pub timestamp: i64,
    pub is_sorted: bool,
    pub robot_state: RobotState,
    pub tag: Seq<char>,
    pub strings: Seq<(Seq<char>, Seq<char>)>,
    pub numbers: Seq<(Seq<char>, u32)>,
}

pub open spec fn strings_view(v: Seq<(String, String)>) -> Seq<(Seq<char>, Seq<char>)> {
    v.map_values(|p: (String, String)| (p.0@, p.1@))
}

pub open spec fn numbers_view(v: Seq<(String, u32)>) -> Seq<(Seq<char>, u32)> {
    v.map_values(|p: (String, u32)| (p.0@, p.1))
}

impl View for Telemetry {
    type V = TelemetryView;

    open spec fn view(&self) -> TelemetryView {
        TelemetryView {
            seq: self.seq,
            timestamp: self.timestamp,
            is_sorted: self.is_sorted,
            robot_state: self.robot_state,
            tag: self.tag@,
            strings: strings_view(self.strings@),
            numbers: numbers_view(self.numbers@),
        }
    }
}

// ---------------------------------------------------------------------------
// The number map
// ---------------------------------------------------------------------------

/// Entries sorted strictly by key: what makes a sequence an ordered map.
pub open spec fn sorted_keys(m: Seq<(Seq<char>, u32)>) -> bool {
    forall|i: int, j: int| 0 <= i < j < m.len() ==> key_lt(#[trigger] m[i].0, #[trigger] m[j].0)
}

/// Inserting into an ordered map: an existing key gets the new value, a new
/// key goes in its place by order.
pub open spec fn insert_number(m: Seq<(Seq<char>, u32)>, k: Seq<char>, v: u32) -> Seq<
    (Seq<char>, u32),
>
    decreases m.len(),
{
    if m.len() == 0 {
        seq![(k, v)]
    } else if m[0].0 == k {
        seq![(k, v)] + m.drop_first()
    } else if key_lt(k, m[0].0) {
        seq![(k, v)] + m
    } else {
        seq![m[0]] + insert_number(m.drop_first(), k, v)
    }
}

/// Inserting the entries of `s` into `m`, in order.
pub open spec fn insert_all(m: Seq<(Seq<char>, u32)>, s: Seq<(Seq<char>, u32)>) -> Seq<
    (Seq<char>, u32),
>
    decreases s.len(),
{
    if s.len() == 0 {
        m
    } else {
        insert_all(insert_number(m, s[0].0, s[0].1), s.drop_first())
    }
}

/// The value a map holds for `k`.
pub open spec fn lookup(m: Seq<(Seq<char>, u32)>, k: Seq<char>) -> Option<u32>
    decreases m.len(),
{
    if m.len() == 0 {
        None
    } else if m[0].0 == k {
        Some(m[0].1)
    } else {
        lookup(m.drop_first(), k)
    }
}

/// Every key of `insert_number(m, k, v)` that `x` precedes: `x` precedes
/// all keys of the result when it precedes `k` and all keys of `m`.
proof fn insert_keys_above(m: Seq<(Seq<char>, u32)>, k: Seq<char>, v: u32, x: Seq<char>)
    requires
        key_lt(x, k),
        forall|j: int| 0 <= j < m.len() ==> key_lt(x, #[trigger] m[j].0),
    ensures
        forall|i: int|
            0 <= i < insert_number(m, k, v).len() ==> key_lt(x, #[trigger] insert_number(m, k, v)[i].0),
    decreases m.len(),
{
    if m.len() > 0 && m[0].0 != k && !key_lt(k, m[0].0) {
        let rest = m.drop_first();
        insert_keys_above(rest, k, v, x);
        let r = insert_number(m, k, v);
        assert forall|i: int| 0 <= i < r.len() implies key_lt(x, #[trigger] r[i].0) by {
            if i > 0 {
                assert(r[i] == insert_number(rest, k, v)[i - 1]);
            }
        }
    } else if m.len() > 0 {
        let r = insert_number(m, k, v);
        assert forall|i: int| 0 <= i < r.len() implies key_lt(x, #[trigger] r[i].0) by {
            if i > 0 {
                if m[0].0 == k {
                    assert(r[i] == m[i]);
                } else {
                    assert(r[i] == m[i - 1]);
                }
            }
        }
    }
}

/// Inserting into an ordered map keeps it ordered.
pub proof fn insert_keeps_sorted(m: Seq<(Seq<char>, u32)>, k: Seq<char>, v: u32)
    requires
        sorted_keys(m),
    ensures
        sorted_keys(insert_number(m, k, v)),
    decreases m.len(),
{
    if m.len() == 0 {
    } else if m[0].0 == k {
        let r = insert_number(m, k, v);
        assert forall|i: int, j: int| 0 <= i < j < r.len() implies key_lt(
            #[trigger] r[i].0,
            #[trigger] r[j].0,
        ) by {
            assert(r[j] == m[j]);
            if i > 0 {
                assert(r[i] == m[i]);
            }
        }
    } else if key_lt(k, m[0].0) {
        let r = insert_number(m, k, v);
        assert forall|i: int, j: int| 0 <= i < j < r.len() implies key_lt(
            #[trigger] r[i].0,
            #[trigger] r[j].0,
        ) by {
            assert(r[j] == m[j - 1]);
            if i > 0 {
                assert(r[i] == m[i - 1]);
            } else if j > 1 {
                text::key_lt_transitive(k, m[0].0, m[j - 1].0);
            }
        }
    } else {
        let rest = m.drop_first();
        text::key_lt_total(k, m[0].0);
        insert_keeps_sorted(rest, k, v);
        insert_keys_above(rest, k, v, m[0].0);
        let r = insert_number(m, k, v);
        let rr = insert_number(rest, k, v);
        assert forall|i: int, j: int| 0 <= i < j < r.len() implies key_lt(
            #[trigger] r[i].0,
            #[trigger] r[j].0,
        ) by {
            assert(r[j] == rr[j - 1]);
            if i > 0 {
                assert(r[i] == rr[i - 1]);
            }
        }
    }
}

/// After inserting `k`, the map holds `v` for `k` and what it held before
/// for every other key.
pub proof fn insert_then_lookup(m: Seq<(Seq<char>, u32)>, k: Seq<char>, v: u32, q: Seq<char>)
    ensures
        lookup(insert_number(m, k, v), q) == if q == k {
            Some(v)
        } else {
            lookup(m, q)
        },
    decreases m.len(),
{
    let r = insert_number(m, k, v);
    if m.len() == 0 {
        assert(r.drop_first().len() == 0);
    } else if m[0].0 == k {
        assert(r.drop_first() =~= m.drop_first());
    } else if key_lt(k, m[0].0) {
        assert(r.drop_first() =~= m);
    } else {
        insert_then_lookup(m.drop_first(), k, v, q);
        assert(r.drop_first() =~= insert_number(m.drop_first(), k, v));
    }
}

/// A key greater than every key of the map goes at the end.
proof fn insert_greatest(m: Seq<(Seq<char>, u32)>, k: Seq<char>, v: u32)
    requires
        forall|j: int| 0 <= j < m.len() ==> key_lt(#[trigger] m[j].0, k),
    ensures
        insert_number(m, k, v) == m.push((k, v)),
    decreases m.len(),
{
    if m.len() > 0 {
        text::key_lt_irreflexive(k);
        text::key_lt_asymmetric(m[0].0, k);
        let rest = m.drop_first();
        assert forall|j: int| 0 <= j < rest.len() implies key_lt(#[trigger] rest[j].0, k) by {
            assert(rest[j] == m[j + 1]);
        }
        insert_greatest(rest, k, v);
        assert(seq![m[0]] + rest.push((k, v)) =~= m.push((k, v)));
    } else {
        assert(seq![(k, v)] =~= m.push((k, v)));
    }
}

/// Inserting the entries of an ordered continuation, in order, appends them.
proof fn insert_all_sorted(m: Seq<(Seq<char>, u32)>, s: Seq<(Seq<char>, u32)>)
    requires
        sorted_keys(m + s),
    ensures
        insert_all(m, s) == m + s,
    decreases s.len(),
{
    if s.len() == 0 {
        assert(m + s =~= m);
    } else {
        let ms = m + s;
        assert forall|j: int| 0 <= j < m.len() implies key_lt(#[trigger] m[j].0, s[0].0) by {
            assert(ms[j] == m[j]);
            assert(ms[m.len() as int] == s[0]);
        }
        insert_greatest(m, s[0].0, s[0].1);
        let m2 = m.push(s[0]);
        assert(m2 + s.drop_first() =~= m + s);
        insert_all_sorted(m2, s.drop_first());
    }
}

// ---------------------------------------------------------------------------
// Byte layout
// ---------------------------------------------------------------------------

pub open spec fn string_entry(e: (Seq<char>, Seq<char>)) -> Seq<u8> {
    str_u16_field(utf8(e.0)) + str_u16_field(utf8(e.1))
}

pub open spec fn strings_bytes(s: Seq<(Seq<char>, Seq<char>)>) -> Seq<u8>
    decreases s.len(),
{
    if s.len() == 0 {
        Seq::empty()
    } else {
        string_entry(s[0]) + strings_bytes(s.drop_first())
    }
}

pub open spec fn strings_len(s: Seq<(Seq<char>, Seq<char>)>) -> nat
    decreases s.len(),
{
    if s.len() == 0 {
        0
    } else {
        4 + utf8(s[0].0).len() + utf8(s[0].1).len() + strings_len(s.drop_first())
    }
}

pub open spec fn number_entry(e: (Seq<char>, u32)) -> Seq<u8> {
    str_u16_field(utf8(e.0)) + u32_be(e.1)
}

pub open spec fn numbers_bytes(s: Seq<(Seq<char>, u32)>) -> Seq<u8>
    decreases s.len(),
{
    if s.len() == 0 {
        Seq::empty()
    } else {
        number_entry(s[0]) + numbers_bytes(s.drop_first())
    }
}

pub open spec fn numbers_len(s: Seq<(Seq<char>, u32)>) -> nat
    decreases s.len(),
{
    if s.len() == 0 {
        0
    } else {
        6 + utf8(s[0].0).len() + numbers_len(s.drop_first())
    }
}

/// Payload length: ts(8) + sorted(1) + state(1) + tag length(1) + tag +
/// string count(1) + number count(1), plus the entries.
pub open spec fn telemetry_payload_len(t: TelemetryView) -> nat {
    13 + utf8(t.tag).len() + strings_len(t.strings) + numbers_len(t.numbers)
}

/// The wire bytes of a telemetry packet.
pub open spec fn telemetry_bytes(t: TelemetryView) -> Seq<u8> {
    header(super::UID_TELEMETRY, telemetry_payload_len(t), t.seq) + i64_be(t.timestamp) + seq![
        if t.is_sorted {
            1u8
        } else {
            0u8
        },
        robot_state_byte(t.robot_state),
    ] + str_u8_field(utf8(t.tag)) + seq![t.strings.len() as u8] + strings_bytes(t.strings) + seq![
        t.numbers.len() as u8,
    ] + numbers_bytes(t.numbers)
}

/// Reads `n` string entries at `off`, after those already read (`acc`).
pub open spec fn parse_strings(
    buf: Seq<u8>,
    off: int,
    n: nat,
    acc: Seq<(Seq<char>, Seq<char>)>,
) -> Result<(Seq<(Seq<char>, Seq<char>)>, int), Error>
    decreases n,
{
    if n == 0 {
        Ok((acc, off))
    } else {
        match read_str_u16(buf, off) {
            Err(e) => Err(e),
            Ok((k, o)) => match read_str_u16(buf, o) {
                Err(e) => Err(e),
                Ok((v, next)) => parse_strings(buf, next, (n - 1) as nat, acc.push((k, v))),
            },
        }
    }
}

/// Reads `n` number entries at `off`, inserting each into `acc`.
pub open spec fn parse_numbers(
    buf: Seq<u8>,
    off: int,
    n: nat,
    acc: Seq<(Seq<char>, u32)>,
) -> Result<(Seq<(Seq<char>, u32)>, int), Error>
    decreases n,
{
    if n == 0 {
        Ok((acc, off))
    } else {
        match read_str_u16(buf, off) {
            Err(e) => Err(e),
            Ok((k, o)) => match read_u32(buf, o) {
                Err(e) => Err(e),
                Ok(v) => parse_numbers(buf, o + 4, (n - 1) as nat, insert_number(acc, k, v)),
            },
        }
    }
}

/// The telemetry packet `buf` holds.
pub open spec fn parse_telemetry(buf: Seq<u8>) -> Result<TelemetryView, Error> {
    match (read_u16(buf, 3), read_i64(buf, 5), read_u8(buf, 13), read_u8(buf, 14)) {
        (Ok(seq), Ok(timestamp), Ok(sorted), Ok(state)) => match read_str_u8(buf, 15) {
            Err(e) => Err(e),
            Ok((tag, off)) => match read_u8(buf, off) {
                Err(e) => Err(e),
                Ok(sc) => match parse_strings(buf, off + 1, sc as nat, Seq::empty()) {
                    Err(e) => Err(e),
                    Ok((strings, off2)) => match read_u8(buf, off2) {
                        Err(e) => Err(e),
                        Ok(nc) => match parse_numbers(buf, off2 + 1, nc as nat, Seq::empty()) {
                            Err(e) => Err(e),
                            Ok((numbers, _)) => Ok(
                                TelemetryView {
                                    seq,
                                    timestamp,
                                    is_sorted: sorted != 0,
                                    robot_state: robot_state_of_byte(state),
                                    tag,
                                    strings,
                                    numbers,
                                },
                            ),
                        },
                    },
                },
            },
        },
        _ => Err(Error::Truncated),
    }
}

pub open spec fn telemetry_result(r: Result<Telemetry, Error>) -> Result<TelemetryView, Error> {
    match r {
        Ok(t) => Ok(t@),
        Err(e) => Err(e),
    }
}

// ---------------------------------------------------------------------------
// Laws of the layout
// ---------------------------------------------------------------------------

proof fn strings_bytes_len(s: Seq<(Seq<char>, Seq<char>)>)
    ensures
        strings_bytes(s).len() == strings_len(s),
    decreases s.len(),
{
    if s.len() > 0 {
        strings_bytes_len(s.drop_first());
    }
}

proof fn numbers_bytes_len(s: Seq<(Seq<char>, u32)>)
    ensures
        numbers_bytes(s).len() == numbers_len(s),
    decreases s.len(),
{
    if s.len() > 0 {
        numbers_bytes_len(s.drop_first());
    }
}

/// Every string entry fits its `u16` length fields.
pub open spec fn strings_fit(s: Seq<(Seq<char>, Seq<char>)>) -> bool {
    forall|i: int|
        0 <= i < s.len() ==> utf8((#[trigger] s[i]).0).len() <= 65535 && utf8(s[i].1).len()
            <= 65535
}

/// Every number key fits its `u16` length field.
pub open spec fn numbers_fit(s: Seq<(Seq<char>, u32)>) -> bool {
    forall|i: int| 0 <= i < s.len() ==> utf8((#[trigger] s[i]).0).len() <= 65535
}

#[verifier::rlimit(40)]
proof fn parse_strings_of_bytes(
    p: Seq<u8>,
    s: Seq<(Seq<char>, Seq<char>)>,
    r: Seq<u8>,
    acc: Seq<(Seq<char>, Seq<char>)>,
)
    requires
        strings_fit(s),
    ensures
        parse_strings(p + strings_bytes(s) + r, p.len() as int, s.len(), acc) == Ok::<
            (Seq<(Seq<char>, Seq<char>)>, int),
            Error,
        >((acc + s, (p.len() + strings_len(s)) as int)),
    decreases s.len(),
{
    let all = p + strings_bytes(s) + r;
    if s.len() == 0 {
        assert(acc + s =~= acc);
    } else {
        let e = s[0];
        let rest = s.drop_first();
        assert(strings_fit(rest)) by {
            assert forall|i: int| 0 <= i < rest.len() implies utf8((#[trigger] rest[i]).0).len()
                <= 65535 && utf8(rest[i].1).len() <= 65535 by {
                assert(rest[i] == s[i + 1]);
            }
        }
        assert(utf8(e.0).len() <= 65535 && utf8(e.1).len() <= 65535);
        let p1 = p + str_u16_field(utf8(e.0));
        let p2 = p1 + str_u16_field(utf8(e.1));
        assert(all =~= p + str_u16_field(utf8(e.0)) + (str_u16_field(utf8(e.1))
            + strings_bytes(rest) + r));
        wire::read_str_u16_field(p, e.0, str_u16_field(utf8(e.1)) + strings_bytes(rest) + r);
        assert(all =~= p1 + str_u16_field(utf8(e.1)) + (strings_bytes(rest) + r));
        wire::read_str_u16_field(p1, e.1, strings_bytes(rest) + r);
        assert(all =~= p2 + strings_bytes(rest) + r);
        parse_strings_of_bytes(p2, rest, r, acc.push(e));
        assert(acc.push(e) + rest =~= acc + s);
    }
}

proof fn parse_numbers_of_bytes(
    p: Seq<u8>,
    s: Seq<(Seq<char>, u32)>,
    r: Seq<u8>,
    acc: Seq<(Seq<char>, u32)>,
)
    requires
        numbers_fit(s),
    ensures
        parse_numbers(p + numbers_bytes(s) + r, p.len() as int, s.len(), acc) == Ok::<
            (Seq<(Seq<char>, u32)>, int),
            Error,
        >((insert_all(acc, s), (p.len() + numbers_len(s)) as int)),
    decreases s.len(),
{
    let all = p + numbers_bytes(s) + r;
    if s.len() > 0 {
        let e = s[0];
        let rest = s.drop_first();
        assert(numbers_fit(rest)) by {
            assert forall|i: int| 0 <= i < rest.len() implies utf8((#[trigger] rest[i]).0).len()
                <= 65535 by {
                assert(rest[i] == s[i + 1]);
            }
        }
        assert(utf8(e.0).len() <= 65535);
        let p1 = p + str_u16_field(utf8(e.0));
        let p2 = p1 + u32_be(e.1);
        assert(all =~= p + str_u16_field(utf8(e.0)) + (u32_be(e.1) + numbers_bytes(rest) + r));
        wire::read_str_u16_field(p, e.0, u32_be(e.1) + numbers_bytes(rest) + r);
        assert(all =~= p1 + u32_be(e.1) + (numbers_bytes(rest) + r));
        wire::read_u32_field(p1, e.1, numbers_bytes(rest) + r);
        assert(all =~= p2 + numbers_bytes(rest) + r);
        parse_numbers_of_bytes(p2, rest, r, insert_number(acc, e.0, e.1));
    }
}

/// The conditions under which a telemetry packet survives the wire: the tag
/// fits its one-byte length, the entry counts fit their one-byte counts,
/// every string fits its `u16` length, and the numbers form an ordered map.
pub open spec fn telemetry_fits_wire(t: TelemetryView) -> bool {
    &&& utf8(t.tag).len() <= 255
    &&& t.strings.len() <= 255
    &&& t.numbers.len() <= 255
    &&& strings_fit(t.strings)
    &&& numbers_fit(t.numbers)
    &&& sorted_keys(t.numbers)
}

/// Parsing the bytes of a telemetry packet that fits the wire gives it back.
#[verifier::rlimit(80)]
pub proof fn telemetry_round_trip(t: TelemetryView)
    requires
        telemetry_fits_wire(t),
    ensures
        parse_telemetry(telemetry_bytes(t)) == Ok::<TelemetryView, Error>(t),
{
    let b = telemetry_bytes(t);
    let sorted_byte: u8 = if t.is_sorted {
        1u8
    } else {
        0u8
    };
    let hdr = header(super::UID_TELEMETRY, telemetry_payload_len(t), t.seq);
    let p0 = hdr + i64_be(t.timestamp) + seq![sorted_byte, robot_state_byte(t.robot_state)];
    let p1 = p0 + str_u8_field(utf8(t.tag));
    let p2 = p1 + seq![t.strings.len() as u8];
    let p3 = p2 + strings_bytes(t.strings);
    let p4 = p3 + seq![t.numbers.len() as u8];
    assert(p0.len() == 15);
    assert(b == p4 + numbers_bytes(t.numbers));
    wire::u16_round_trip(t.seq);
    wire::i64_round_trip(t.timestamp);
    assert(b.subrange(5, 13) =~= i64_be(t.timestamp));
    assert(b[3] == wire::u16_be(t.seq)[0] && b[4] == wire::u16_be(t.seq)[1]);
    assert(b[13] == sorted_byte);
    assert(b[14] == robot_state_byte(t.robot_state));
    crate::types::robot_state_byte_round_trip(t.robot_state);
    let rest1 = seq![t.strings.len() as u8] + strings_bytes(t.strings) + seq![
        t.numbers.len() as u8,
    ] + numbers_bytes(t.numbers);
    assert(b =~= p0 + str_u8_field(utf8(t.tag)) + rest1);
    wire::read_str_u8_field(p0, t.tag, rest1);
    assert(b[p1.len() as int] == t.strings.len() as u8);
    let rest2 = seq![t.numbers.len() as u8] + numbers_bytes(t.numbers);
    assert(b =~= p2 + strings_bytes(t.strings) + rest2);
    parse_strings_of_bytes(p2, t.strings, rest2, Seq::empty());
    assert(Seq::<(Seq<char>, Seq<char>)>::empty() + t.strings =~= t.strings);
    strings_bytes_len(t.strings);
    assert(b[p3.len() as int] == t.numbers.len() as u8);
    assert(b =~= p4 + numbers_bytes(t.numbers) + Seq::<u8>::empty());
    parse_numbers_of_bytes(p4, t.numbers, Seq::empty(), Seq::empty());
    assert(Seq::<(Seq<char>, u32)>::empty() + t.numbers =~= t.numbers);
    insert_all_sorted(Seq::empty(), t.numbers);
}


proof fn strings_len_bound(s: Seq<(Seq<char>, Seq<char>)>)
    requires
        strings_fit(s),
    ensures
        strings_len(s) <= s.len() * 131074,
    decreases s.len(),
{
    if s.len() > 0 {
        let t = s.drop_first();
        assert forall|i: int| 0 <= i < t.len() implies utf8((#[trigger] t[i]).0).len() <= 65535
            && utf8(t[i].1).len() <= 65535 by {
            assert(t[i] == s[i + 1]);
        }
        assert(utf8(s[0].0).len() <= 65535 && utf8(s[0].1).len() <= 65535);
        strings_len_bound(t);
    }
}

proof fn numbers_len_bound(s: Seq<(Seq<char>, u32)>)
    requires
        numbers_fit(s),
    ensures
        numbers_len(s) <= s.len() * 65541,
    decreases s.len(),
{
    if s.len() > 0 {
        let t = s.drop_first();
        assert forall|i: int| 0 <= i < t.len() implies utf8((#[trigger] t[i]).0).len() <= 65535 by {
            assert(t[i] == s[i + 1]);
        }
        assert(utf8(s[0].0).len() <= 65535);
        numbers_len_bound(t);
    }
}

/// A telemetry packet whose fields fit their length fields fits the
/// address space too: its serializer takes it, and parsing what it writes
/// gives it back, string entries in the same order.
pub proof fn telemetry_wire_round_trip(t: Telemetry)
    requires
        telemetry_fits_wire(t@),
    ensures
        t.fits(),
        parse_telemetry(telemetry_bytes(t@)) == Ok::<TelemetryView, Error>(t@),
{
    strings_len_bound(t@.strings);
    numbers_len_bound(t@.numbers);
    assert(t@.strings.len() * 131074 <= 255 * 131074) by (nonlinear_arith)
        requires
            t@.strings.len() <= 255,
    ;
    assert(t@.numbers.len() * 65541 <= 255 * 65541) by (nonlinear_arith)
        requires
            t@.numbers.len() <= 255,
    ;
    telemetry_round_trip(t@);
}


/// Where a telemetry packet keeps its fixed fields: the packet type at 0,
/// the sequence number at 3..5, the timestamp at 5..13, the sorted flag at
/// 13 and the robot state at 14.
pub proof fn telemetry_layout(t: TelemetryView)
    ensures
        telemetry_bytes(t).len() >= 16,
        telemetry_bytes(t)[0] == super::UID_TELEMETRY,
        telemetry_bytes(t).subrange(3, 5) == wire::u16_be(t.seq),
        telemetry_bytes(t).subrange(5, 13) == i64_be(t.timestamp),
        telemetry_bytes(t)[13] == (if t.is_sorted {
            1u8
        } else {
            0u8
        }),
        telemetry_bytes(t)[14] == robot_state_byte(t.robot_state),
{
    let flag: u8 = if t.is_sorted {
        1u8
    } else {
        0u8
    };
    let hdr = header(super::UID_TELEMETRY, telemetry_payload_len(t), t.seq);
    let p0 = hdr + i64_be(t.timestamp) + seq![flag, robot_state_byte(t.robot_state)];
    let rest = str_u8_field(utf8(t.tag)) + seq![t.strings.len() as u8] + strings_bytes(t.strings) + seq![
        t.numbers.len() as u8,
    ] + numbers_bytes(t.numbers);
    let b = telemetry_bytes(t);
    assert(b =~= p0 + rest);
    assert(p0.len() == 15);
    assert(rest.len() >= 1);
    assert(b[0] == p0[0]);
    assert(b[13] == p0[13]);
    assert(b[14] == p0[14]);
    assert(b.subrange(3, 5) =~= p0.subrange(3, 5));
    assert(p0.subrange(3, 5) =~= wire::u16_be(t.seq));
    assert(b.subrange(5, 13) =~= p0.subrange(5, 13));
    assert(p0.subrange(5, 13) =~= i64_be(t.timestamp));
}

/// Whatever bytes parse as telemetry, the sorted flag is read from byte 13
/// (any non-zero byte meaning sorted) and the robot state from byte 14.
pub proof fn telemetry_fixed_fields(buf: Seq<u8>)
    requires
        parse_telemetry(buf) is Ok,
    ensures
        buf.len() >= 15,
        parse_telemetry(buf)->Ok_0.is_sorted == (buf[13] != 0),
        parse_telemetry(buf)->Ok_0.robot_state == robot_state_of_byte(buf[14]),
{
}

// ---------------------------------------------------------------------------
// Executable code
// ---------------------------------------------------------------------------

/// What the RC reports under `BATTERY_LEVEL_KEY`.
#[derive(Debug, Clone, PartialEq)]
pub enum BatteryLevel {
    /// The RC has no voltage sensor.
    NoSensor,
    /// The reported text (a decimal voltage).
    Reported(String),
}

/// The value of the first string entry with key `k`.
pub open spec fn first_value(s: Seq<(Seq<char>, Seq<char>)>, k: Seq<char>) -> Option<Seq<char>>
    decreases s.len(),
{
    if s.len() == 0 {
        None
    } else if s[0].0 == k {
        Some(s[0].1)
    } else {
        first_value(s.drop_first(), k)
    }
}

/// Inserts `key -> value` into an ordered number map.
pub fn insert_number_entry(numbers: &mut Vec<(String, u32)>, key: String, value: u32)
    ensures
        numbers_view(final(numbers)@) == insert_number(numbers_view(old(numbers)@), key@, value),
{
    let ghost m0 = numbers_view(numbers@);
    let mut i: usize = 0;
    assert(m0.skip(0) =~= m0);
    assert(m0.take(0) =~= Seq::<(Seq<char>, u32)>::empty());
    while i < numbers.len()
        invariant
            numbers@ == old(numbers)@,
            m0 == numbers_view(numbers@),
            i <= numbers@.len(),
            insert_number(m0, key@, value) == m0.take(i as int) + insert_number(
                m0.skip(i as int),
                key@,
                value,
            ),
        decreases numbers@.len() - i,
    {
        let ghost tail = m0.skip(i as int);
        assert(tail[0] == m0[i as int]);
        assert(tail.drop_first() =~= m0.skip(i + 1));
        if text::str_eq(numbers[i].0.as_str(), key.as_str()) {
            numbers.set(i, (key, value));
            assert(numbers_view(numbers@) =~= m0.take(i as int) + (seq![(key@, value)]
                + tail.drop_first()));
            return;
        }
        if text::str_less(key.as_str(), numbers[i].0.as_str()) {
            numbers.insert(i, (key, value));
            assert(numbers_view(numbers@) =~= m0.take(i as int) + (seq![(key@, value)] + tail));
            return;
        }
        assert(m0.take(i as int) + (seq![tail[0]] + insert_number(tail.drop_first(), key@, value))
            =~= m0.take(i + 1) + insert_number(m0.skip(i + 1), key@, value));
        i = i + 1;
    }
    assert(m0.skip(i as int) =~= Seq::<(Seq<char>, u32)>::empty());
    numbers.push((key, value));
    assert(numbers_view(numbers@) =~= m0.take(i as int) + seq![(key@, value)]);
    assert(m0.take(i as int) =~= m0);
}

/// The view of a string-entries result.
pub open spec fn strings_result(r: Result<(Vec<(String, String)>, usize), Error>) -> Result<
    (Seq<(Seq<char>, Seq<char>)>, int),
    Error,
> {
    match r {
        Ok((v, o)) => Ok((strings_view(v@), o as int)),
        Err(e) => Err(e),
    }
}

/// The view of a number-entries result.
pub open spec fn numbers_result(r: Result<(Vec<(String, u32)>, usize), Error>) -> Result<
    (Seq<(Seq<char>, u32)>, int),
    Error,
> {
    match r {
        Ok((v, o)) => Ok((numbers_view(v@), o as int)),
        Err(e) => Err(e),
    }
}

/// Reads `count` string entries at `off`.
fn read_string_entries(buf: &[u8], start: usize, count: u8) -> (r: Result<
    (Vec<(String, String)>, usize),
    Error,
>)
    ensures
        strings_result(r) == parse_strings(buf@, start as int, count as nat, Seq::empty()),
{
    let mut v: Vec<(String, String)> = Vec::new();
    let n = buf.len();
    let mut off = start;
    let mut i: u8 = 0;
    assert(strings_view(v@) =~= Seq::<(Seq<char>, Seq<char>)>::empty());
    while i < count
        invariant
            i <= count,
            n == buf@.len(),
            parse_strings(buf@, start as int, count as nat, Seq::empty()) == parse_strings(
                buf@,
                off as int,
                (count - i) as nat,
                strings_view(v@),
            ),
        decreases count - i,
    {
        let (key, o) = wire::get_str_u16(buf, off)?;
        let (value, next) = wire::get_str_u16(buf, o)?;
        let ghost before = strings_view(v@);
        v.push((key, value));
        assert(strings_view(v@) =~= before.push((key@, value@)));
        off = next;
        i = i + 1;
    }
    Ok((v, off))
}

/// Reads `count` number entries at `off` into an ordered map.
fn read_number_entries(buf: &[u8], start: usize, count: u8) -> (r: Result<
    (Vec<(String, u32)>, usize),
    Error,
>)
    ensures
        numbers_result(r) == parse_numbers(buf@, start as int, count as nat, Seq::empty()),
        r matches Ok((v, _)) ==> sorted_keys(numbers_view(v@)),
{
    let mut v: Vec<(String, u32)> = Vec::new();
    let n = buf.len();
    let mut off = start;
    let mut i: u8 = 0;
    assert(numbers_view(v@) =~= Seq::<(Seq<char>, u32)>::empty());
    while i < count
        invariant
            i <= count,
            n == buf@.len(),
            sorted_keys(numbers_view(v@)),
            parse_numbers(buf@, start as int, count as nat, Seq::empty()) == parse_numbers(
                buf@,
                off as int,
                (count - i) as nat,
                numbers_view(v@),
            ),
        decreases count - i,
    {
        let (key, o) = wire::get_str_u16(buf, off)?;
        let value = wire::get_u32(buf, o)?;
        proof {
            insert_keeps_sorted(numbers_view(v@), key@, value);
        }
        insert_number_entry(&mut v, key, value);
        off = o + 4;
        i = i + 1;
    }
    Ok((v, off))
}

impl Default for Telemetry {
    fn default() -> (t: Telemetry)
        ensures
            t.seq == 0,
            t.timestamp == 0,
            !t.is_sorted,
            t.robot_state == RobotState::Unknown,
            t.tag@ == Seq::<char>::empty(),
            t.strings@ == Seq::<(String, String)>::empty(),
            t.numbers@ == Seq::<(String, u32)>::empty(),
            t.wf(),
    {
        Telemetry {
            seq: 0,
            timestamp: 0,
            is_sorted: false,
            robot_state: RobotState::Unknown,
            tag: String::new(),
            strings: Vec::new(),
            numbers: Vec::new(),
        }
    }
}

impl Telemetry {
    /// The numbers form an ordered map: sorted by key, no key twice. Every
    /// way of making a packet here (`default`, `parse`, `push_line`,
    /// `insert_number`) keeps it.
    pub open spec fn wf(&self) -> bool {
        sorted_keys(self@.numbers)
    }

    /// True when the packet's wire size fits the address space.
    pub open spec fn fits(&self) -> bool {
        telemetry_payload_len(self@) + 5 <= usize::MAX
    }

    /// Pushes an ordinary (non-reserved) telemetry line the way the real RC
    /// does: the caption is baked directly into `text` (e.g. `"FPS : 10.7"`)
    /// and the key is empty, never a real caption.
    pub fn push_line(&mut self, text: &str)
        ensures
            final(self)@ == (TelemetryView {
                strings: old(self)@.strings.push((Seq::empty(), text@)),
                ..old(self)@
            }),
            old(self).wf() ==> final(self).wf(),
    {
        self.strings.push((String::new(), text.to_owned()));
        assert(strings_view(self.strings@) =~= strings_view(old(self).strings@).push(
            (Seq::empty(), text@),
        ));
    }

    /// Sets the number under `key` (an `f32` bit pattern).
    pub fn insert_number(&mut self, key: String, value: u32)
        ensures
            final(self)@ == (TelemetryView {
                numbers: insert_number(old(self)@.numbers, key@, value),
                ..old(self)@
            }),
            old(self).wf() ==> final(self).wf(),
    {
        proof {
            if sorted_keys(old(self)@.numbers) {
                insert_keeps_sorted(old(self)@.numbers, key@, value);
            }
        }
        insert_number_entry(&mut self.numbers, key, value);
    }

    pub fn serialize(&self) -> (buf: Vec<u8>)
        requires
            self.fits(),
        ensures
            buf@ == telemetry_bytes(self@),
    {
        let ghost t = self@;
        let tag = self.tag.as_str().as_bytes();
        assert(tag@ == utf8(self.tag@));
        let mut payload: usize = 13 + tag.len();
        let ns = self.strings.len();
        let mut i: usize = 0;
        assert(t.strings.skip(0) =~= t.strings);
        while i < ns
            invariant
                t == self@,
                ns == self.strings@.len(),
                i <= ns,
                telemetry_payload_len(t) + 5 <= usize::MAX,
                payload + strings_len(t.strings.skip(i as int)) + numbers_len(t.numbers)
                    == telemetry_payload_len(t),
            decreases ns - i,
        {
            let ghost tail = t.strings.skip(i as int);
            assert(tail[0] == t.strings[i as int]);
            assert(tail.drop_first() =~= t.strings.skip(i + 1));
            let k = self.strings[i].0.as_str().len();
            let v = self.strings[i].1.as_str().len();
            payload = payload + 4 + k + v;
            i = i + 1;
        }
        let nn = self.numbers.len();
        let mut j: usize = 0;
        assert(t.numbers.skip(0) =~= t.numbers);
        while j < nn
            invariant
                t == self@,
                nn == self.numbers@.len(),
                j <= nn,
                telemetry_payload_len(t) + 5 <= usize::MAX,
                payload + numbers_len(t.numbers.skip(j as int)) == telemetry_payload_len(t),
            decreases nn - j,
        {
            let ghost tail = t.numbers.skip(j as int);
            assert(tail[0] == t.numbers[j as int]);
            assert(tail.drop_first() =~= t.numbers.skip(j + 1));
            let k = self.numbers[j].0.as_str().len();
            payload = payload + 6 + k;
            j = j + 1;
        }
        assert(t.strings.skip(ns as int) =~= Seq::<(Seq<char>, Seq<char>)>::empty());
        assert(t.numbers.skip(nn as int) =~= Seq::<(Seq<char>, u32)>::empty());
        proof {
            strings_bytes_len(t.strings);
            numbers_bytes_len(t.numbers);
        }
        let mut buf = wire::with_header(super::UID_TELEMETRY, payload, self.seq);
        let ghost mut p = header(super::UID_TELEMETRY, payload as nat, self.seq);
        let ghost mut m: nat = payload as nat;
        wire::fill_i64(&mut buf, 5, self.timestamp, Ghost(p), Ghost(m));
        proof {
            p = p + i64_be(self.timestamp);
            m = (m - 8) as nat;
        }
        let sorted_byte: u8 = if self.is_sorted {
            1
        } else {
            0
        };
        wire::fill_u8(&mut buf, 13, sorted_byte, Ghost(p), Ghost(m));
        proof {
            p = p + seq![sorted_byte];
            m = (m - 1) as nat;
        }
        let state_byte = self.robot_state.to_byte();
        wire::fill_u8(&mut buf, 14, state_byte, Ghost(p), Ghost(m));
        proof {
            p = p + seq![state_byte];
            m = (m - 1) as nat;
        }
        let mut off = wire::fill_str_u8(&mut buf, 15, tag, Ghost(p), Ghost(m));
        proof {
            p = p + str_u8_field(tag@);
            m = (m - 1 - tag@.len()) as nat;
        }
        let count_byte = #[verifier::truncate] (ns as u8);
        wire::fill_u8(&mut buf, off, count_byte, Ghost(p), Ghost(m));
        off = off + 1;
        proof {
            p = p + seq![count_byte];
            m = (m - 1) as nat;
        }
        let ghost p_strings = p;
        let mut i: usize = 0;
        while i < ns
            invariant
                t == self@,
                ns == self.strings@.len(),
                i <= ns,
                buf@ == p + zeros(m),
                off == p.len(),
                p + strings_bytes(t.strings.skip(i as int)) == p_strings + strings_bytes(t.strings),
                m == strings_len(t.strings.skip(i as int)) + 1 + numbers_len(t.numbers),
                p.len() + m <= usize::MAX,
            decreases ns - i,
        {
            let ghost tail = t.strings.skip(i as int);
            assert(tail[0] == t.strings[i as int]);
            assert(tail.drop_first() =~= t.strings.skip(i + 1));
            let k = self.strings[i].0.as_str().as_bytes();
            let v = self.strings[i].1.as_str().as_bytes();
            off = wire::fill_str_u16(&mut buf, off, k, Ghost(p), Ghost(m));
            proof {
                p = p + str_u16_field(k@);
                m = (m - 2 - k@.len()) as nat;
            }
            off = wire::fill_str_u16(&mut buf, off, v, Ghost(p), Ghost(m));
            proof {
                p = p + str_u16_field(v@);
                m = (m - 2 - v@.len()) as nat;
            }
            assert(p + strings_bytes(t.strings.skip(i + 1)) =~= p_strings + strings_bytes(
                t.strings,
            ));
            i = i + 1;
        }
        assert(t.strings.skip(ns as int) =~= Seq::<(Seq<char>, Seq<char>)>::empty());
        assert(p =~= p_strings + strings_bytes(t.strings));
        let ncount_byte = #[verifier::truncate] (nn as u8);
        wire::fill_u8(&mut buf, off, ncount_byte, Ghost(p), Ghost(m));
        off = off + 1;
        proof {
            p = p + seq![ncount_byte];
            m = (m - 1) as nat;
        }
        let ghost p_numbers = p;
        let mut j: usize = 0;
        while j < nn
            invariant
                t == self@,
                nn == self.numbers@.len(),
                j <= nn,
                buf@ == p + zeros(m),
                off == p.len(),
                p + numbers_bytes(t.numbers.skip(j as int)) == p_numbers + numbers_bytes(t.numbers),
                m == numbers_len(t.numbers.skip(j as int)),
                p.len() + m <= usize::MAX,
            decreases nn - j,
        {
            let ghost tail = t.numbers.skip(j as int);
            assert(tail[0] == t.numbers[j as int]);
            assert(tail.drop_first() =~= t.numbers.skip(j + 1));
            let k = self.numbers[j].0.as_str().as_bytes();
            off = wire::fill_str_u16(&mut buf, off, k, Ghost(p), Ghost(m));
            proof {
                p = p + str_u16_field(k@);
                m = (m - 2 - k@.len()) as nat;
            }
            wire::fill_u32(&mut buf, off, self.numbers[j].1, Ghost(p), Ghost(m));
            off = off + 4;
            proof {
                p = p + u32_be(self.numbers@[j as int].1);
                m = (m - 4) as nat;
            }
            assert(p + numbers_bytes(t.numbers.skip(j + 1)) =~= p_numbers + numbers_bytes(
                t.numbers,
            ));
            j = j + 1;
        }
        assert(t.numbers.skip(nn as int) =~= Seq::<(Seq<char>, u32)>::empty());
        assert(buf@ =~= telemetry_bytes(t));
        buf
    }

    pub fn parse(buf: &[u8]) -> (r: Result<Telemetry, Error>)
        ensures
            telemetry_result(r) == parse_telemetry(buf@),
            r matches Ok(t) ==> t.wf(),
    {
        let n = buf.len();
        let seq = wire::get_u16(buf, 3)?;
        let timestamp = wire::get_i64(buf, 5)?;
        let sorted = wire::get_u8(buf, 13)?;
        let state = wire::get_u8(buf, 14)?;
        let (tag, off) = wire::get_str_u8(buf, 15)?;
        let string_count = wire::get_u8(buf, off)?;
        let (strings, off2) = read_string_entries(buf, off + 1, string_count)?;
        let number_count = wire::get_u8(buf, off2)?;
        let (numbers, _) = read_number_entries(buf, off2 + 1, number_count)?;
        Ok(
            Telemetry {
                seq,
                timestamp,
                is_sorted: sorted != 0,
                robot_state: RobotState::from_byte(state),
                tag,
                strings,
                numbers,
            },
        )
    }

    /// The battery level the RC reports: the first string entry keyed
    /// `BATTERY_LEVEL_KEY`, where the sentinel `NO_VOLTAGE_SENSOR` reads as
    /// no sensor.
    pub fn battery_level(&self) -> (r: Option<BatteryLevel>)
        ensures
            match first_value(self@.strings, BATTERY_LEVEL_KEY@) {
                None => r is None,
                Some(v) => if v == NO_VOLTAGE_SENSOR@ {
                    r matches Some(BatteryLevel::NoSensor)
                } else {
                    r matches Some(BatteryLevel::Reported(s)) && s@ == v
                },
            },
    {
        let ghost s = self@.strings;
        let n = self.strings.len();
        let mut i: usize = 0;
        assert(s.skip(0) =~= s);
        while i < n
            invariant
                s == self@.strings,
                n == self.strings@.len(),
                i <= n,
                first_value(s, BATTERY_LEVEL_KEY@) == first_value(s.skip(i as int), BATTERY_LEVEL_KEY@),
            decreases n - i,
        {
            let ghost tail = s.skip(i as int);
            assert(tail[0] == s[i as int]);
            assert(tail.drop_first() =~= s.skip(i + 1));
            if text::str_eq(self.strings[i].0.as_str(), BATTERY_LEVEL_KEY) {
                let raw = self.strings[i].1.as_str();
                if text::str_eq(raw, NO_VOLTAGE_SENSOR) {
                    return Some(BatteryLevel::NoSensor);
                }
                return Some(BatteryLevel::Reported(raw.to_owned()));
            }
            i = i + 1;
        }
        None
    }
}

} // verus!
