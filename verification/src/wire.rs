//! Big-endian read/write helpers over fixed offsets, and the byte-level
//! model every packet codec is specified against.

use vstd::prelude::*;
use vstd::utf8::*;

use crate::text;

verus! {

broadcast use vstd::seq_lib::group_seq_properties;

#[derive(Debug, Clone, Copy, PartialEq, Eq, Structural)]
pub enum Error {
    Truncated,
    UnknownPacketType(u8),
    BadUtf8,
}

/// The decimal digits of `n`.
pub open spec fn decimal(n: nat) -> Seq<char>
    decreases n,
{
    if n < 10 {
        seq![(n + 48) as char]
    } else {
        decimal(n / 10).push(((n % 10) + 48) as char)
    }
}

/// What an error says to a person.
pub open spec fn error_message(e: Error) -> Seq<char> {
    match e {
        Error::Truncated => "packet truncated"@,
        Error::UnknownPacketType(t) => "unknown packet type "@ + decimal(t as nat),
        Error::BadUtf8 => "invalid UTF-8 in packet string"@,
    }
}

/// Appends the decimal digits of `n` to `s`.
fn push_decimal(s: &mut String, n: u8)
    ensures
        final(s)@ == old(s)@ + decimal(n as nat),
{
    if n >= 100 {
        text::push_char(s, ((n / 100) + 48) as char);
        text::push_char(s, (((n / 10) % 10) + 48) as char);
        text::push_char(s, ((n % 10) + 48) as char);
        let ghost d = n as nat;
        assert(decimal(d) =~= seq![((n / 100) + 48) as char, (((n / 10) % 10) + 48) as char, ((n % 10) + 48) as char]) by {
            assert(d / 10 / 10 == d / 100);
            assert(d / 10 % 10 == (n / 10) % 10);
            assert(decimal(d / 10 / 10) == seq![((n / 100) + 48) as char]);
            assert(decimal(d / 10) == decimal(d / 10 / 10).push(((d / 10 % 10) + 48) as char));
        }
    } else if n >= 10 {
        text::push_char(s, ((n / 10) + 48) as char);
        text::push_char(s, ((n % 10) + 48) as char);
        let ghost d = n as nat;
        assert(decimal(d) =~= seq![((n / 10) + 48) as char, ((n % 10) + 48) as char]) by {
            assert(decimal(d / 10) == seq![((n / 10) + 48) as char]);
        }
    } else {
        text::push_char(s, (n + 48) as char);
    }
}

impl Error {
    /// The error as text, as a person reads it.
    pub fn message(&self) -> (m: String)
        ensures
            m@ == error_message(*self),
    {
        match self {
            Error::Truncated => "packet truncated".to_owned(),
            Error::UnknownPacketType(t) => {
                let mut m = "unknown packet type ".to_owned();
                push_decimal(&mut m, *t);
                m
            },
            Error::BadUtf8 => "invalid UTF-8 in packet string".to_owned(),
        }
    }
}

/// Header layout shared by all packets: `[type: u8][length: u16][seq: u16]`.
/// The length field holds the *payload* length, excluding the 5-byte
/// header (the Robot Controller's semantics). PeerDiscovery is the one
/// exception and writes its own header.
pub const HEADER_LEN: usize = 5;

// ---------------------------------------------------------------------------
// Byte-level model
// ---------------------------------------------------------------------------

/// Big-endian bytes of a `u16`.
pub open spec fn u16_be(v: u16) -> Seq<u8> {
    seq![(v >> 8u16) as u8, v as u8]
}

/// The `u16` whose big-endian bytes are `b0 b1`.
pub open spec fn u16_of(b0: u8, b1: u8) -> u16 {
    ((b0 as u16) << 8u16) | (b1 as u16)
}

/// Big-endian bytes of a `u32`.
pub open spec fn u32_be(v: u32) -> Seq<u8> {
    seq![(v >> 24u32) as u8, (v >> 16u32) as u8, (v >> 8u32) as u8, v as u8]
}

/// The `u32` whose big-endian bytes are `b0 b1 b2 b3`.
pub open spec fn u32_of(b0: u8, b1: u8, b2: u8, b3: u8) -> u32 {
    ((b0 as u32) << 24u32) | ((b1 as u32) << 16u32) | ((b2 as u32) << 8u32) | (b3 as u32)
}

/// Big-endian bytes of a `u64`.
pub open spec fn u64_be(v: u64) -> Seq<u8> {
    seq![
        (v >> 56u64) as u8,
        (v >> 48u64) as u8,
        (v >> 40u64) as u8,
        (v >> 32u64) as u8,
        (v >> 24u64) as u8,
        (v >> 16u64) as u8,
        (v >> 8u64) as u8,
        v as u8,
    ]
}

/// The `u64` whose big-endian bytes are `s[0..8]`.
pub open spec fn u64_of(s: Seq<u8>) -> u64 {
    ((s[0] as u64) << 56u64) | ((s[1] as u64) << 48u64) | ((s[2] as u64) << 40u64) | ((
    s[3] as u64) << 32u64) | ((s[4] as u64) << 24u64) | ((s[5] as u64) << 16u64) | ((
    s[6] as u64) << 8u64) | (s[7] as u64)
}

/// Big-endian two's-complement bytes of an `i32`.
pub open spec fn i32_be(v: i32) -> Seq<u8> {
    u32_be(v as u32)
}

/// Big-endian two's-complement bytes of an `i64`.
pub open spec fn i64_be(v: i64) -> Seq<u8> {
    u64_be(v as u64)
}

/// `n` zero bytes.
pub open spec fn zeros(n: nat) -> Seq<u8> {
    Seq::new(n, |i: int| 0u8)
}

/// The UTF-8 bytes of a string.
pub open spec fn utf8(s: Seq<char>) -> Seq<u8> {
    encode_utf8(s)
}

/// A `u8`-length-prefixed string field (the length byte wraps, as a cast
/// to `u8` does).
pub open spec fn str_u8_field(s: Seq<u8>) -> Seq<u8> {
    seq![s.len() as u8] + s
}

/// A `u16`-length-prefixed string field (the length wraps as `as u16` does).
pub open spec fn str_u16_field(s: Seq<u8>) -> Seq<u8> {
    u16_be(s.len() as u16) + s
}

/// The packet header `[uid][payload length][seq]`.
pub open spec fn header(uid: u8, payload_len: nat, seq: u16) -> Seq<u8> {
    seq![uid] + u16_be(payload_len as u16) + u16_be(seq)
}

/// `buf` with `bytes` written at `off`, the rest unchanged.
pub open spec fn write_bytes(buf: Seq<u8>, off: int, bytes: Seq<u8>) -> Seq<u8> {
    buf.take(off) + bytes + buf.skip(off + bytes.len())
}

/// Reads the byte at `off`.
pub open spec fn read_u8(buf: Seq<u8>, off: int) -> Result<u8, Error> {
    if 0 <= off < buf.len() {
        Ok(buf[off])
    } else {
        Err(Error::Truncated)
    }
}

/// Reads a big-endian `u16` at `off`.
pub open spec fn read_u16(buf: Seq<u8>, off: int) -> Result<u16, Error> {
    if 0 <= off && off + 2 <= buf.len() {
        Ok(u16_of(buf[off], buf[off + 1]))
    } else {
        Err(Error::Truncated)
    }
}

/// Reads a big-endian `u32` at `off`.
pub open spec fn read_u32(buf: Seq<u8>, off: int) -> Result<u32, Error> {
    if 0 <= off && off + 4 <= buf.len() {
        Ok(u32_of(buf[off], buf[off + 1], buf[off + 2], buf[off + 3]))
    } else {
        Err(Error::Truncated)
    }
}

/// Reads a big-endian two's-complement `i32` at `off`.
pub open spec fn read_i32(buf: Seq<u8>, off: int) -> Result<i32, Error> {
    match read_u32(buf, off) {
        Ok(v) => Ok(v as i32),
        Err(e) => Err(e),
    }
}

/// Reads a big-endian `u64` at `off`.
pub open spec fn read_u64(buf: Seq<u8>, off: int) -> Result<u64, Error> {
    if 0 <= off && off + 8 <= buf.len() {
        Ok(u64_of(buf.subrange(off, off + 8)))
    } else {
        Err(Error::Truncated)
    }
}

/// Reads a big-endian two's-complement `i64` at `off`.
pub open spec fn read_i64(buf: Seq<u8>, off: int) -> Result<i64, Error> {
    match read_u64(buf, off) {
        Ok(v) => Ok(v as i64),
        Err(e) => Err(e),
    }
}

/// Reads `len` bytes at `off` as a UTF-8 string.
pub open spec fn read_str(buf: Seq<u8>, off: int, len: int) -> Result<Seq<char>, Error> {
    if 0 <= off && 0 <= len && off + len <= buf.len() {
        let b = buf.subrange(off, off + len);
        if valid_utf8(b) {
            Ok(decode_utf8(b))
        } else {
            Err(Error::BadUtf8)
        }
    } else {
        Err(Error::Truncated)
    }
}

/// Reads a `u16`-length-prefixed string at `off`, with the offset past it.
pub open spec fn read_str_u16(buf: Seq<u8>, off: int) -> Result<(Seq<char>, int), Error> {
    match read_u16(buf, off) {
        Ok(len) => match read_str(buf, off + 2, len as int) {
            Ok(s) => Ok((s, off + 2 + len)),
            Err(e) => Err(e),
        },
        Err(e) => Err(e),
    }
}

/// Reads a `u8`-length-prefixed string at `off`, with the offset past it.
pub open spec fn read_str_u8(buf: Seq<u8>, off: int) -> Result<(Seq<char>, int), Error> {
    match read_u8(buf, off) {
        Ok(len) => match read_str(buf, off + 1, len as int) {
            Ok(s) => Ok((s, off + 1 + len)),
            Err(e) => Err(e),
        },
        Err(e) => Err(e),
    }
}

/// The view of a string result.
pub open spec fn str_result(r: Result<String, Error>) -> Result<Seq<char>, Error> {
    match r {
        Ok(s) => Ok(s@),
        Err(e) => Err(e),
    }
}

/// The view of a string-and-offset result.
pub open spec fn str_off_result(r: Result<(String, usize), Error>) -> Result<(Seq<char>, int), Error> {
    match r {
        Ok((s, o)) => Ok((s@, o as int)),
        Err(e) => Err(e),
    }
}

// ---------------------------------------------------------------------------
// Laws of the byte model
// ---------------------------------------------------------------------------

/// A big-endian `u16` reads back as itself.
pub proof fn u16_round_trip(v: u16)
    ensures
        u16_of(u16_be(v)[0], u16_be(v)[1]) == v,
{
    assert((((((v >> 8u16) as u8) as u16) << 8u16) | ((v as u8) as u16)) == v) by (bit_vector);
}

/// A big-endian `u32` reads back as itself.
pub proof fn u32_round_trip(v: u32)
    ensures
        u32_of(u32_be(v)[0], u32_be(v)[1], u32_be(v)[2], u32_be(v)[3]) == v,
{
    assert((((((v >> 24u32) as u8) as u32) << 24u32) | ((((v >> 16u32) as u8) as u32) << 16u32)
        | ((((v >> 8u32) as u8) as u32) << 8u32) | ((v as u8) as u32)) == v) by (bit_vector);
}

/// A big-endian `u64` reads back as itself.
pub proof fn u64_round_trip(v: u64)
    ensures
        u64_of(u64_be(v)) == v,
{
    assert((((((v >> 56u64) as u8) as u64) << 56u64) | ((((v >> 48u64) as u8) as u64) << 48u64)
        | ((((v >> 40u64) as u8) as u64) << 40u64) | ((((v >> 32u64) as u8) as u64) << 32u64)
        | ((((v >> 24u64) as u8) as u64) << 24u64) | ((((v >> 16u64) as u8) as u64) << 16u64)
        | ((((v >> 8u64) as u8) as u64) << 8u64) | ((v as u8) as u64)) == v) by (bit_vector);
}

/// A big-endian `i32` reads back as itself.
pub proof fn i32_round_trip(v: i32)
    ensures
        (u32_of(i32_be(v)[0], i32_be(v)[1], i32_be(v)[2], i32_be(v)[3]) as i32) == v,
{
    u32_round_trip(v as u32);
    assert(((v as u32) as i32) == v) by (bit_vector);
}

/// A big-endian `i64` reads back as itself.
pub proof fn i64_round_trip(v: i64)
    ensures
        (u64_of(i64_be(v)) as i64) == v,
{
    u64_round_trip(v as u64);
    assert(((v as u64) as i64) == v) by (bit_vector);
}

/// Writing `b` right after a filled prefix, into zeroed space, extends the
/// prefix by `b`.
pub proof fn write_after_prefix(p: Seq<u8>, m: nat, b: Seq<u8>)
    requires
        b.len() <= m,
    ensures
        write_bytes(p + zeros(m), p.len() as int, b) == (p + b) + zeros((m - b.len()) as nat),
{
    assert(write_bytes(p + zeros(m), p.len() as int, b) =~= (p + b) + zeros(
        (m - b.len()) as nat,
    ));
}

/// Reading the fields of `p + x + r` at `p.len()` looks only at `x`.
pub proof fn subrange_of_concat(p: Seq<u8>, x: Seq<u8>, r: Seq<u8>)
    ensures
        (p + x + r).subrange(p.len() as int, (p.len() + x.len()) as int) == x,
{
    assert((p + x + r).subrange(p.len() as int, (p.len() + x.len()) as int) =~= x);
}

/// A UTF-8 string field reads back as the string.
pub proof fn read_str_of_utf8(p: Seq<u8>, s: Seq<char>, r: Seq<u8>)
    ensures
        read_str(p + utf8(s) + r, p.len() as int, utf8(s).len() as int) == Ok::<Seq<char>, Error>(
            s,
        ),
{
    subrange_of_concat(p, utf8(s), r);
    encode_utf8_valid_utf8(s);
    encode_utf8_decode_utf8(s);
}

// ---------------------------------------------------------------------------
// Executable helpers
// ---------------------------------------------------------------------------

/// A fresh packet buffer: the header followed by `payload_len` zero bytes.
pub fn with_header(uid: u8, payload_len: usize, seq: u16) -> (buf: Vec<u8>)
    requires
        payload_len + HEADER_LEN <= usize::MAX,
    ensures
        buf@ == header(uid, payload_len as nat, seq) + zeros(payload_len as nat),
{
    let mut buf = vec![0u8; HEADER_LEN + payload_len];
    assert(buf@ =~= zeros((HEADER_LEN + payload_len) as nat));
    buf[0] = uid;
    put_u16(buf.as_mut_slice(), 1, payload_len as u16);
    put_u16(buf.as_mut_slice(), 3, seq);
    assert(buf@ =~= header(uid, payload_len as nat, seq) + zeros(payload_len as nat));
    buf
}

pub fn get_u8(buf: &[u8], off: usize) -> (r: Result<u8, Error>)
    ensures
        r == read_u8(buf@, off as int),
{
    if off < buf.len() {
        Ok(buf[off])
    } else {
        Err(Error::Truncated)
    }
}

pub fn get_u16(buf: &[u8], off: usize) -> (r: Result<u16, Error>)
    ensures
        r == read_u16(buf@, off as int),
{
    if off <= buf.len() && buf.len() - off >= 2 {
        Ok(((buf[off] as u16) << 8u16) | (buf[off + 1] as u16))
    } else {
        Err(Error::Truncated)
    }
}

pub fn get_u32(buf: &[u8], off: usize) -> (r: Result<u32, Error>)
    ensures
        r == read_u32(buf@, off as int),
{
    if off <= buf.len() && buf.len() - off >= 4 {
        Ok(((buf[off] as u32) << 24u32) | ((buf[off + 1] as u32) << 16u32) | ((buf[off + 2] as u32)
            << 8u32) | (buf[off + 3] as u32))
    } else {
        Err(Error::Truncated)
    }
}

pub fn get_i32(buf: &[u8], off: usize) -> (r: Result<i32, Error>)
    ensures
        r == read_i32(buf@, off as int),
{
    match get_u32(buf, off) {
        Ok(v) => Ok(v as i32),
        Err(e) => Err(e),
    }
}

pub fn get_u64(buf: &[u8], off: usize) -> (r: Result<u64, Error>)
    ensures
        r == read_u64(buf@, off as int),
{
    if off <= buf.len() && buf.len() - off >= 8 {
        let ghost s = buf@.subrange(off as int, off + 8);
        assert(s[0] == buf@[off as int] && s[1] == buf@[off + 1] && s[2] == buf@[off + 2] && s[3]
            == buf@[off + 3] && s[4] == buf@[off + 4] && s[5] == buf@[off + 5] && s[6] == buf@[off
            + 6] && s[7] == buf@[off + 7]);
        Ok(((buf[off] as u64) << 56u64) | ((buf[off + 1] as u64) << 48u64) | ((buf[off + 2] as u64)
            << 40u64) | ((buf[off + 3] as u64) << 32u64) | ((buf[off + 4] as u64) << 24u64) | ((
        buf[off + 5] as u64) << 16u64) | ((buf[off + 6] as u64) << 8u64) | (buf[off + 7] as u64))
    } else {
        Err(Error::Truncated)
    }
}

pub fn get_i64(buf: &[u8], off: usize) -> (r: Result<i64, Error>)
    ensures
        r == read_i64(buf@, off as int),
{
    match get_u64(buf, off) {
        Ok(v) => Ok(v as i64),
        Err(e) => Err(e),
    }
}

/// `String::from_utf8`: the string whose UTF-8 bytes are `bytes`, or `None`
/// where `bytes` is not valid UTF-8 (std documents exactly this).
#[verifier::external_body]
fn string_from_utf8(bytes: Vec<u8>) -> (r: Option<String>)
    ensures
        r is Some <==> valid_utf8(bytes@),
        r matches Some(s) ==> s@ == decode_utf8(bytes@),
{
    String::from_utf8(bytes).ok()
}

pub fn get_str(buf: &[u8], off: usize, len: usize) -> (r: Result<String, Error>)
    ensures
        str_result(r) == read_str(buf@, off as int, len as int),
{
    if off <= buf.len() && buf.len() - off >= len {
        let mut bytes: Vec<u8> = Vec::with_capacity(len);
        let mut i: usize = 0;
        while i < len
            invariant
                off + len <= buf@.len(),
                buf@.len() <= usize::MAX,
                i <= len,
                bytes@ == buf@.subrange(off as int, off + i),
            decreases len - i,
        {
            bytes.push(buf[off + i]);
            i = i + 1;
            assert(bytes@ =~= buf@.subrange(off as int, off + i));
        }
        match string_from_utf8(bytes) {
            Some(s) => Ok(s),
            None => Err(Error::BadUtf8),
        }
    } else {
        Err(Error::Truncated)
    }
}

/// Reads a `u16`-length-prefixed UTF-8 string at `off`, returning it and the
/// offset just past the string so callers can thread it into the next field.
pub fn get_str_u16(buf: &[u8], off: usize) -> (r: Result<(String, usize), Error>)
    ensures
        str_off_result(r) == read_str_u16(buf@, off as int),
{
    let n = buf.len();
    let len = get_u16(buf, off)?;
    let s = get_str(buf, off + 2, len as usize)?;
    Ok((s, off + 2 + len as usize))
}

/// Reads a `u8`-length-prefixed UTF-8 string at `off`, and the offset past it.
pub fn get_str_u8(buf: &[u8], off: usize) -> (r: Result<(String, usize), Error>)
    ensures
        str_off_result(r) == read_str_u8(buf@, off as int),
{
    let n = buf.len();
    let len = get_u8(buf, off)?;
    let s = get_str(buf, off + 1, len as usize)?;
    Ok((s, off + 1 + len as usize))
}

pub fn put_u16(buf: &mut [u8], off: usize, v: u16)
    requires
        off + 2 <= old(buf)@.len(),
    ensures
        final(buf)@ == write_bytes(old(buf)@, off as int, u16_be(v)),
{
    buf[off] = (v >> 8u16) as u8;
    buf[off + 1] = v as u8;
    assert(buf@ =~= write_bytes(old(buf)@, off as int, u16_be(v)));
}

pub fn put_u32(buf: &mut [u8], off: usize, v: u32)
    requires
        off + 4 <= old(buf)@.len(),
    ensures
        final(buf)@ == write_bytes(old(buf)@, off as int, u32_be(v)),
{
    buf[off] = (v >> 24u32) as u8;
    buf[off + 1] = (v >> 16u32) as u8;
    buf[off + 2] = (v >> 8u32) as u8;
    buf[off + 3] = v as u8;
    assert(buf@ =~= write_bytes(old(buf)@, off as int, u32_be(v)));
}

pub fn put_i32(buf: &mut [u8], off: usize, v: i32)
    requires
        off + 4 <= old(buf)@.len(),
    ensures
        final(buf)@ == write_bytes(old(buf)@, off as int, i32_be(v)),
{
    put_u32(buf, off, v as u32);
}

pub fn put_u64(buf: &mut [u8], off: usize, v: u64)
    requires
        off + 8 <= old(buf)@.len(),
    ensures
        final(buf)@ == write_bytes(old(buf)@, off as int, u64_be(v)),
{
    buf[off] = (v >> 56u64) as u8;
    buf[off + 1] = (v >> 48u64) as u8;
    buf[off + 2] = (v >> 40u64) as u8;
    buf[off + 3] = (v >> 32u64) as u8;
    buf[off + 4] = (v >> 24u64) as u8;
    buf[off + 5] = (v >> 16u64) as u8;
    buf[off + 6] = (v >> 8u64) as u8;
    buf[off + 7] = v as u8;
    assert(buf@ =~= write_bytes(old(buf)@, off as int, u64_be(v)));
}

pub fn put_i64(buf: &mut [u8], off: usize, v: i64)
    requires
        off + 8 <= old(buf)@.len(),
    ensures
        final(buf)@ == write_bytes(old(buf)@, off as int, i64_be(v)),
{
    put_u64(buf, off, v as u64);
}

/// Copies `s` into `buf` at `off`.
fn put_bytes(buf: &mut [u8], off: usize, s: &[u8])
    requires
        off + s@.len() <= old(buf)@.len(),
    ensures
        final(buf)@ == write_bytes(old(buf)@, off as int, s@),
{
    let n = buf.len();
    let mut i: usize = 0;
    while i < s.len()
        invariant
            off + s@.len() <= old(buf)@.len(),
            old(buf)@.len() <= usize::MAX,
            buf@.len() == old(buf)@.len(),
            i <= s@.len(),
            buf@ == write_bytes(old(buf)@, off as int, s@.take(i as int)),
        decreases s@.len() - i,
    {
        buf[off + i] = s[i];
        i = i + 1;
        assert(buf@ =~= write_bytes(old(buf)@, off as int, s@.take(i as int)));
    }
    assert(s@.take(i as int) =~= s@);
}

/// Writes a `u16` length prefix followed by `s` at `off`, returning the
/// offset just past the string.
pub fn put_str_u16(buf: &mut [u8], off: usize, s: &[u8]) -> (end: usize)
    requires
        off + 2 + s@.len() <= old(buf)@.len(),
    ensures
        final(buf)@ == write_bytes(old(buf)@, off as int, str_u16_field(s@)),
        end == off + 2 + s@.len(),
{
    let n = buf.len();
    put_u16(buf, off, #[verifier::truncate] (s.len() as u16));
    put_bytes(buf, off + 2, s);
    assert(buf@ =~= write_bytes(old(buf)@, off as int, str_u16_field(s@)));
    off + 2 + s.len()
}

/// Writes a `u8` length prefix followed by `s` at `off`, returning the
/// offset just past the string.
pub fn put_str_u8(buf: &mut [u8], off: usize, s: &[u8]) -> (end: usize)
    requires
        off + 1 + s@.len() <= old(buf)@.len(),
    ensures
        final(buf)@ == write_bytes(old(buf)@, off as int, str_u8_field(s@)),
        end == off + 1 + s@.len(),
{
    let n = buf.len();
    buf[off] = #[verifier::truncate] (s.len() as u8);
    put_bytes(buf, off + 1, s);
    assert(buf@ =~= write_bytes(old(buf)@, off as int, str_u8_field(s@)));
    off + 1 + s.len()
}

// ---------------------------------------------------------------------------
// Filling a fresh buffer front to back
// ---------------------------------------------------------------------------
//
// A fresh buffer is a filled prefix `p` followed by `m` zero bytes; each of
// these writes the next field right after the prefix.

pub(crate) fn fill_u8(buf: &mut Vec<u8>, off: usize, v: u8, Ghost(p): Ghost<Seq<u8>>, Ghost(m): Ghost<nat>)
    requires
        old(buf)@ == p + zeros(m),
        off == p.len(),
        1 <= m,
    ensures
        final(buf)@ == (p + seq![v]) + zeros((m - 1) as nat),
{
    buf[off] = v;
    assert(buf@ =~= (p + seq![v]) + zeros((m - 1) as nat));
}

pub(crate) fn fill_u32(buf: &mut Vec<u8>, off: usize, v: u32, Ghost(p): Ghost<Seq<u8>>, Ghost(m): Ghost<nat>)
    requires
        old(buf)@ == p + zeros(m),
        off == p.len(),
        4 <= m,
    ensures
        final(buf)@ == (p + u32_be(v)) + zeros((m - 4) as nat),
{
    put_u32(buf.as_mut_slice(), off, v);
    proof {
        write_after_prefix(p, m, u32_be(v));
    }
}

pub(crate) fn fill_i32(buf: &mut Vec<u8>, off: usize, v: i32, Ghost(p): Ghost<Seq<u8>>, Ghost(m): Ghost<nat>)
    requires
        old(buf)@ == p + zeros(m),
        off == p.len(),
        4 <= m,
    ensures
        final(buf)@ == (p + i32_be(v)) + zeros((m - 4) as nat),
{
    put_i32(buf.as_mut_slice(), off, v);
    proof {
        write_after_prefix(p, m, i32_be(v));
    }
}

pub(crate) fn fill_i64(buf: &mut Vec<u8>, off: usize, v: i64, Ghost(p): Ghost<Seq<u8>>, Ghost(m): Ghost<nat>)
    requires
        old(buf)@ == p + zeros(m),
        off == p.len(),
        8 <= m,
    ensures
        final(buf)@ == (p + i64_be(v)) + zeros((m - 8) as nat),
{
    put_i64(buf.as_mut_slice(), off, v);
    proof {
        write_after_prefix(p, m, i64_be(v));
    }
}

pub(crate) fn fill_str_u16(buf: &mut Vec<u8>, off: usize, s: &[u8], Ghost(p): Ghost<Seq<u8>>, Ghost(m): Ghost<nat>) -> (end: usize)
    requires
        old(buf)@ == p + zeros(m),
        off == p.len(),
        2 + s@.len() <= m,
    ensures
        final(buf)@ == (p + str_u16_field(s@)) + zeros((m - 2 - s@.len()) as nat),
        end == off + 2 + s@.len(),
{
    let end = put_str_u16(buf.as_mut_slice(), off, s);
    proof {
        write_after_prefix(p, m, str_u16_field(s@));
    }
    end
}

pub(crate) fn fill_str_u8(buf: &mut Vec<u8>, off: usize, s: &[u8], Ghost(p): Ghost<Seq<u8>>, Ghost(m): Ghost<nat>) -> (end: usize)
    requires
        old(buf)@ == p + zeros(m),
        off == p.len(),
        1 + s@.len() <= m,
    ensures
        final(buf)@ == (p + str_u8_field(s@)) + zeros((m - 1 - s@.len()) as nat),
        end == off + 1 + s@.len(),
{
    let end = put_str_u8(buf.as_mut_slice(), off, s);
    proof {
        write_after_prefix(p, m, str_u8_field(s@));
    }
    end
}

/// A string's UTF-8 encoding takes at most four bytes per character.
pub proof fn utf8_len_bound(s: Seq<char>)
    ensures
        utf8(s).len() <= 4 * s.len(),
    decreases s.len(),
{
    if s.len() > 0 {
        utf8_len_bound(s.drop_first());
    }
}

/// A `u16`-length-prefixed string field reads back as the string, with the
/// offset just past it.
pub proof fn read_str_u16_field(p: Seq<u8>, s: Seq<char>, r: Seq<u8>)
    requires
        utf8(s).len() <= 65535,
    ensures
        read_str_u16(p + str_u16_field(utf8(s)) + r, p.len() as int) == Ok::<(Seq<char>, int), Error>(
            (s, (p.len() + 2 + utf8(s).len()) as int),
        ),
{
    let b = utf8(s);
    let all = p + str_u16_field(b) + r;
    u16_round_trip(b.len() as u16);
    assert(all[p.len() as int] == u16_be(b.len() as u16)[0]);
    assert(all[p.len() as int + 1] == u16_be(b.len() as u16)[1]);
    let p2 = p + u16_be(b.len() as u16);
    assert(all =~= p2 + b + r);
    read_str_of_utf8(p2, s, r);
}

/// A `u8`-length-prefixed string field reads back as the string, with the
/// offset just past it.
pub proof fn read_str_u8_field(p: Seq<u8>, s: Seq<char>, r: Seq<u8>)
    requires
        utf8(s).len() <= 255,
    ensures
        read_str_u8(p + str_u8_field(utf8(s)) + r, p.len() as int) == Ok::<(Seq<char>, int), Error>(
            (s, (p.len() + 1 + utf8(s).len()) as int),
        ),
{
    let b = utf8(s);
    let all = p + str_u8_field(b) + r;
    assert(all[p.len() as int] == b.len() as u8);
    let p2 = p + seq![b.len() as u8];
    assert(all =~= p2 + b + r);
    read_str_of_utf8(p2, s, r);
}

/// A big-endian `u32` field reads back as the value.
pub proof fn read_u32_field(p: Seq<u8>, v: u32, r: Seq<u8>)
    ensures
        read_u32(p + u32_be(v) + r, p.len() as int) == Ok::<u32, Error>(v),
{
    let all = p + u32_be(v) + r;
    u32_round_trip(v);
    assert(all[p.len() as int] == u32_be(v)[0]);
    assert(all[p.len() as int + 1] == u32_be(v)[1]);
    assert(all[p.len() as int + 2] == u32_be(v)[2]);
    assert(all[p.len() as int + 3] == u32_be(v)[3]);
}

} // verus!
