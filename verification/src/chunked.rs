//! Reading a body in the chunked transfer coding, as a whole: a model of a
//! reader that reads header lines and body bytes off the connection and
//! takes `video::Chunked`'s steps, and the law that what it reads back is
//! the body that was encoded.

use vstd::prelude::*;

use crate::video::{
    all_digits, back_while, chunk_next, chunk_size_of, cut_pred, digit_value, digits_value,
    first_of, got_step, is_ws, min_of, size_step, skip_while, trim, trim_by, unsigned_of, ChunkNext,
};

verus! {

broadcast use vstd::seq_lib::group_seq_properties;

// ---------------------------------------------------------------------------
// The encoding
// ---------------------------------------------------------------------------

pub open spec fn hex_byte(d: nat) -> u8 {
    if d < 10 {
        (d + 48) as u8
    } else {
        (d + 87) as u8
    }
}

/// `n` in lower-case hexadecimal ASCII (`{:x}`).
pub open spec fn hex_bytes(n: nat) -> Seq<u8>
    decreases n,
{
    if n < 16 {
        seq![hex_byte(n)]
    } else {
        hex_bytes(n / 16).push(hex_byte(n % 16))
    }
}

/// `body` in the chunked coding, in chunks of `k` bytes (the last may be
/// shorter): each chunk as its size in hexadecimal, CRLF, its bytes, CRLF;
/// then the last chunk `0`, CRLF, and the closing CRLF.
pub open spec fn chunk_encode(body: Seq<u8>, k: nat) -> Seq<u8>
    decreases body.len(),
{
    if body.len() == 0 || k == 0 {
        seq![48u8, 13, 10, 13, 10]
    } else {
        let n = if body.len() < k {
            body.len()
        } else {
            k
        };
        hex_bytes(n) + seq![13u8, 10] + body.take(n as int) + seq![13u8, 10] + chunk_encode(
            body.skip(n as int),
            k,
        )
    }
}

// ---------------------------------------------------------------------------
// The reader
// ---------------------------------------------------------------------------

/// How many bytes a header line takes from `p` on, `n` read so far: up to
/// and including a line feed, at most 8193.
pub open spec fn line_len(s: Seq<u8>, p: int, n: nat) -> nat
    decreases s.len() - p,
{
    if p < 0 || p >= s.len() {
        n
    } else if s[p] == 10 || n + 1 > 8192 {
        n + 1
    } else {
        line_len(s, p + 1, n + 1)
    }
}

/// A line without its trailing CRs and LFs.
pub open spec fn strip_line_end(b: Seq<u8>) -> Seq<u8>
    decreases b.len(),
{
    if b.len() > 0 && (b.last() == 13 || b.last() == 10) {
        strip_line_end(b.drop_last())
    } else {
        b
    }
}

/// ASCII bytes as text (lines of other bytes are not modelled).
pub open spec fn ascii_text(b: Seq<u8>) -> Option<Seq<char>> {
    if forall|i: int| 0 <= i < b.len() ==> #[trigger] b[i] < 128 {
        Some(Seq::new(b.len(), |i: int| b[i] as char))
    } else {
        None
    }
}

/// The header line at `p` and the position after it; `None` at the end of
/// the input.
pub open spec fn header_line(s: Seq<u8>, p: int) -> Option<(Seq<char>, int)> {
    let n = line_len(s, p, 0);
    if n == 0 {
        None
    } else {
        match ascii_text(strip_line_end(s.subrange(p, p + n))) {
            Some(t) => Some((t, p + n)),
            None => None,
        }
    }
}

/// One read of up to `w` body bytes at `p` of a chunk with `rem` bytes
/// left: the bytes, and the position and state after it (the CRLF after a
/// completed chunk read too). `None` for a truncated body.
pub open spec fn body_read(s: Seq<u8>, p: int, rem: usize, w: usize) -> Option<(Seq<u8>, int, usize, bool)> {
    let n: usize = if w as int <= s.len() - p {
        w
    } else if p <= s.len() {
        (s.len() - p) as usize
    } else {
        0
    };
    let (r2, g) = got_step(rem, n);
    match g {
        None => None,
        Some(complete) => if complete {
            if p + n + 2 <= s.len() {
                Some((s.subrange(p, p + n), p + n + 2, r2, false))
            } else {
                None
            }
        } else {
            Some((s.subrange(p, p + n), p + n, r2, false))
        },
    }
}

/// Chunk-size lines read from `p` until one says what to do.
pub open spec fn size_lines(s: Seq<u8>, p: int, want: usize) -> Option<(Seq<u8>, int, usize, bool)>
    decreases s.len() - p,
{
    match header_line(s, p) {
        None => None,
        Some((t, q)) => if !(p < q <= s.len()) {
            None
        } else {
            let (rem, done, nx) = size_step(t, want);
            match nx {
                ChunkNext::SizeLine => size_lines(s, q, want),
                ChunkNext::BadSize => None,
                ChunkNext::Eof => Some((Seq::empty(), q, rem, done)),
                ChunkNext::Read(w) => body_read(s, q, rem, w),
            }
        },
    }
}

/// One read of up to `want` bytes from state (`rem`, `done`) at `p`: what
/// it gives, and the position and state after it; `None` for an error.
pub open spec fn read_call(s: Seq<u8>, p: int, rem: usize, done: bool, want: usize) -> Option<
    (Seq<u8>, int, usize, bool),
> {
    match chunk_next(rem, done, want) {
        ChunkNext::Eof => Some((Seq::empty(), p, rem, done)),
        ChunkNext::SizeLine => size_lines(s, p, want),
        ChunkNext::Read(w) => body_read(s, p, rem, w),
        ChunkNext::BadSize => None,
    }
}

/// Reads of up to `want` bytes until one gives nothing: all they gave, and
/// whether the body ended.
pub open spec fn read_to_end(s: Seq<u8>, p: int, rem: usize, done: bool, want: usize) -> Option<(Seq<u8>, bool)>
    decreases s.len() - p,
{
    if p < 0 || p > s.len() {
        None
    } else {
        match read_call(s, p, rem, done, want) {
            None => None,
            Some((out, q, r2, d2)) => if out.len() == 0 {
                Some((Seq::empty(), d2))
            } else if p < q <= s.len() {
                match read_to_end(s, q, r2, d2, want) {
                    Some((x, d)) => Some((out + x, d)),
                    None => None,
                }
            } else {
                None
            },
        }
    }
}


// ---------------------------------------------------------------------------
// Hexadecimal sizes, read back
// ---------------------------------------------------------------------------

pub open spec fn as_chars(b: Seq<u8>) -> Seq<char> {
    Seq::new(b.len(), |i: int| b[i] as char)
}

/// A lower-case hexadecimal digit byte.
pub open spec fn is_hex_byte(b: u8) -> bool {
    (48 <= b <= 57) || (97 <= b <= 102)
}

pub open spec fn pow16(j: nat) -> nat
    decreases j,
{
    if j == 0 {
        1
    } else {
        16 * pow16((j - 1) as nat)
    }
}

proof fn hex_facts(n: nat)
    ensures
        hex_bytes(n).len() >= 1,
        forall|i: int| 0 <= i < hex_bytes(n).len() ==> is_hex_byte(#[trigger] hex_bytes(n)[i]),
        all_digits(as_chars(hex_bytes(n)), true),
        digits_value(as_chars(hex_bytes(n)), true) == n,
    decreases n,
{
    let b = hex_bytes(n);
    let c = as_chars(b);
    if n < 16 {
        assert(c.drop_last() =~= Seq::<char>::empty());
        assert(digit_value(c[0], true) == Some(n));
        assert(c.last() == c[0]);
        assert(digits_value(c.drop_last(), true) == 0);
        assert(digits_value(c, true) == digits_value(c.drop_last(), true) * 16 + n);
    } else {
        hex_facts(n / 16);
        let pb = hex_bytes(n / 16);
        assert(c.drop_last() =~= as_chars(pb));
        let d = n % 16;
        assert(digit_value(c.last(), true) == Some(d));
        assert forall|i: int| 0 <= i < b.len() implies is_hex_byte(#[trigger] b[i]) by {
            if i < pb.len() {
                assert(b[i] == pb[i]);
            }
        }
        assert forall|i: int| 0 <= i < c.len() implies (#[trigger] digit_value(c[i], true)) is Some by {
            if i < pb.len() {
                assert(c[i] == as_chars(pb)[i]);
            }
        }
        assert(digits_value(c, true) == digits_value(as_chars(pb), true) * 16 + d);
        assert((n / 16) * 16 + n % 16 == n);
    }
}

proof fn hex_len(n: nat, j: nat)
    requires
        j >= 1,
        n < pow16(j),
    ensures
        hex_bytes(n).len() <= j,
    decreases j,
{
    if n >= 16 {
        let p = pow16((j - 1) as nat);
        assert(j >= 2) by {
            if j == 1 {
                assert(pow16(0) == 1);
            }
        }
        assert(n / 16 < p) by (nonlinear_arith)
            requires
                n < 16 * p,
        ;
        hex_len(n / 16, (j - 1) as nat);
    }
}

proof fn hex_short(n: nat)
    requires
        n <= usize::MAX,
    ensures
        hex_bytes(n).len() <= 16,
{
    reveal_with_fuel(pow16, 17);
    assert(pow16(16) == 0x1_0000_0000_0000_0000);
    hex_len(n, 16);
}

proof fn first_of_none(s: Seq<char>, c: char, from: int)
    requires
        0 <= from,
        forall|i: int| from <= i < s.len() ==> s[i] != c,
    ensures
        first_of(s, c, from) is None,
    decreases s.len() - from,
{
    if from < s.len() {
        first_of_none(s, c, from + 1);
    }
}

/// A size written in hexadecimal reads back as itself.
proof fn size_reads_back(n: nat)
    requires
        n <= usize::MAX,
    ensures
        chunk_size_of(as_chars(hex_bytes(n))) == Some(n),
{
    hex_facts(n);
    let t = as_chars(hex_bytes(n));
    assert forall|i: int| 0 <= i < t.len() implies t[i] != ';' && !is_ws(t[i]) && t[i] != '+' by {
        assert(is_hex_byte(hex_bytes(n)[i]));
    }
    first_of_none(t, ';', 0);
    assert(t.take(t.len() as int) =~= t);
    let p = cut_pred(true);
    assert(!p(t[0]));
    assert(!p(t[t.len() - 1]));
    assert(skip_while(t, 0, p) == 0);
    assert(back_while(t, t.len() as int, p) == t.len());
    assert(t.subrange(0, t.len() as int) =~= t);
    assert(trim(t) == t);
}

// ---------------------------------------------------------------------------
// Lines
// ---------------------------------------------------------------------------

proof fn line_len_skip(s: Seq<u8>, p: int, n: nat, j: nat)
    requires
        0 <= p,
        p + j <= s.len(),
        n + j <= 8192,
        forall|t: int| p <= t < p + j ==> s[t] != 10,
    ensures
        line_len(s, p, n) == line_len(s, p + j, n + j),
    decreases j,
{
    if j > 0 {
        line_len_skip(s, p + 1, n + 1, (j - 1) as nat);
    }
}

/// A header line holding a size in hexadecimal, then CRLF, reads as the
/// size's digits.
proof fn size_line_at(s: Seq<u8>, p: int, m: nat)
    requires
        0 <= p,
        m <= usize::MAX,
        p + hex_bytes(m).len() + 2 <= s.len(),
        s.subrange(p, p + hex_bytes(m).len() + 2) == hex_bytes(m) + seq![13u8, 10],
    ensures
        header_line(s, p) == Some((as_chars(hex_bytes(m)), p + hex_bytes(m).len() + 2)),
{
    let h = hex_bytes(m);
    let hl = h.len() as int;
    hex_facts(m);
    hex_short(m);
    let l = h + seq![13u8, 10];
    assert forall|t: int| p <= t < p + hl + 1 implies s[t] != 10 by {
        assert(s[t] == s.subrange(p, p + hl + 2)[t - p]);
        if t - p < hl {
            assert(l[t - p] == h[t - p]);
            assert(is_hex_byte(h[t - p]));
        } else {
            assert(l[t - p] == 13);
        }
    }
    line_len_skip(s, p, 0, (hl + 1) as nat);
    assert(s[p + hl + 1] == s.subrange(p, p + hl + 2)[hl + 1]);
    assert(l[hl + 1] == 10);
    assert(line_len(s, p, 0) == hl + 2);
    let raw = s.subrange(p, p + hl + 2);
    assert(raw.drop_last() =~= h + seq![13u8]);
    assert((h + seq![13u8]).drop_last() =~= h);
    assert(is_hex_byte(h.last()));
    assert(strip_line_end(raw) == strip_line_end(h + seq![13u8]));
    assert(strip_line_end(h + seq![13u8]) == strip_line_end(h));
    assert(strip_line_end(h) == h);
    assert(forall|i: int| 0 <= i < h.len() ==> #[trigger] h[i] < 128);
}


// ---------------------------------------------------------------------------
// Reading an encoded body back
// ---------------------------------------------------------------------------

pub open spec fn prepend(b: Seq<u8>, r: Option<(Seq<u8>, bool)>) -> Option<(Seq<u8>, bool)> {
    match r {
        Some((x, d)) => Some((b + x, d)),
        None => None,
    }
}

/// The rest of a chunk, `r` bytes and its CRLF, reads as those bytes.
proof fn rest_of_chunk(s: Seq<u8>, p: int, r: usize, want: usize)
    requires
        0 <= p,
        r >= 1,
        want >= 1,
        p + r + 2 <= s.len(),
    ensures
        read_to_end(s, p, r, false, want) == prepend(
            s.subrange(p, p + r),
            read_to_end(s, p + r + 2, 0, false, want),
        ),
    decreases r,
{
    let w = min_of(r, want);
    assert(chunk_next(r, false, want) == ChunkNext::Read(w));
    assert(got_step(r, w) == ((r - w) as usize, Some(r - w == 0)));
    if r - w == 0 {
        assert(body_read(s, p, r, w) == Some((s.subrange(p, p + w), p + w + 2, 0usize, false)));
        assert(w == r);
    } else {
        assert(body_read(s, p, r, w) == Some((s.subrange(p, p + w), p + w, (r - w) as usize, false)));
        rest_of_chunk(s, p + w, (r - w) as usize, want);
        let rest = read_to_end(s, p + r + 2, 0, false, want);
        match rest {
            Some((x, d)) => {
                assert(s.subrange(p, p + w) + (s.subrange(p + w, p + r) + x) =~= s.subrange(p, p + r) + x);
            },
            None => {},
        }
    }
}

/// A whole chunk of `m` bytes reads as its bytes.
proof fn one_chunk(s: Seq<u8>, p: int, m: nat, want: usize)
    requires
        0 <= p,
        1 <= m <= usize::MAX,
        want >= 1,
        p + hex_bytes(m).len() + m + 4 <= s.len(),
        s.subrange(p, p + hex_bytes(m).len() + 2) == hex_bytes(m) + seq![13u8, 10],
    ensures
        read_to_end(s, p, 0, false, want) == prepend(
            s.subrange(p + hex_bytes(m).len() + 2, p + hex_bytes(m).len() + 2 + m),
            read_to_end(s, p + hex_bytes(m).len() + m + 4, 0, false, want),
        ),
{
    let hl = hex_bytes(m).len() as int;
    let q = p + hl + 2;
    size_line_at(s, p, m);
    size_reads_back(m);
    hex_facts(m);
    let t = as_chars(hex_bytes(m));
    let w = min_of(m as usize, want);
    assert(size_step(t, want) == (m as usize, false, ChunkNext::Read(w)));
    assert(chunk_next(0, false, want) == ChunkNext::SizeLine);
    assert(read_call(s, p, 0, false, want) == body_read(s, q, m as usize, w));
    assert(chunk_next(m as usize, false, want) == ChunkNext::Read(w));
    assert(read_call(s, q, m as usize, false, want) == body_read(s, q, m as usize, w));
    assert(read_to_end(s, p, 0, false, want) == read_to_end(s, q, m as usize, false, want));
    rest_of_chunk(s, q, m as usize, want);
}

/// The last chunk reads as the end of the body.
proof fn last_chunk(s: Seq<u8>, p: int, want: usize)
    requires
        0 <= p,
        want >= 1,
        p + 5 <= s.len(),
        s.subrange(p, p + 5) == seq![48u8, 13, 10, 13, 10],
    ensures
        read_to_end(s, p, 0, false, want) == Some((Seq::<u8>::empty(), true)),
{
    assert(hex_bytes(0) == seq![48u8]);
    assert(s.subrange(p, p + 3) =~= hex_bytes(0) + seq![13u8, 10]);
    size_line_at(s, p, 0);
    size_reads_back(0);
    assert(as_chars(hex_bytes(0)).len() == 1);
    assert(size_step(as_chars(hex_bytes(0)), want) == (0usize, true, ChunkNext::Eof));
}

#[verifier::spinoff_prover]
#[verifier::rlimit(80)]
proof fn encoded_at(s: Seq<u8>, p: int, body: Seq<u8>, k: nat, want: usize)
    requires
        0 <= p,
        k >= 1,
        want >= 1,
        body.len() <= usize::MAX,
        p + chunk_encode(body, k).len() <= s.len(),
        s.subrange(p, p + chunk_encode(body, k).len()) == chunk_encode(body, k),
    ensures
        read_to_end(s, p, 0, false, want) == Some((body, true)),
    decreases body.len(),
{
    let e = chunk_encode(body, k);
    if body.len() == 0 {
        last_chunk(s, p, want);
    } else {
        let n: nat = if body.len() < k {
            body.len()
        } else {
            k
        };
        let h = hex_bytes(n);
        let hl = h.len() as int;
        let rest = chunk_encode(body.skip(n as int), k);
        assert(e == h + seq![13u8, 10] + body.take(n as int) + seq![13u8, 10] + rest);
        assert(e.len() == hl + n + 4 + rest.len());
        assert(s.subrange(p, p + hl + 2) =~= e.take(hl + 2));
        assert(e.take(hl + 2) =~= h + seq![13u8, 10]);
        one_chunk(s, p, n, want);
        assert(s.subrange(p + hl + 2, p + hl + 2 + n) =~= e.subrange(hl + 2, hl + 2 + n));
        assert(e.subrange(hl + 2, hl + 2 + n) =~= body.take(n as int));
        assert(s.subrange(p + hl + n + 4, p + hl + n + 4 + rest.len()) =~= e.subrange(hl + n + 4, e.len() as int));
        assert(e.subrange(hl + n + 4, e.len() as int) =~= rest);
        encoded_at(s, p + hl + n + 4, body.skip(n as int), k, want);
        assert(body.take(n as int) + body.skip(n as int) =~= body);
    }
}

/// Reading a body encoded in chunks of any size, with reads of any size,
/// gives back the body, and the reader is then at the end of the body (every
/// later read gives nothing).
pub proof fn dechunk_restores(body: Seq<u8>, k: nat, want: usize)
    requires
        k >= 1,
        want >= 1,
        body.len() <= usize::MAX,
    ensures
        read_to_end(chunk_encode(body, k), 0, 0, false, want) == Some((body, true)),
        forall|r: usize, w: usize| chunk_next(r, true, w) == ChunkNext::Eof,
{
    let e = chunk_encode(body, k);
    assert(e.subrange(0, e.len() as int) =~= e);
    encoded_at(e, 0, body, k, want);
}

} // verus!
