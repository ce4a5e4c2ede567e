//! Minimal standard-alphabet base64 (RFC 4648, with padding): just enough
//! for the `encodedData` field of frame chunks, matching Android's
//! `Base64.encodeToString(data, offset, len, 0)` on the RC side.

use vstd::prelude::*;
use vstd::utf8::*;

use crate::text;

verus! {

broadcast use vstd::seq_lib::group_seq_properties;

// ---------------------------------------------------------------------------
// Model
// ---------------------------------------------------------------------------

/// The ASCII code of alphabet digit `v` (`v < 64`):
/// `A-Z`, `a-z`, `0-9`, `+`, `/`.
pub open spec fn b64_digit(v: u8) -> u8 {
    if v < 26 {
        (65 + v) as u8
    } else if v < 52 {
        (97 + v - 26) as u8
    } else if v < 62 {
        (48 + v - 52) as u8
    } else if v == 62 {
        43
    } else {
        47
    }
}

/// The value of an alphabet byte, `None` for every other byte.
pub open spec fn b64_value(b: u8) -> Option<u8> {
    if 65 <= b <= 90 {
        Some((b - 65) as u8)
    } else if 97 <= b <= 122 {
        Some((b - 97 + 26) as u8)
    } else if 48 <= b <= 57 {
        Some((b - 48 + 52) as u8)
    } else if b == 43 {
        Some(62u8)
    } else if b == 47 {
        Some(63u8)
    } else {
        None
    }
}

/// The whitespace the decoder skips: space, tab, CR, LF.
pub open spec fn is_b64_space(b: u8) -> bool {
    b == 32 || b == 9 || b == 13 || b == 10
}

/// The padding byte `=`.
pub open spec fn pad() -> u8 {
    61
}

/// The four output bytes of one group of one to three input bytes.
pub open spec fn encode_group(g: Seq<u8>) -> Seq<u8> {
    let b0 = g[0];
    let b1: u8 = if g.len() > 1 {
        g[1]
    } else {
        0
    };
    let b2: u8 = if g.len() > 2 {
        g[2]
    } else {
        0
    };
    seq![
        b64_digit(b0 >> 2u8),
        b64_digit(((b0 & 3u8) << 4u8) | (b1 >> 4u8)),
        if g.len() > 1 {
            b64_digit(((b1 & 15u8) << 2u8) | (b2 >> 6u8))
        } else {
            pad()
        },
        if g.len() > 2 {
            b64_digit(b2 & 63u8)
        } else {
            pad()
        },
    ]
}

/// The ASCII bytes of the padded encoding of `data`, three bytes at a time.
pub open spec fn encode_bytes(data: Seq<u8>) -> Seq<u8>
    decreases data.len(),
{
    if data.len() == 0 {
        Seq::empty()
    } else if data.len() <= 3 {
        encode_group(data)
    } else {
        encode_group(data.take(3)) + encode_bytes(data.skip(3))
    }
}

/// ASCII bytes taken as characters.
pub open spec fn ascii_chars(b: Seq<u8>) -> Seq<char> {
    Seq::new(b.len(), |i: int| b[i] as char)
}

/// The encoding of `data` as a string.
pub open spec fn spec_encode(data: Seq<u8>) -> Seq<char> {
    ascii_chars(encode_bytes(data))
}

/// The sextets an encoded text carries: whitespace skipped, reading stopped
/// at the first `=`, `None` at the first byte that is none of these nor an
/// alphabet digit.
pub open spec fn sextets_of(b: Seq<u8>) -> Option<Seq<u8>>
    decreases b.len(),
{
    if b.len() == 0 {
        Some(Seq::empty())
    } else if is_b64_space(b[0]) {
        sextets_of(b.drop_first())
    } else if b[0] == pad() {
        Some(Seq::empty())
    } else {
        match b64_value(b[0]) {
            None => None,
            Some(v) => match sextets_of(b.drop_first()) {
                Some(r) => Some(seq![v] + r),
                None => None,
            },
        }
    }
}

/// The bytes a group of two to four sextets decodes to.
pub open spec fn decode_group(c: Seq<u8>) -> Seq<u8> {
    let b0 = (c[0] << 2u8) | (c[1] >> 4u8);
    if c.len() == 2 {
        seq![b0]
    } else if c.len() == 3 {
        seq![b0, (c[1] << 4u8) | (c[2] >> 2u8)]
    } else {
        seq![b0, (c[1] << 4u8) | (c[2] >> 2u8), (c[2] << 6u8) | c[3]]
    }
}

/// The bytes a run of sextets decodes to, four at a time; a lone trailing
/// sextet makes the whole text invalid.
pub open spec fn decode_sextets(s: Seq<u8>) -> Option<Seq<u8>>
    decreases s.len(),
{
    if s.len() == 0 {
        Some(Seq::empty())
    } else if s.len() == 1 {
        None
    } else if s.len() <= 4 {
        Some(decode_group(s))
    } else {
        match decode_sextets(s.skip(4)) {
            Some(r) => Some(decode_group(s.take(4)) + r),
            None => None,
        }
    }
}

/// The bytes a base64 text decodes to, `None` where it is invalid.
pub open spec fn spec_decode(s: Seq<char>) -> Option<Seq<u8>> {
    match sextets_of(encode_utf8(s)) {
        Some(x) => decode_sextets(x),
        None => None,
    }
}


/// Whitespace the decoder skips, as characters.
pub open spec fn is_space_char(c: char) -> bool {
    c == ' ' || c == '\t' || c == '\r' || c == '\n'
}

proof fn encode_utf8_concat(a: Seq<char>, b: Seq<char>)
    ensures
        encode_utf8(a + b) == encode_utf8(a) + encode_utf8(b),
    decreases a.len(),
{
    if a.len() == 0 {
        assert(a + b =~= b);
    } else {
        encode_utf8_concat(a.drop_first(), b);
        assert((a + b).drop_first() =~= a.drop_first() + b);
        assert((a + b)[0] == a[0]);
    }
}

proof fn spaces_encode(w: Seq<char>)
    requires
        forall|i: int| 0 <= i < w.len() ==> is_space_char(#[trigger] w[i]),
    ensures
        forall|i: int| 0 <= i < encode_utf8(w).len() ==> is_b64_space(#[trigger] encode_utf8(w)[i]),
{
    assert(is_ascii_chars(w));
    is_ascii_chars_encode_utf8(w);
    assert forall|i: int| 0 <= i < encode_utf8(w).len() implies is_b64_space(#[trigger] encode_utf8(w)[i]) by {
        assert(w[i] as u8 == encode_utf8(w)[i]);
        assert(is_space_char(w[i]));
    }
}

proof fn sextets_skip_spaces(a: Seq<u8>, w: Seq<u8>, b: Seq<u8>)
    requires
        forall|i: int| 0 <= i < w.len() ==> is_b64_space(#[trigger] w[i]),
    ensures
        sextets_of(a + w + b) == sextets_of(a + b),
    decreases a.len() + w.len(),
{
    if a.len() == 0 {
        assert(a + w + b =~= w + b);
        assert(a + b =~= b);
        if w.len() > 0 {
            assert((w + b)[0] == w[0]);
            assert((w + b).drop_first() =~= Seq::<u8>::empty() + w.drop_first() + b);
            sextets_skip_spaces(Seq::<u8>::empty(), w.drop_first(), b);
            assert(Seq::<u8>::empty() + b =~= b);
        } else {
            assert(w + b =~= b);
        }
    } else {
        let x = a + w + b;
        let y = a + b;
        assert(x[0] == a[0]);
        assert(y[0] == a[0]);
        assert(x.drop_first() =~= a.drop_first() + w + b);
        assert(y.drop_first() =~= a.drop_first() + b);
        sextets_skip_spaces(a.drop_first(), w, b);
    }
}

/// Whitespace (space, tab, CR, LF) inserted anywhere in a base64 text does
/// not change what it decodes to, so wrapped output decodes as unwrapped.
pub proof fn whitespace_is_ignored(s: Seq<char>, i: int, w: Seq<char>)
    requires
        0 <= i <= s.len(),
        forall|j: int| 0 <= j < w.len() ==> is_space_char(#[trigger] w[j]),
    ensures
        spec_decode(s.take(i) + w + s.skip(i)) == spec_decode(s),
{
    encode_utf8_concat(s.take(i) + w, s.skip(i));
    encode_utf8_concat(s.take(i), w);
    encode_utf8_concat(s.take(i), s.skip(i));
    assert(s.take(i) + s.skip(i) =~= s);
    spaces_encode(w);
    sextets_skip_spaces(encode_utf8(s.take(i)), encode_utf8(w), encode_utf8(s.skip(i)));
}

// ---------------------------------------------------------------------------
// Laws
// ---------------------------------------------------------------------------

proof fn digit_facts(v: u8)
    requires
        v < 64,
    ensures
        b64_value(b64_digit(v)) == Some(v),
        !is_b64_space(b64_digit(v)),
        b64_digit(v) != pad(),
        b64_digit(v) < 128,
{
}

/// The sextets of one encoded group (two, three or four of them).
pub open spec fn group_sextets(g: Seq<u8>) -> Seq<u8> {
    let b0 = g[0];
    let b1: u8 = if g.len() > 1 {
        g[1]
    } else {
        0
    };
    let b2: u8 = if g.len() > 2 {
        g[2]
    } else {
        0
    };
    let s = seq![b0 >> 2u8, ((b0 & 3u8) << 4u8) | (b1 >> 4u8)];
    if g.len() == 1 {
        s
    } else if g.len() == 2 {
        s.push(((b1 & 15u8) << 2u8) | (b2 >> 6u8))
    } else {
        s.push(((b1 & 15u8) << 2u8) | (b2 >> 6u8)).push(b2 & 63u8)
    }
}

/// The sextets of the whole encoding of `data`.
pub open spec fn data_sextets(data: Seq<u8>) -> Seq<u8>
    decreases data.len(),
{
    if data.len() == 0 {
        Seq::empty()
    } else if data.len() <= 3 {
        group_sextets(data)
    } else {
        group_sextets(data.take(3)) + data_sextets(data.skip(3))
    }
}

proof fn sextet_bounds(b0: u8, b1: u8, b2: u8)
    ensures
        b0 >> 2u8 < 64,
        ((b0 & 3u8) << 4u8) | (b1 >> 4u8) < 64,
        ((b1 & 15u8) << 2u8) | (b2 >> 6u8) < 64,
        b2 & 63u8 < 64,
{
    assert(b0 >> 2u8 < 64) by (bit_vector);
    assert(((b0 & 3u8) << 4u8) | (b1 >> 4u8) < 64) by (bit_vector);
    assert(((b1 & 15u8) << 2u8) | (b2 >> 6u8) < 64) by (bit_vector);
    assert(b2 & 63u8 < 64) by (bit_vector);
}

proof fn sextets_of_digit(v: u8, rest: Seq<u8>)
    requires
        v < 64,
    ensures
        sextets_of(seq![b64_digit(v)] + rest) == match sextets_of(rest) {
            Some(r) => Some(seq![v] + r),
            None => None::<Seq<u8>>,
        },
{
    digit_facts(v);
    assert((seq![b64_digit(v)] + rest).drop_first() =~= rest);
}

proof fn sextets_of_pad(rest: Seq<u8>)
    ensures
        sextets_of(seq![pad()] + rest) == Some(Seq::<u8>::empty()),
{
}

/// The encoded bytes of a group read back as its sextets, followed by what
/// the rest reads as (nothing past a padded group).
proof fn sextets_of_group(g: Seq<u8>, rest: Seq<u8>)
    requires
        1 <= g.len() <= 3,
    ensures
        sextets_of(encode_group(g) + rest) == if g.len() == 3 {
            match sextets_of(rest) {
                Some(r) => Some(group_sextets(g) + r),
                None => None::<Seq<u8>>,
            }
        } else {
            Some(group_sextets(g))
        },
{
    let e = encode_group(g);
    let gs = group_sextets(g);
    let b0 = g[0];
    let b1: u8 = if g.len() > 1 {
        g[1]
    } else {
        0
    };
    let b2: u8 = if g.len() > 2 {
        g[2]
    } else {
        0
    };
    sextet_bounds(b0, b1, b2);
    let r3 = seq![e[3]] + rest;
    let r2 = seq![e[2]] + r3;
    let r1 = seq![e[1]] + r2;
    assert(e + rest =~= seq![e[0]] + r1);
    sextets_of_digit(b0 >> 2u8, r1);
    sextets_of_digit(((b0 & 3u8) << 4u8) | (b1 >> 4u8), r2);
    if g.len() == 1 {
        sextets_of_pad(r3);
        assert(gs =~= seq![gs[0]] + (seq![gs[1]] + Seq::<u8>::empty()));
    } else {
        sextets_of_digit(((b1 & 15u8) << 2u8) | (b2 >> 6u8), r3);
        if g.len() == 2 {
            sextets_of_pad(rest);
            assert(gs =~= seq![gs[0]] + (seq![gs[1]] + (seq![gs[2]] + Seq::<u8>::empty())));
        } else {
            sextets_of_digit(b2 & 63u8, rest);
            match sextets_of(rest) {
                Some(r) => {
                    assert(gs + r =~= seq![gs[0]] + (seq![gs[1]] + (seq![gs[2]] + (seq![gs[3]]
                        + r))));
                },
                None => {},
            }
        }
    }
}

/// The sextets of a group decode back to the group.
proof fn decode_group_sextets(g: Seq<u8>)
    requires
        1 <= g.len() <= 3,
    ensures
        decode_group(group_sextets(g)) == g,
{
    let b0 = g[0];
    let b1: u8 = if g.len() > 1 {
        g[1]
    } else {
        0
    };
    let b2: u8 = if g.len() > 2 {
        g[2]
    } else {
        0
    };
    assert((((b0 >> 2u8) << 2u8) | ((((b0 & 3u8) << 4u8) | (b1 >> 4u8)) >> 4u8)) == b0)
        by (bit_vector);
    assert((((((b0 & 3u8) << 4u8) | (b1 >> 4u8)) << 4u8) | ((((b1 & 15u8) << 2u8) | (b2 >> 6u8))
        >> 2u8)) == b1) by (bit_vector);
    assert((((((b1 & 15u8) << 2u8) | (b2 >> 6u8)) << 6u8) | (b2 & 63u8)) == b2) by (bit_vector);
    assert(decode_group(group_sextets(g)) =~= g);
}

proof fn data_sextets_len(data: Seq<u8>)
    requires
        data.len() > 0,
    ensures
        data_sextets(data).len() >= 2,
        data.len() > 3 ==> data_sextets(data).len() > 4,
    decreases data.len(),
{
    if data.len() > 3 {
        data_sextets_len(data.skip(3));
    }
}

proof fn encode_decode_sextets(data: Seq<u8>)
    ensures
        sextets_of(encode_bytes(data)) == Some(data_sextets(data)),
        decode_sextets(data_sextets(data)) == Some(data),
    decreases data.len(),
{
    if data.len() == 0 {
    } else if data.len() <= 3 {
        sextets_of_group(data, Seq::empty());
        assert(encode_group(data) + Seq::<u8>::empty() =~= encode_group(data));
        decode_group_sextets(data);
    } else {
        let g = data.take(3);
        let rest = data.skip(3);
        encode_decode_sextets(rest);
        sextets_of_group(g, encode_bytes(rest));
        decode_group_sextets(g);
        data_sextets_len(data);
        let s = data_sextets(data);
        assert(s.take(4) =~= group_sextets(g));
        assert(s.skip(4) =~= data_sextets(rest));
        assert(g + rest =~= data);
    }
}

proof fn encode_group_ascii(g: Seq<u8>)
    requires
        1 <= g.len() <= 3,
    ensures
        forall|i: int| 0 <= i < 4 ==> #[trigger] encode_group(g)[i] < 128,
        encode_group(g).len() == 4,
{
    let b0 = g[0];
    let b1: u8 = if g.len() > 1 {
        g[1]
    } else {
        0
    };
    let b2: u8 = if g.len() > 2 {
        g[2]
    } else {
        0
    };
    sextet_bounds(b0, b1, b2);
    digit_facts(b0 >> 2u8);
    digit_facts(((b0 & 3u8) << 4u8) | (b1 >> 4u8));
    digit_facts(((b1 & 15u8) << 2u8) | (b2 >> 6u8));
    digit_facts(b2 & 63u8);
}

proof fn encode_bytes_ascii(data: Seq<u8>)
    ensures
        forall|i: int| 0 <= i < encode_bytes(data).len() ==> #[trigger] encode_bytes(data)[i] < 128,
    decreases data.len(),
{
    if data.len() > 0 {
        if data.len() <= 3 {
            encode_group_ascii(data);
        } else {
            let g = data.take(3);
            let rest = data.skip(3);
            encode_group_ascii(g);
            encode_bytes_ascii(rest);
            let e = encode_bytes(data);
            assert forall|i: int| 0 <= i < e.len() implies #[trigger] e[i] < 128 by {
                if i < 4 {
                    assert(e[i] == encode_group(g)[i]);
                } else {
                    assert(e[i] == encode_bytes(rest)[i - 4]);
                }
            }
        }
    }
}

/// The UTF-8 bytes of an encoding are its ASCII bytes.
proof fn utf8_of_encoding(data: Seq<u8>)
    ensures
        encode_utf8(spec_encode(data)) == encode_bytes(data),
{
    let e = encode_bytes(data);
    let c = spec_encode(data);
    encode_bytes_ascii(data);
    assert(is_ascii_chars(c));
    is_ascii_chars_encode_utf8(c);
    assert(encode_utf8(c) =~= e);
}

/// The standard base64 alphabet of RFC 4648 (`+` and `/` for 62 and 63).
pub open spec fn alphabet() -> Seq<char> {
    "ABCDEFGHIJKLMNOPQRSTUVWXYZabcdefghijklmnopqrstuvwxyz0123456789+/"@
}

/// Each digit is its character of the alphabet.
proof fn alphabet_digit(v: u8)
    requires
        v < 64,
    ensures
        b64_digit(v) as char == alphabet()[v as int],
        alphabet().len() == 64,
{
    reveal_strlit("ABCDEFGHIJKLMNOPQRSTUVWXYZabcdefghijklmnopqrstuvwxyz0123456789+/");
    if v == 0 {
        assert(alphabet()[0] == 'A');
    } else if v == 1 {
        assert(alphabet()[1] == 'B');
    } else if v == 2 {
        assert(alphabet()[2] == 'C');
    } else if v == 3 {
        assert(alphabet()[3] == 'D');
    } else if v == 4 {
        assert(alphabet()[4] == 'E');
    } else if v == 5 {
        assert(alphabet()[5] == 'F');
    } else if v == 6 {
        assert(alphabet()[6] == 'G');
    } else if v == 7 {
        assert(alphabet()[7] == 'H');
    } else if v == 8 {
        assert(alphabet()[8] == 'I');
    } else if v == 9 {
        assert(alphabet()[9] == 'J');
    } else if v == 10 {
        assert(alphabet()[10] == 'K');
    } else if v == 11 {
        assert(alphabet()[11] == 'L');
    } else if v == 12 {
        assert(alphabet()[12] == 'M');
    } else if v == 13 {
        assert(alphabet()[13] == 'N');
    } else if v == 14 {
        assert(alphabet()[14] == 'O');
    } else if v == 15 {
        assert(alphabet()[15] == 'P');
    } else if v == 16 {
        assert(alphabet()[16] == 'Q');
    } else if v == 17 {
        assert(alphabet()[17] == 'R');
    } else if v == 18 {
        assert(alphabet()[18] == 'S');
    } else if v == 19 {
        assert(alphabet()[19] == 'T');
    } else if v == 20 {
        assert(alphabet()[20] == 'U');
    } else if v == 21 {
        assert(alphabet()[21] == 'V');
    } else if v == 22 {
        assert(alphabet()[22] == 'W');
    } else if v == 23 {
        assert(alphabet()[23] == 'X');
    } else if v == 24 {
        assert(alphabet()[24] == 'Y');
    } else if v == 25 {
        assert(alphabet()[25] == 'Z');
    } else if v == 26 {
        assert(alphabet()[26] == 'a');
    } else if v == 27 {
        assert(alphabet()[27] == 'b');
    } else if v == 28 {
        assert(alphabet()[28] == 'c');
    } else if v == 29 {
        assert(alphabet()[29] == 'd');
    } else if v == 30 {
        assert(alphabet()[30] == 'e');
    } else if v == 31 {
        assert(alphabet()[31] == 'f');
    } else if v == 32 {
        assert(alphabet()[32] == 'g');
    } else if v == 33 {
        assert(alphabet()[33] == 'h');
    } else if v == 34 {
        assert(alphabet()[34] == 'i');
    } else if v == 35 {
        assert(alphabet()[35] == 'j');
    } else if v == 36 {
        assert(alphabet()[36] == 'k');
    } else if v == 37 {
        assert(alphabet()[37] == 'l');
    } else if v == 38 {
        assert(alphabet()[38] == 'm');
    } else if v == 39 {
        assert(alphabet()[39] == 'n');
    } else if v == 40 {
        assert(alphabet()[40] == 'o');
    } else if v == 41 {
        assert(alphabet()[41] == 'p');
    } else if v == 42 {
        assert(alphabet()[42] == 'q');
    } else if v == 43 {
        assert(alphabet()[43] == 'r');
    } else if v == 44 {
        assert(alphabet()[44] == 's');
    } else if v == 45 {
        assert(alphabet()[45] == 't');
    } else if v == 46 {
        assert(alphabet()[46] == 'u');
    } else if v == 47 {
        assert(alphabet()[47] == 'v');
    } else if v == 48 {
        assert(alphabet()[48] == 'w');
    } else if v == 49 {
        assert(alphabet()[49] == 'x');
    } else if v == 50 {
        assert(alphabet()[50] == 'y');
    } else if v == 51 {
        assert(alphabet()[51] == 'z');
    } else if v == 52 {
        assert(alphabet()[52] == '0');
    } else if v == 53 {
        assert(alphabet()[53] == '1');
    } else if v == 54 {
        assert(alphabet()[54] == '2');
    } else if v == 55 {
        assert(alphabet()[55] == '3');
    } else if v == 56 {
        assert(alphabet()[56] == '4');
    } else if v == 57 {
        assert(alphabet()[57] == '5');
    } else if v == 58 {
        assert(alphabet()[58] == '6');
    } else if v == 59 {
        assert(alphabet()[59] == '7');
    } else if v == 60 {
        assert(alphabet()[60] == '8');
    } else if v == 61 {
        assert(alphabet()[61] == '9');
    } else if v == 62 {
        assert(alphabet()[62] == '+');
    } else if v == 63 {
        assert(alphabet()[63] == '/');
    }
}

/// The encoder writes the RFC 4648 alphabet: digit `v` is the `v`-th
/// character of the standard alphabet, and the decoder reads exactly those
/// characters back as their positions.
pub proof fn rfc4648_alphabet(v: u8, b: u8)
    ensures
        v < 64 ==> b64_digit(v) as char == alphabet()[v as int],
        b64_value(b) matches Some(x) ==> x < 64 && alphabet()[x as int] == b as char,
        alphabet().len() == 64,
{
    alphabet_digit(0);
    if v < 64 {
        alphabet_digit(v);
    }
    match b64_value(b) {
        Some(x) => {
            assert(b64_digit(x) == b);
            alphabet_digit(x);
        },
        None => {},
    }
}

/// A known vector with both of the last two digits: bytes FB FF encode as
/// `+/8=`.
pub proof fn encodes_plus_and_slash()
    ensures
        spec_encode(seq![0xFBu8, 0xFFu8]) == "+/8="@,
{
    reveal_strlit("+/8=");
    let e = encode_group(seq![0xFBu8, 0xFFu8]);
    assert(encode_bytes(seq![0xFBu8, 0xFFu8]) == e);
    assert(0xFBu8 >> 2u8 == 62u8 && ((0xFBu8 & 3u8) << 4u8) | (0xFFu8 >> 4u8) == 63u8 && ((0xFFu8
        & 15u8) << 2u8) | (0u8 >> 6u8) == 60u8) by (bit_vector);
    assert(e[0] == 43 && e[1] == 47 && e[2] == 56 && e[3] == 61);
    encode_group_ascii(seq![0xFBu8, 0xFFu8]);
    assert(spec_encode(seq![0xFBu8, 0xFFu8]) =~= "+/8="@);
}

/// The encoding has four characters for each started group of three bytes.
pub proof fn encoded_length(data: Seq<u8>)
    ensures
        spec_encode(data).len() == 4 * ((data.len() + 2) / 3),
    decreases data.len(),
{
    if data.len() > 0 {
        if data.len() <= 3 {
            encode_group_ascii(data);
        } else {
            encode_group_ascii(data.take(3));
            encoded_length(data.skip(3));
            assert(spec_encode(data.skip(3)).len() == encode_bytes(data.skip(3)).len());
        }
    }
}

/// Decoding the encoding of any byte string gives it back.
pub proof fn base64_round_trip(data: Seq<u8>)
    ensures
        spec_decode(spec_encode(data)) == Some(data),
{
    utf8_of_encoding(data);
    encode_decode_sextets(data);
}

// ---------------------------------------------------------------------------
// Executable code
// ---------------------------------------------------------------------------

fn digit(v: u8) -> (d: u8)
    requires
        v < 64,
    ensures
        d == b64_digit(v),
{
    if v < 26 {
        65 + v
    } else if v < 52 {
        97 + v - 26
    } else if v < 62 {
        48 + v - 52
    } else if v == 62 {
        43
    } else {
        47
    }
}

fn value(b: u8) -> (v: Option<u8>)
    ensures
        v == b64_value(b),
{
    if 65 <= b && b <= 90 {
        Some(b - 65)
    } else if 97 <= b && b <= 122 {
        Some(b - 97 + 26)
    } else if 48 <= b && b <= 57 {
        Some(b - 48 + 52)
    } else if b == 43 {
        Some(62)
    } else if b == 47 {
        Some(63)
    } else {
        None
    }
}

/// The first `n` of `b0 b1 b2`.
spec fn group_of(b0: u8, b1: u8, b2: u8, n: usize) -> Seq<u8> {
    if n == 1 {
        seq![b0]
    } else if n == 2 {
        seq![b0, b1]
    } else {
        seq![b0, b1, b2]
    }
}

/// The four output bytes of the group of the first `n` of `b0 b1 b2`.
fn encode_chunk(b0: u8, b1: u8, b2: u8, n: usize) -> (r: (u8, u8, u8, u8))
    requires
        1 <= n <= 3,
        n < 2 ==> b1 == 0,
        n < 3 ==> b2 == 0,
    ensures
        seq![r.0, r.1, r.2, r.3] == encode_group(group_of(b0, b1, b2, n)),
{
    proof {
        sextet_bounds(b0, b1, b2);
    }
    let c0 = digit(b0 >> 2u8);
    let c1 = digit(((b0 & 3u8) << 4u8) | (b1 >> 4u8));
    let c2 = if n > 1 {
        digit(((b1 & 15u8) << 2u8) | (b2 >> 6u8))
    } else {
        61
    };
    let c3 = if n > 2 {
        digit(b2 & 63u8)
    } else {
        61
    };
    assert(seq![c0, c1, c2, c3] =~= encode_group(group_of(b0, b1, b2, n)));
    (c0, c1, c2, c3)
}

proof fn encode_bytes_step(tail: Seq<u8>)
    requires
        tail.len() > 0,
    ensures
        tail.len() <= 3 ==> encode_bytes(tail) == encode_group(tail),
        tail.len() > 3 ==> encode_bytes(tail) == encode_group(tail.take(3)) + encode_bytes(
            tail.skip(3),
        ),
{
}

#[verifier::rlimit(30)]
pub fn encode(data: &[u8]) -> (out: String)
    ensures
        out@ == spec_encode(data@),
{
    let mut out = String::new();
    let ghost mut bytes: Seq<u8> = Seq::empty();
    let len = data.len();
    let mut i: usize = 0;
    assert(data@.skip(0) =~= data@);
    while i < len
        invariant
            len == data@.len(),
            i <= len,
            encode_bytes(data@) == bytes + encode_bytes(data@.skip(i as int)),
            out@ == ascii_chars(bytes),
        decreases len - i,
    {
        let rem = len - i;
        let n: usize = if rem > 3 {
            3
        } else {
            rem
        };
        let b0 = data[i];
        let b1: u8 = if rem > 1 {
            data[i + 1]
        } else {
            0
        };
        let b2: u8 = if rem > 2 {
            data[i + 2]
        } else {
            0
        };
        let (c0, c1, c2, c3) = encode_chunk(b0, b1, b2, n);
        let ghost tail = data@.skip(i as int);
        proof {
            encode_bytes_step(tail);
            if rem <= 3 {
                assert(group_of(b0, b1, b2, n) =~= tail);
            } else {
                assert(group_of(b0, b1, b2, n) =~= tail.take(3));
            }
        }
        text::push_char(&mut out, c0 as char);
        text::push_char(&mut out, c1 as char);
        text::push_char(&mut out, c2 as char);
        text::push_char(&mut out, c3 as char);
        let ghost old_bytes = bytes;
        proof {
            bytes = bytes + seq![c0, c1, c2, c3];
        }
        assert(out@ =~= ascii_chars(bytes));
        i = i + n;
        if rem <= 3 {
            assert(data@.skip(i as int) =~= Seq::<u8>::empty());
            assert(encode_bytes(data@) =~= bytes + encode_bytes(data@.skip(i as int)));
        } else {
            assert(tail.skip(3) =~= data@.skip(i as int));
            assert(encode_bytes(data@) =~= bytes + encode_bytes(data@.skip(i as int)));
        }
    }
    assert(data@.skip(i as int) =~= Seq::<u8>::empty());
    assert(bytes =~= encode_bytes(data@));
    out
}

proof fn sextets_of_step(tail: Seq<u8>)
    requires
        tail.len() > 0,
    ensures
        sextets_of(tail) == if is_b64_space(tail[0]) {
            sextets_of(tail.drop_first())
        } else if tail[0] == pad() {
            Some(Seq::empty())
        } else {
            match b64_value(tail[0]) {
                None => None,
                Some(v) => match sextets_of(tail.drop_first()) {
                    Some(r) => Some(seq![v] + r),
                    None => None,
                },
            }
        },
{
}

proof fn decode_sextets_step(tail: Seq<u8>)
    requires
        tail.len() > 0,
    ensures
        decode_sextets(tail) == if tail.len() == 1 {
            None
        } else if tail.len() <= 4 {
            Some(decode_group(tail))
        } else {
            match decode_sextets(tail.skip(4)) {
                Some(r) => Some(decode_group(tail.take(4)) + r),
                None => None,
            }
        },
{
}

/// Decodes base64 text. The RC encodes with Android's Base64.DEFAULT, which
/// wraps the output at 76 chars with '\n', so all whitespace is skipped
/// rather than treated as invalid; decoding stops at the first '=' padding.
#[verifier::rlimit(30)]
pub fn decode(s: &str) -> (r: Option<Vec<u8>>)
    ensures
        match r {
            Some(v) => spec_decode(s@) == Some(v@),
            None => spec_decode(s@) is None,
        },
{
    let bytes = s.as_bytes();
    let n = bytes.len();
    let mut sextets: Vec<u8> = Vec::new();
    let mut i: usize = 0;
    assert(bytes@.skip(0) =~= bytes@);
    while i < n
        invariant_except_break
            n == bytes@.len(),
            i <= n,
            sextets_of(bytes@) == match sextets_of(bytes@.skip(i as int)) {
                Some(r) => Some(sextets@ + r),
                None => None::<Seq<u8>>,
            },
        invariant
            bytes@ == encode_utf8(s@),
            forall|k: int| 0 <= k < sextets@.len() ==> #[trigger] sextets@[k] < 64,
        ensures
            sextets_of(bytes@) == Some(sextets@),
        decreases n - i,
    {
        let b = bytes[i];
        let ghost tail = bytes@.skip(i as int);
        proof {
            assert(tail[0] == b);
            assert(tail.drop_first() =~= bytes@.skip(i + 1));
            sextets_of_step(tail);
        }
        if b == 32 || b == 9 || b == 13 || b == 10 {
        } else if b == 61 {
            assert(sextets@ + Seq::<u8>::empty() =~= sextets@);
            break;
        } else {
            match value(b) {
                Some(v) => {
                    let ghost old_sx = sextets@;
                    sextets.push(v);
                    proof {
                        match sextets_of(tail.drop_first()) {
                            Some(r) => {
                                assert(old_sx + (seq![v] + r) =~= sextets@ + r);
                            },
                            None => {},
                        }
                    }
                },
                None => {
                    return None;
                },
            }
        }
        i = i + 1;
        if i == n {
            assert(bytes@.skip(i as int) =~= Seq::<u8>::empty());
            assert(sextets@ + Seq::<u8>::empty() =~= sextets@);
        }
    }
    let sn = sextets.len();
    let mut out: Vec<u8> = Vec::new();
    let mut j: usize = 0;
    assert(sextets@.skip(0) =~= sextets@);
    while j < sn
        invariant
            sn == sextets@.len(),
            j <= sn,
            bytes@ == encode_utf8(s@),
            sextets_of(bytes@) == Some(sextets@),
            decode_sextets(sextets@) == match decode_sextets(sextets@.skip(j as int)) {
                Some(r) => Some(out@ + r),
                None => None::<Seq<u8>>,
            },
        decreases sn - j,
    {
        let rem = sn - j;
        let ghost tail = sextets@.skip(j as int);
        proof {
            decode_sextets_step(tail);
        }
        if rem == 1 {
            return None;
        }
        let take: usize = if rem > 4 {
            4
        } else {
            rem
        };
        let ghost old_out = out@;
        let c0 = sextets[j];
        let c1 = sextets[j + 1];
        out.push((c0 << 2u8) | (c1 >> 4u8));
        if take >= 3 {
            let c2 = sextets[j + 2];
            out.push((c1 << 4u8) | (c2 >> 2u8));
            if take == 4 {
                let c3 = sextets[j + 3];
                out.push((c2 << 6u8) | c3);
            }
        }
        let ghost grp = tail.take(take as int);
        assert(decode_group(grp) =~= out@.skip(old_out.len() as int));
        assert(out@ =~= old_out + decode_group(grp));
        if rem <= 4 {
            assert(grp =~= tail);
        }
        j = j + take;
        if rem > 4 {
            assert(tail.skip(4) =~= sextets@.skip(j as int));
            proof {
                match decode_sextets(sextets@.skip(j as int)) {
                    Some(r) => {
                        assert(old_out + (decode_group(grp) + r) =~= out@ + r);
                    },
                    None => {},
                }
            }
        } else {
            assert(sextets@.skip(j as int) =~= Seq::<u8>::empty());
            assert(out@ + Seq::<u8>::empty() =~= out@);
        }
    }
    assert(sextets@.skip(j as int) =~= Seq::<u8>::empty());
    assert(out@ + Seq::<u8>::empty() =~= out@);
    Some(out)
}

} // verus!
