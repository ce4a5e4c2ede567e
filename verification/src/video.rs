//! MJPEG-over-HTTP camera feeds: the parts of a `multipart/x-mixed-replace`
//! stream (such as a Limelight's or the RC's webcam server) that decide
//! something. Stream addresses, response and part headers, chunked transfer
//! encoding, and cutting JPEG frames out of the body at the multipart
//! boundary. Whoever owns the connection reads the bytes and hands them
//! here; frames come back as raw bytes for the caller to decode.
//!
//! Header text is handled as characters, the way `str` methods see it.

use vstd::prelude::*;

use crate::text::{self, chars_of, string_of};

verus! {

broadcast use vstd::seq_lib::group_seq_properties;

/// The largest frame accepted before the stream is judged broken.
pub const MAX_FRAME_BYTES: usize = 16777216;

/// What one camera source is doing.
#[derive(Debug, Clone, PartialEq)]
pub enum VideoEvent {
    /// A JPEG frame for `source`, to be decoded elsewhere.
    Frame { source: String, jpeg: Vec<u8> },
    /// The stream closed or could not be reached: the pane should clear.
    Disconnected { source: String },
}

// ---------------------------------------------------------------------------
// Characters
// ---------------------------------------------------------------------------

/// White space, as `char::is_whitespace` has it (the Unicode White_Space
/// property).
pub open spec fn is_ws(c: char) -> bool {
    ||| '\u{9}' <= c <= '\u{d}'
    ||| c == ' '
    ||| c == '\u{85}'
    ||| c == '\u{a0}'
    ||| c == '\u{1680}'
    ||| '\u{2000}' <= c <= '\u{200a}'
    ||| c == '\u{2028}'
    ||| c == '\u{2029}'
    ||| c == '\u{202f}'
    ||| c == '\u{205f}'
    ||| c == '\u{3000}'
}

fn is_whitespace(c: char) -> (r: bool)
    ensures
        r == is_ws(c),
{
    ('\u{9}' <= c && c <= '\u{d}') || c == ' ' || c == '\u{85}' || c == '\u{a0}' || c == '\u{1680}'
        || ('\u{2000}' <= c && c <= '\u{200a}') || c == '\u{2028}' || c == '\u{2029}' || c
        == '\u{202f}' || c == '\u{205f}' || c == '\u{3000}'
}

/// ASCII lower case of one character; others are left alone.
pub open spec fn lower(c: char) -> char {
    if 'A' <= c <= 'Z' {
        ((c as u32) + 32) as char
    } else {
        c
    }
}

fn to_lower(c: char) -> (r: char)
    ensures
        r == lower(c),
{
    if 'A' <= c && c <= 'Z' {
        ((c as u8) + 32) as char
    } else {
        c
    }
}

pub open spec fn lowered(s: Seq<char>) -> Seq<char> {
    s.map_values(|c: char| lower(c))
}

/// Equality up to ASCII case.
pub open spec fn eq_ignore_case(a: Seq<char>, b: Seq<char>) -> bool {
    lowered(a) == lowered(b)
}

fn eq_ignore_case_exec(a: &Vec<char>, b: &Vec<char>) -> (r: bool)
    ensures
        r == eq_ignore_case(a@, b@),
{
    if a.len() != b.len() {
        assert(lowered(a@).len() != lowered(b@).len());
        return false;
    }
    let mut i: usize = 0;
    while i < a.len()
        invariant
            a@.len() == b@.len(),
            i <= a@.len(),
            forall|j: int| 0 <= j < i ==> lower(a@[j]) == lower(b@[j]),
        decreases a@.len() - i,
    {
        if to_lower(a[i]) != to_lower(b[i]) {
            assert(lowered(a@)[i as int] != lowered(b@)[i as int]);
            return false;
        }
        i = i + 1;
    }
    assert(lowered(a@) =~= lowered(b@));
    true
}

fn lowered_exec(a: &Vec<char>) -> (r: Vec<char>)
    ensures
        r@ == lowered(a@),
{
    let mut r: Vec<char> = Vec::new();
    let mut i: usize = 0;
    while i < a.len()
        invariant
            i <= a@.len(),
            r@ == lowered(a@.take(i as int)),
        decreases a@.len() - i,
    {
        r.push(to_lower(a[i]));
        assert(lowered(a@.take(i + 1)) =~= lowered(a@.take(i as int)).push(lower(a@[i as int])));
        i = i + 1;
    }
    assert(a@.take(i as int) =~= a@);
    r
}

// ---------------------------------------------------------------------------
// Searching and trimming
// ---------------------------------------------------------------------------

/// The first position at or after `from` that holds `c`.
pub open spec fn first_of(s: Seq<char>, c: char, from: int) -> Option<int>
    decreases s.len() - from,
{
    if from < 0 || from >= s.len() {
        None
    } else if s[from] == c {
        Some(from)
    } else {
        first_of(s, c, from + 1)
    }
}

fn first_of_exec(s: &Vec<char>, c: char, from: usize) -> (r: Option<usize>)
    ensures
        r matches Some(i) ==> first_of(s@, c, from as int) == Some(i as int),
        r is None ==> first_of(s@, c, from as int) is None,
{
    let mut i = from;
    while i < s.len()
        invariant
            from <= i,
            first_of(s@, c, from as int) == first_of(s@, c, i as int),
        decreases s@.len() - i,
    {
        if s[i] == c {
            return Some(i);
        }
        i = i + 1;
    }
    None
}

/// The last position before `to` that holds `c`.
pub open spec fn last_of(s: Seq<char>, c: char, to: int) -> Option<int>
    decreases to,
{
    if to <= 0 || to > s.len() {
        None
    } else if s[to - 1] == c {
        Some(to - 1)
    } else {
        last_of(s, c, to - 1)
    }
}

fn last_of_exec(s: &Vec<char>, c: char) -> (r: Option<usize>)
    ensures
        r matches Some(i) ==> last_of(s@, c, s@.len() as int) == Some(i as int),
        r is None ==> last_of(s@, c, s@.len() as int) is None,
{
    let mut i = s.len();
    while i > 0
        invariant
            i <= s@.len(),
            last_of(s@, c, s@.len() as int) == last_of(s@, c, i as int),
        decreases i,
    {
        if s[i - 1] == c {
            return Some(i - 1);
        }
        i = i - 1;
    }
    None
}

/// The first position at or after `from` where `pat` occurs in `s`.
pub open spec fn find_from(s: Seq<char>, pat: Seq<char>, from: int) -> Option<int>
    decreases s.len() + 1 - from,
{
    if from < 0 || from + pat.len() > s.len() {
        None
    } else if s.subrange(from, from + pat.len()) == pat {
        Some(from)
    } else {
        find_from(s, pat, from + 1)
    }
}

fn matches_at(s: &Vec<char>, pat: &Vec<char>, at: usize) -> (r: bool)
    requires
        at + pat@.len() <= s@.len(),
    ensures
        r == (s@.subrange(at as int, at + pat@.len()) == pat@),
{
    let n = s.len();
    let mut k: usize = 0;
    while k < pat.len()
        invariant
            n == s@.len(),
            at + pat@.len() <= s@.len(),
            k <= pat@.len(),
            forall|j: int| 0 <= j < k ==> s@[at + j] == pat@[j],
        decreases pat@.len() - k,
    {
        if s[at + k] != pat[k] {
            assert(s@.subrange(at as int, at + pat@.len())[k as int] != pat@[k as int]);
            return false;
        }
        k = k + 1;
    }
    assert(s@.subrange(at as int, at + pat@.len()) =~= pat@);
    true
}

fn find_exec(s: &Vec<char>, pat: &Vec<char>) -> (r: Option<usize>)
    ensures
        r matches Some(i) ==> find_from(s@, pat@, 0) == Some(i as int),
        r is None ==> find_from(s@, pat@, 0) is None,
{
    if pat.len() > s.len() {
        return None;
    }
    let last = s.len() - pat.len();
    let mut i: usize = 0;
    loop
        invariant
            i <= last,
            last + pat@.len() == s@.len(),
            find_from(s@, pat@, 0) == find_from(s@, pat@, i as int),
        decreases last - i,
    {
        if matches_at(s, pat, i) {
            return Some(i);
        }
        if i == last {
            assert(find_from(s@, pat@, i + 1) is None);
            return None;
        }
        i = i + 1;
    }
}

/// The first position at or after `from` whose character does not satisfy
/// `p` (the length when there is none).
pub open spec fn skip_while(s: Seq<char>, from: int, p: spec_fn(char) -> bool) -> int
    decreases s.len() - from,
{
    if from < 0 || from >= s.len() {
        s.len() as int
    } else if p(s[from]) {
        skip_while(s, from + 1, p)
    } else {
        from
    }
}

/// The end of `s[..to]` once its trailing characters satisfying `p` are cut.
pub open spec fn back_while(s: Seq<char>, to: int, p: spec_fn(char) -> bool) -> int
    decreases to,
{
    if to <= 0 || to > s.len() {
        0
    } else if p(s[to - 1]) {
        back_while(s, to - 1, p)
    } else {
        to
    }
}

/// `s` without its leading and trailing characters that satisfy `p`.
pub open spec fn trim_by(s: Seq<char>, p: spec_fn(char) -> bool) -> Seq<char> {
    let a = skip_while(s, 0, p);
    let b = back_while(s, s.len() as int, p);
    if b <= a {
        Seq::empty()
    } else {
        s.subrange(a, b)
    }
}

/// White space, or the double quote: what `trim_range` cuts.
pub open spec fn cut_pred(ws: bool) -> spec_fn(char) -> bool {
    if ws {
        |c: char| is_ws(c)
    } else {
        |c: char| c == '"'
    }
}

/// `str::trim`: without leading and trailing white space.
pub open spec fn trim(s: Seq<char>) -> Seq<char> {
    trim_by(s, cut_pred(true))
}

/// `trim_matches('"')`: without leading and trailing double quotes.
pub open spec fn trim_quotes(s: Seq<char>) -> Seq<char> {
    trim_by(s, cut_pred(false))
}

proof fn skip_while_bounds(s: Seq<char>, from: int, p: spec_fn(char) -> bool)
    requires
        0 <= from <= s.len(),
    ensures
        from <= skip_while(s, from, p) <= s.len(),
        skip_while(s, from, p) < s.len() ==> !p(s[skip_while(s, from, p)]),
    decreases s.len() - from,
{
    if from < s.len() && p(s[from]) {
        skip_while_bounds(s, from + 1, p);
    }
}

proof fn back_while_bounds(s: Seq<char>, to: int, p: spec_fn(char) -> bool)
    requires
        0 <= to <= s.len(),
    ensures
        0 <= back_while(s, to, p) <= to,
        back_while(s, to, p) > 0 ==> !p(s[back_while(s, to, p) - 1]),
    decreases to,
{
    if to > 0 && p(s[to - 1]) {
        back_while_bounds(s, to - 1, p);
    }
}

fn cuts(c: char, ws: bool) -> (r: bool)
    ensures
        r == cut_pred(ws)(c),
{
    if ws {
        is_whitespace(c)
    } else {
        c == '"'
    }
}

/// The trimmed range of `s[from..to]`: white space when `ws`, double
/// quotes otherwise.
fn trim_range(s: &Vec<char>, from: usize, to: usize, ws: bool) -> (r: (usize, usize))
    requires
        from <= to <= s@.len(),
    ensures
        from <= r.0 <= r.1 <= to,
        s@.subrange(r.0 as int, r.1 as int) == trim_by(
            s@.subrange(from as int, to as int),
            cut_pred(ws),
        ),
{
    let ghost p = cut_pred(ws);
    let ghost t = s@.subrange(from as int, to as int);
    let mut a = from;
    while a < to && cuts(s[a], ws)
        invariant
            from <= a <= to,
            to <= s@.len(),
            t == s@.subrange(from as int, to as int),
            p == cut_pred(ws),
            skip_while(t, 0, p) == skip_while(t, a - from, p),
        decreases to - a,
    {
        assert(t[a - from] == s@[a as int]);
        a = a + 1;
    }
    if a < to {
        assert(t[a - from] == s@[a as int]);
    }
    let mut b = to;
    while b > a && cuts(s[b - 1], ws)
        invariant
            from <= a <= b <= to,
            to <= s@.len(),
            t == s@.subrange(from as int, to as int),
            p == cut_pred(ws),
            back_while(t, t.len() as int, p) == back_while(t, b - from, p),
        decreases b,
    {
        assert(t[b - 1 - from] == s@[b - 1]);
        b = b - 1;
    }
    proof {
        back_while_bounds(t, b - from, p);
        if b > a {
            assert(t[b - 1 - from] == s@[b - 1]);
            assert(s@.subrange(a as int, b as int) =~= t.subrange(a - from, b - from));
        }
    }
    (a, b)
}

// ---------------------------------------------------------------------------
// Numbers
// ---------------------------------------------------------------------------

pub open spec fn radix_of(hex: bool) -> nat {
    if hex {
        16
    } else {
        10
    }
}

/// The value of `c` as a digit of the radix (hexadecimal digits in either
/// case).
pub open spec fn digit_value(c: char, hex: bool) -> Option<nat> {
    if '0' <= c <= '9' {
        Some((c as nat - 48) as nat)
    } else if hex && 'a' <= c <= 'f' {
        Some((c as nat - 87) as nat)
    } else if hex && 'A' <= c <= 'F' {
        Some((c as nat - 55) as nat)
    } else {
        None
    }
}

pub open spec fn all_digits(s: Seq<char>, hex: bool) -> bool {
    forall|i: int| 0 <= i < s.len() ==> (#[trigger] digit_value(s[i], hex)) is Some
}

/// The number the digits `s` spell, most significant first.
pub open spec fn digits_value(s: Seq<char>, hex: bool) -> nat
    decreases s.len(),
{
    if s.len() == 0 {
        0
    } else {
        digits_value(s.drop_last(), hex) * radix_of(hex) + match digit_value(s.last(), hex) {
            Some(d) => d,
            None => 0,
        }
    }
}

/// How `str::parse` and `from_str_radix` read an unsigned number of at
/// most `max`: an optional `+`, then one or more digits, and nothing else.
pub open spec fn unsigned_of(t: Seq<char>, hex: bool, max: nat) -> Option<nat> {
    let d = if t.len() > 0 && t[0] == '+' {
        t.drop_first()
    } else {
        t
    };
    if d.len() > 0 && all_digits(d, hex) && digits_value(d, hex) <= max {
        Some(digits_value(d, hex))
    } else {
        None
    }
}

proof fn digits_value_grows(s: Seq<char>, k: int, hex: bool)
    requires
        0 <= k <= s.len(),
    ensures
        digits_value(s.take(k), hex) <= digits_value(s, hex),
    decreases s.len() - k,
{
    if k < s.len() {
        digits_value_grows(s, k + 1, hex);
        let a = s.take(k + 1);
        assert(a.drop_last() =~= s.take(k));
        let v = digits_value(s.take(k), hex);
        let r = radix_of(hex);
        let dd: nat = match digit_value(a.last(), hex) {
            Some(d) => d,
            None => 0,
        };
        assert(digits_value(a, hex) == v * r + dd);
        assert(v * r + dd >= v) by (nonlinear_arith)
            requires
                r >= 1,
        ;
    }
}

fn digit_exec(c: char, hex: bool) -> (r: Option<u8>)
    ensures
        match digit_value(c, hex) {
            Some(d) => r == Some(d as u8),
            None => r is None,
        },
{
    if '0' <= c && c <= '9' {
        Some((c as u8) - 48)
    } else if hex && 'a' <= c && c <= 'f' {
        Some((c as u8) - 87)
    } else if hex && 'A' <= c && c <= 'F' {
        Some((c as u8) - 55)
    } else {
        None
    }
}

/// Reads `s[from..to]` as an unsigned number of at most `max`.
fn parse_unsigned(s: &Vec<char>, from: usize, to: usize, hex: bool, max: u64) -> (r: Option<u64>)
    requires
        from <= to <= s@.len(),
    ensures
        match unsigned_of(s@.subrange(from as int, to as int), hex, max as nat) {
            Some(v) => r == Some(v as u64),
            None => r is None,
        },
{
    let ghost t = s@.subrange(from as int, to as int);
    let mut i = from;
    if i < to && s[i] == '+' {
        i = i + 1;
        assert(t.drop_first() =~= s@.subrange(i as int, to as int));
    } else {
        assert(t =~= s@.subrange(i as int, to as int));
    }
    let ghost d = s@.subrange(i as int, to as int);
    let ghost verdict = if d.len() > 0 && all_digits(d, hex) && digits_value(d, hex) <= max as nat {
        Some(digits_value(d, hex))
    } else {
        None
    };
    assert(unsigned_of(t, hex, max as nat) == verdict);
    if i == to {
        return None;
    }
    let start = i;
    let mut acc: u128 = 0;
    assert(d.take(0) =~= Seq::<char>::empty());
    while i < to
        invariant
            from <= start <= i <= to <= s@.len(),
            d == s@.subrange(start as int, to as int),
            d.len() > 0,
            t == s@.subrange(from as int, to as int),
            unsigned_of(t, hex, max as nat) == verdict,
            verdict == (if d.len() > 0 && all_digits(d, hex) && digits_value(d, hex) <= max as nat {
                Some(digits_value(d, hex))
            } else {
                None
            }),
            all_digits(d.take(i - start), hex),
            acc == digits_value(d.take(i - start), hex),
            acc <= max,
        decreases to - i,
    {
        let k = i - start;
        assert(d[k as int] == s@[i as int]);
        assert(d.take(k + 1).drop_last() =~= d.take(k as int));
        assert(d.take(k + 1).last() == d[k as int]);
        let dv = match digit_exec(s[i], hex) {
            Some(v) => v,
            None => {
                assert(digit_value(d[k as int], hex) is None);
                return None;
            },
        };
        let next: u128 = if hex {
            acc * 16 + dv as u128
        } else {
            acc * 10 + dv as u128
        };
        assert(next == digits_value(d.take(k + 1), hex));
        if next > max as u128 {
            proof {
                if all_digits(d, hex) {
                    digits_value_grows(d, k + 1, hex);
                }
            }
            return None;
        }
        acc = next;
        assert forall|j: int| 0 <= j < k + 1 implies (#[trigger] digit_value(d.take(k + 1)[j], hex)) is Some by {
            if j < k {
                assert(d.take(k + 1)[j] == d.take(k as int)[j]);
            }
        }
        i = i + 1;
    }
    assert(d.take(i - start) =~= d);
    Some(acc as u64)
}

// ---------------------------------------------------------------------------
// Header lines
// ---------------------------------------------------------------------------

/// A header line's name and value: what comes before and after its first
/// colon.
pub open spec fn header_parts(line: Seq<char>) -> Option<(Seq<char>, Seq<char>)> {
    match first_of(line, ':', 0) {
        Some(i) => Some((line.take(i), line.skip(i + 1))),
        None => None,
    }
}

proof fn first_of_in_range(s: Seq<char>, c: char, from: int)
    ensures
        first_of(s, c, from) matches Some(i) ==> from <= i < s.len() && s[i] == c,
    decreases s.len() - from,
{
    if 0 <= from < s.len() && s[from] != c {
        first_of_in_range(s, c, from + 1);
    }
}

proof fn last_of_in_range(s: Seq<char>, c: char, to: int)
    ensures
        last_of(s, c, to) matches Some(i) ==> 0 <= i < to && s[i] == c,
    decreases to,
{
    if 0 < to <= s.len() && s[to - 1] != c {
        last_of_in_range(s, c, to - 1);
    }
}

proof fn find_from_in_range(s: Seq<char>, pat: Seq<char>, from: int)
    ensures
        find_from(s, pat, from) matches Some(i) ==> from <= i && i + pat.len() <= s.len(),
    decreases s.len() + 1 - from,
{
    if 0 <= from && from + pat.len() <= s.len() && s.subrange(from, from + pat.len()) != pat {
        find_from_in_range(s, pat, from + 1);
    }
}

/// The multipart boundary a `Content-Type` header line declares: the text
/// after `boundary=` (found regardless of case), trimmed of white space and
/// of surrounding double quotes.
pub open spec fn boundary_of(line: Seq<char>) -> Option<Seq<char>> {
    match header_parts(line) {
        None => None,
        Some((name, value)) => if !eq_ignore_case(trim(name), "content-type"@) {
            None
        } else {
            match find_from(lowered(value), "boundary="@, 0) {
                None => None,
                Some(j) => Some(trim_quotes(trim(value.skip(j + 9)))),
            }
        },
    }
}

/// The multipart boundary a header line declares, if it is a
/// `Content-Type` line that declares one.
pub fn parse_boundary(header_line: &str) -> (r: Option<String>)
    ensures
        match boundary_of(header_line@) {
            Some(b) => r matches Some(s) && s@ == b,
            None => r is None,
        },
{
    let line = chars_of(header_line);
    let colon = match first_of_exec(&line, ':', 0) {
        Some(i) => i,
        None => return None,
    };
    proof {
        first_of_in_range(line@, ':', 0);
    }
    let n = line.len();
    assert(colon < n);
    let (a, b) = trim_range(&line, 0, colon, true);
    assert(line@.subrange(0, colon as int) =~= line@.take(colon as int));
    let name = string_of(&line, a, b);
    let name_chars = chars_of(name.as_str());
    let expected = chars_of("content-type");
    if !eq_ignore_case_exec(&name_chars, &expected) {
        return None;
    }
    let value = string_of(&line, colon + 1, n);
    assert(value@ =~= line@.skip(colon + 1));
    let value_chars = chars_of(value.as_str());
    let low = lowered_exec(&value_chars);
    let pat = chars_of("boundary=");
    let j = match find_exec(&low, &pat) {
        Some(j) => j,
        None => return None,
    };
    proof {
        reveal_strlit("boundary=");
        find_from_in_range(low@, pat@, 0);
    }
    let (c, d) = trim_range(&value_chars, j + 9, value_chars.len(), true);
    assert(value_chars@.subrange(j + 9, value_chars@.len() as int) =~= value_chars@.skip(j + 9));
    let (e, f) = trim_range(&value_chars, c, d, false);
    Some(string_of(&value_chars, e, f))
}

/// Whether `t` occurs in `s` as a whole white-space-separated token.
pub open spec fn has_token(s: Seq<char>, t: Seq<char>) -> bool {
    exists|i: int|
        0 <= i && i + t.len() <= s.len() && #[trigger] s.subrange(i, i + t.len()) == t && (i == 0
            || is_ws(s[i - 1])) && (i + t.len() == s.len() || is_ws(s[i + t.len()]))
}

/// Whether an HTTP status line reports success: one of its white-space
/// separated words is `200`.
pub fn status_ok(status: &str) -> (r: bool)
    ensures
        r == has_token(status@, "200"@),
{
    let s = chars_of(status);
    let pat = chars_of("200");
    proof {
        reveal_strlit("200");
    }
    let n = s.len();
    if n < 3 {
        assert(!has_token(s@, pat@));
        return false;
    }
    let mut i: usize = 0;
    while i <= n - 3
        invariant
            n == s@.len(),
            s@ == status@,
            n >= 3,
            i <= n - 2,
            pat@.len() == 3,
            pat@ == "200"@,
            forall|k: int|
                0 <= k < i && k + 3 <= n ==> !(#[trigger] s@.subrange(k, k + 3) == pat@ && (k == 0
                    || is_ws(s@[k - 1])) && (k + 3 == n || is_ws(s@[k + 3]))),
        decreases n - i,
    {
        let m = matches_at(&s, &pat, i);
        let before = i == 0 || is_whitespace(s[i - 1]);
        let after = i + 3 == n || is_whitespace(s[i + 3]);
        if m && before && after {
            assert(s@.subrange(i as int, i + 3) == "200"@);
            return true;
        }
        i = i + 1;
    }
    false
}

/// Whether a response header line announces chunked transfer encoding.
pub open spec fn chunked_header(line: Seq<char>) -> bool {
    match header_parts(line) {
        Some((name, value)) => eq_ignore_case(trim(name), "transfer-encoding"@) && find_from(
            lowered(value),
            "chunked"@,
            0,
        ) is Some,
        None => false,
    }
}

pub fn is_chunked_header(line: &str) -> (r: bool)
    ensures
        r == chunked_header(line@),
{
    let v = chars_of(line);
    let colon = match first_of_exec(&v, ':', 0) {
        Some(i) => i,
        None => return false,
    };
    proof {
        first_of_in_range(v@, ':', 0);
    }
    let (a, b) = trim_range(&v, 0, colon, true);
    assert(v@.subrange(0, colon as int) =~= v@.take(colon as int));
    let name = string_of(&v, a, b);
    let name_chars = chars_of(name.as_str());
    let expected = chars_of("transfer-encoding");
    if !eq_ignore_case_exec(&name_chars, &expected) {
        return false;
    }
    let n = v.len();
    assert(colon < n);
    let value = string_of(&v, colon + 1, n);
    assert(value@ =~= v@.skip(colon + 1));
    let value_chars = chars_of(value.as_str());
    let low = lowered_exec(&value_chars);
    let pat = chars_of("chunked");
    find_exec(&low, &pat).is_some()
}

/// What a part header line says of the part's length: nothing when it is
/// not a `Content-Length` line; otherwise the length, if its value reads as
/// one.
pub open spec fn content_length_of(line: Seq<char>) -> Option<Option<nat>> {
    match header_parts(line) {
        Some((name, value)) => if eq_ignore_case(trim(name), "content-length"@) {
            Some(unsigned_of(trim(value), false, usize::MAX as nat))
        } else {
            None
        },
        None => None,
    }
}

pub fn part_content_length(line: &str) -> (r: Option<Option<usize>>)
    ensures
        match content_length_of(line@) {
            None => r is None,
            Some(None) => r == Some(None::<usize>),
            Some(Some(n)) => r == Some(Some(n as usize)),
        },
{
    let v = chars_of(line);
    let colon = match first_of_exec(&v, ':', 0) {
        Some(i) => i,
        None => return None,
    };
    proof {
        first_of_in_range(v@, ':', 0);
    }
    let (a, b) = trim_range(&v, 0, colon, true);
    assert(v@.subrange(0, colon as int) =~= v@.take(colon as int));
    let name = string_of(&v, a, b);
    let name_chars = chars_of(name.as_str());
    let expected = chars_of("content-length");
    if !eq_ignore_case_exec(&name_chars, &expected) {
        return None;
    }
    let n = v.len();
    assert(colon < n);
    let (c, d) = trim_range(&v, colon + 1, n, true);
    assert(v@.subrange(colon + 1, v@.len() as int) =~= v@.skip(colon + 1));
    match parse_unsigned(&v, c, d, false, usize::MAX as u64) {
        Some(n) => Some(Some(n as usize)),
        None => Some(None),
    }
}

/// The size a chunk-size line of a chunked body announces: the hexadecimal
/// number before any `;` extension, trimmed of white space.
pub open spec fn chunk_size_of(line: Seq<char>) -> Option<nat> {
    let end = match first_of(line, ';', 0) {
        Some(i) => i,
        None => line.len() as int,
    };
    unsigned_of(trim(line.take(end)), true, usize::MAX as nat)
}

pub fn parse_chunk_size(line: &str) -> (r: Option<usize>)
    ensures
        match chunk_size_of(line@) {
            Some(n) => r == Some(n as usize),
            None => r is None,
        },
{
    let v = chars_of(line);
    let end = match first_of_exec(&v, ';', 0) {
        Some(i) => i,
        None => v.len(),
    };
    proof {
        first_of_in_range(v@, ';', 0);
    }
    let (a, b) = trim_range(&v, 0, end, true);
    assert(v@.subrange(0, end as int) =~= v@.take(end as int));
    match parse_unsigned(&v, a, b, true, usize::MAX as u64) {
        Some(n) => Some(n as usize),
        None => None,
    }
}

// ---------------------------------------------------------------------------
// Stream addresses
// ---------------------------------------------------------------------------

/// One camera source to stream: a logical name plus where to fetch it.
#[derive(Debug, Clone, PartialEq)]
pub struct StreamConfig {
    pub source: String,
    pub host: String,
    pub port: u16,
    pub path: String,
}

pub struct StreamConfigView {
    pub source: Seq<char>,
    pub host: Seq<char>,
    pub port: u16,
    pub path: Seq<char>,
}

impl View for StreamConfig {
    type V = StreamConfigView;

    open spec fn view(&self) -> StreamConfigView {
        StreamConfigView {
            source: self.source@,
            host: self.host@,
            port: self.port,
            path: self.path@,
        }
    }
}

/// The source that `url` names: `http://host:port/path`, where the scheme
/// is optional, the port defaults to 80 and the path to `/`. The port is
/// what follows the last colon before the path; the host must not be empty.
pub open spec fn stream_config_of(source: Seq<char>, url: Seq<char>) -> Option<StreamConfigView> {
    let rest = if url.len() >= 7 && url.take(7) == "http://"@ {
        url.skip(7)
    } else {
        url
    };
    let authority = match first_of(rest, '/', 0) {
        Some(i) => rest.take(i),
        None => rest,
    };
    let path = match first_of(rest, '/', 0) {
        Some(i) => rest.skip(i),
        None => "/"@,
    };
    match last_of(authority, ':', authority.len() as int) {
        Some(j) => match unsigned_of(authority.skip(j + 1), false, 65535) {
            Some(port) => if j == 0 {
                None
            } else {
                Some(StreamConfigView { source, host: authority.take(j), port: port as u16, path })
            },
            None => None,
        },
        None => if authority.len() == 0 {
            None
        } else {
            Some(StreamConfigView { source, host: authority, port: 80, path })
        },
    }
}

pub open spec fn stream_config_result(r: Option<StreamConfig>) -> Option<StreamConfigView> {
    match r {
        Some(c) => Some(c@),
        None => None,
    }
}

impl StreamConfig {
    /// Parses `http://host:port/path`. Scheme optional; port defaults to
    /// 80, path to `/`.
    pub fn parse(source: &str, url: &str) -> (r: Option<StreamConfig>)
        ensures
            stream_config_result(r) == stream_config_of(source@, url@),
    {
        let u = chars_of(url);
        let n = u.len();
        let scheme = chars_of("http://");
        proof {
            reveal_strlit("http://");
        }
        let start: usize = if n >= 7 && matches_at(&u, &scheme, 0) {
            assert(u@.subrange(0, 7) =~= u@.take(7));
            7
        } else {
            if n >= 7 {
                assert(u@.subrange(0, 7) =~= u@.take(7));
            }
            0
        };
        let rest = chars_of(string_of(&u, start, n).as_str());
        assert(rest@ =~= if start == 7 {
            u@.skip(7)
        } else {
            u@
        });
        let m = rest.len();
        let slash = first_of_exec(&rest, '/', 0);
        proof {
            first_of_in_range(rest@, '/', 0);
        }
        let (authority, path) = match slash {
            Some(i) => {
                assert(rest@.subrange(0, i as int) =~= rest@.take(i as int));
                assert(rest@.subrange(i as int, m as int) =~= rest@.skip(i as int));
                (string_of(&rest, 0, i), string_of(&rest, i, m))
            },
            None => {
                assert(rest@.subrange(0, m as int) =~= rest@);
                (string_of(&rest, 0, m), "/".to_owned())
            },
        };
        let a = chars_of(authority.as_str());
        let k = a.len();
        let colon = last_of_exec(&a, ':');
        proof {
            last_of_in_range(a@, ':', a@.len() as int);
        }
        match colon {
            Some(j) => {
                let port = match parse_unsigned(&a, j + 1, k, false, 65535) {
                    Some(p) => p,
                    None => {
                        assert(a@.subrange(j + 1, k as int) =~= a@.skip(j + 1));
                        return None;
                    },
                };
                assert(a@.subrange(j + 1, k as int) =~= a@.skip(j + 1));
                if j == 0 {
                    return None;
                }
                assert(a@.subrange(0, j as int) =~= a@.take(j as int));
                Some(
                    StreamConfig {
                        source: source.to_owned(),
                        host: string_of(&a, 0, j),
                        port: port as u16,
                        path,
                    },
                )
            },
            None => {
                if k == 0 {
                    return None;
                }
                Some(StreamConfig { source: source.to_owned(), host: authority, port: 80, path })
            },
        }
    }
}

// ---------------------------------------------------------------------------
// Cutting frames at the boundary
// ---------------------------------------------------------------------------

/// `k` is the length of a proper border of `p[..=i]`: a proper prefix that
/// is also a suffix.
pub open spec fn is_border(p: Seq<u8>, i: int, k: int) -> bool {
    0 <= k <= i < p.len() && p.subrange(0, k) == p.subrange(i + 1 - k, i + 1)
}

/// `f` is the failure table of `p`: each entry is the length of the longest
/// proper border of the prefix that ends there.
pub open spec fn is_failure_table(p: Seq<u8>, f: Seq<usize>) -> bool {
    &&& f.len() == p.len()
    &&& forall|i: int| 0 <= i < p.len() ==> is_border(p, i, #[trigger] f[i] as int)
    &&& forall|i: int, k: int| 0 <= i < p.len() && #[trigger] is_border(p, i, k) ==> k <= f[i]
}

/// A border of a border is a border.
proof fn border_of_border(p: Seq<u8>, j: int, k: int, b: int)
    requires
        is_border(p, j, k),
        k >= 1,
        is_border(p, k - 1, b),
    ensures
        is_border(p, j, b),
{
    assert forall|x: int| 0 <= x < b implies p.subrange(0, b)[x] == p.subrange(j + 1 - b, j + 1)[x] by {
        assert(p.subrange(0, b)[x] == p.subrange(k - b, k)[x]);
        assert(p[k - b + x] == p.subrange(0, k)[k - b + x]);
        assert(p.subrange(0, k)[k - b + x] == p.subrange(j + 1 - k, j + 1)[k - b + x]);
    }
    assert(p.subrange(0, b) =~= p.subrange(j + 1 - b, j + 1));
}

/// Of two borders, the shorter is a border of the longer.
proof fn shorter_border(p: Seq<u8>, j: int, k: int, b: int)
    requires
        is_border(p, j, k),
        is_border(p, j, b),
        b < k,
    ensures
        is_border(p, k - 1, b),
{
    assert forall|x: int| 0 <= x < b implies p.subrange(0, b)[x] == p.subrange(k - b, k)[x] by {
        assert(p.subrange(0, b)[x] == p.subrange(j + 1 - b, j + 1)[x]);
        assert(p.subrange(0, k)[k - b + x] == p.subrange(j + 1 - k, j + 1)[k - b + x]);
    }
    assert(p.subrange(0, b) =~= p.subrange(k - b, k));
}

/// A border of `p[..i]` followed by the byte `p[i]` is a border of `p[..=i]`.
proof fn extend_border(p: Seq<u8>, i: int, b: int)
    requires
        1 <= i < p.len(),
        is_border(p, i - 1, b),
        b < i,
        p[b] == p[i],
    ensures
        is_border(p, i, b + 1),
{
    assert(p.subrange(0, b + 1) =~= p.subrange(0, b).push(p[b]));
    assert(p.subrange(i - b, i + 1) =~= p.subrange(i - b, i).push(p[i]));
}

/// A non-empty border of `p[..=i]` is a border of `p[..i]` followed by `p[i]`.
proof fn shrink_border(p: Seq<u8>, i: int, k: int)
    requires
        is_border(p, i, k),
        k >= 1,
    ensures
        is_border(p, i - 1, k - 1),
        p[k - 1] == p[i],
{
    assert(p.subrange(0, k)[k - 1] == p.subrange(i + 1 - k, i + 1)[k - 1]);
    assert(p.subrange(0, k - 1) =~= p.subrange(0, k).take(k - 1));
    assert(p.subrange(i + 1 - k, i) =~= p.subrange(i + 1 - k, i + 1).take(k - 1));
}

/// The failure table of `pattern`, by the Knuth-Morris-Pratt method.
pub fn kmp_failure(pattern: &[u8]) -> (failure: Vec<usize>)
    ensures
        is_failure_table(pattern@, failure@),
{
    let n = pattern.len();
    let ghost p = pattern@;
    let mut failure: Vec<usize> = Vec::new();
    if n == 0 {
        return failure;
    }
    failure.push(0);
    assert(p.subrange(0, 0) =~= p.subrange(1, 1));
    let mut k: usize = 0;
    let mut i: usize = 1;
    while i < n
        invariant
            n == p.len(),
            p == pattern@,
            1 <= i <= n,
            failure@.len() == i,
            k == failure@[i - 1],
            forall|x: int| 0 <= x < i ==> is_border(p, x, #[trigger] failure@[x] as int),
            forall|x: int, b: int| 0 <= x < i && #[trigger] is_border(p, x, b) ==> b <= failure@[x],
        decreases n - i,
    {
        // Fall back along the borders of p[..i] until one extends by p[i].
        while k > 0 && pattern[i] != pattern[k]
            invariant
                n == p.len(),
                p == pattern@,
                1 <= i < n,
                failure@.len() == i,
                is_border(p, i - 1, k as int),
                forall|b: int| k < b && #[trigger] is_border(p, i - 1, b) ==> p[b] != p[i as int],
                forall|x: int| 0 <= x < i ==> is_border(p, x, #[trigger] failure@[x] as int),
                forall|x: int, b: int| 0 <= x < i && #[trigger] is_border(p, x, b) ==> b <= failure@[x],
            decreases k,
        {
            let f = failure[k - 1];
            proof {
                assert(is_border(p, (k - 1) as int, f as int));
                border_of_border(p, i - 1, k as int, f as int);
                assert forall|b: int| f < b && is_border(p, i - 1, b) implies p[b] != p[i as int] by {
                    if b < k {
                        shorter_border(p, i - 1, k as int, b);
                        assert(b <= failure@[k - 1]);
                    }
                }
            }
            k = f;
        }
        let ghost k0 = k;
        if pattern[i] == pattern[k] {
            proof {
                extend_border(p, i as int, k as int);
            }
            k = k + 1;
        } else {
            assert(p.subrange(0, 0) =~= p.subrange(i + 1, i + 1));
        }
        proof {
            assert forall|b: int| is_border(p, i as int, b) implies b <= k by {
                if b >= 1 {
                    shrink_border(p, i as int, b);
                    if b - 1 > k0 {
                    } else if b - 1 == k0 {
                    }
                }
            }
        }
        failure.push(k);
        i = i + 1;
    }
    failure
}

/// The last `k` bytes of `s` are the first `k` of `d`.
pub open spec fn suffix_match(s: Seq<u8>, d: Seq<u8>, k: int) -> bool {
    0 <= k <= s.len() && k <= d.len() && s.subrange(s.len() - k, s.len() as int) == d.take(k)
}

/// `d` occurs somewhere in `s`.
pub open spec fn occurs_in(s: Seq<u8>, d: Seq<u8>) -> bool {
    exists|q: int| 0 <= q && q + d.len() <= s.len() && #[trigger] s.subrange(q, q + d.len()) == d
}

/// Two partial matches at the end of `s`: the shorter is a border of the
/// longer.
#[verifier::spinoff_prover]
#[verifier::rlimit(40)]
proof fn partial_matches_are_borders(s: Seq<u8>, d: Seq<u8>, j: int, k: int)
    requires
        suffix_match(s, d, k),
        suffix_match(s, d, j),
        j < k,
        k <= d.len(),
    ensures
        is_border(d, k - 1, j),
{
    let n = s.len() as int;
    assert forall|x: int| 0 <= x < j implies d.subrange(0, j)[x] == d.subrange(k - j, k)[x] by {
        assert(d.subrange(0, j)[x] == d.take(j)[x]);
        assert(d.take(j)[x] == s.subrange(n - j, n)[x]);
        assert(s.subrange(n - j, n)[x] == s.subrange(n - k, n)[k - j + x]);
        assert(s.subrange(n - k, n)[k - j + x] == d.take(k)[k - j + x]);
    }
    assert(d.subrange(0, j) =~= d.subrange(k - j, k));
}

/// A partial match at the end of `s.push(b)` is one at the end of `s`,
/// extended by `b`.
proof fn match_after_push(s: Seq<u8>, d: Seq<u8>, b: u8, k: int)
    requires
        1 <= k <= d.len(),
    ensures
        suffix_match(s.push(b), d, k) <==> (suffix_match(s, d, k - 1) && d[k - 1] == b),
{
    let t = s.push(b);
    let n = s.len() as int;
    if k <= n + 1 {
        let ts = t.subrange(n + 1 - k, n + 1);
        let ss = s.subrange(n + 1 - k, n);
        assert(ts =~= ss.push(b));
        assert(d.take(k) =~= d.take(k - 1).push(d[k - 1]));
        if ts == d.take(k) {
            assert(ts[k - 1] == d.take(k)[k - 1]);
            assert(ss =~= ts.drop_last());
            assert(d.take(k - 1) =~= d.take(k).drop_last());
        }
    }
}

/// Occurrences in `s.push(b)`: those in `s`, and one ending at `b`.
proof fn occurs_after_push(s: Seq<u8>, d: Seq<u8>, b: u8)
    requires
        d.len() >= 1,
    ensures
        occurs_in(s.push(b), d) <==> (occurs_in(s, d) || suffix_match(s.push(b), d, d.len() as int)),
{
    let t = s.push(b);
    assert(d.take(d.len() as int) =~= d);
    if occurs_in(t, d) {
        let q = choose|q: int| 0 <= q && q + d.len() <= t.len() && #[trigger] t.subrange(q, q + d.len()) == d;
        if q + d.len() <= s.len() {
            assert(s.subrange(q, q + d.len()) =~= t.subrange(q, q + d.len()));
        } else {
            assert(q == t.len() - d.len());
        }
    }
    if occurs_in(s, d) {
        let q = choose|q: int| 0 <= q && q + d.len() <= s.len() && #[trigger] s.subrange(q, q + d.len()) == d;
        assert(t.subrange(q, q + d.len()) =~= s.subrange(q, q + d.len()));
    }
    if suffix_match(t, d, d.len() as int) {
        let q = t.len() - d.len();
        assert(t.subrange(q, q + d.len()) == d);
    }
}

/// Appends `src[..upto]` to `frame`.
fn extend_prefix(frame: &mut Vec<u8>, src: &Vec<u8>, upto: usize)
    requires
        upto <= src@.len(),
    ensures
        final(frame)@ == old(frame)@ + src@.subrange(0, upto as int),
{
    let mut x: usize = 0;
    while x < upto
        invariant
            upto <= src@.len(),
            x <= upto,
            frame@ == old(frame)@ + src@.subrange(0, x as int),
        decreases upto - x,
    {
        frame.push(src[x]);
        assert(src@.subrange(0, x + 1) =~= src@.subrange(0, x as int).push(src@[x as int]));
        x = x + 1;
    }
}

/// What feeding a byte to a [`FrameScanner`] gives.
#[derive(Debug, Clone, Copy, PartialEq, Eq, Structural)]
pub enum Scan {
    /// No boundary yet.
    More,
    /// The boundary just ended: the frame is complete.
    Found,
    /// The frame outgrew `MAX_FRAME_BYTES` without a boundary.
    TooLong,
}

/// Cuts one frame out of a stream: fed the body byte by byte, it keeps
/// every byte up to the first occurrence of the boundary delimiter, which
/// it recognises however the bytes fall (Knuth-Morris-Pratt matching).
pub struct FrameScanner {
    pub delim: Vec<u8>,
    pub failure: Vec<usize>,
    /// How many bytes of the delimiter the stream currently ends with.
    pub matched: usize,
    /// The bytes of the frame so far.
    pub frame: Vec<u8>,
    /// Every byte fed so far.
    pub fed: Ghost<Seq<u8>>,
}

impl FrameScanner {
    /// The scanner's state while it looks for the delimiter: the fed bytes
    /// are the frame followed by the partial match, which is the longest end
    /// of the fed bytes that begins the delimiter, and the delimiter has not
    /// occurred.
    pub open spec fn wf(&self) -> bool {
        let d = self.delim@;
        let fed = self.fed@;
        &&& d.len() >= 1
        &&& is_failure_table(d, self.failure@)
        &&& self.matched < d.len()
        &&& self.frame@ + d.take(self.matched as int) == fed
        &&& suffix_match(fed, d, self.matched as int)
        &&& forall|j: int| self.matched < j <= d.len() ==> !#[trigger] suffix_match(fed, d, j)
        &&& !occurs_in(fed, d)
    }

    /// A scanner for a frame that ends at `delim`.
    pub fn new(delim: Vec<u8>) -> (s: FrameScanner)
        requires
            delim@.len() >= 1,
        ensures
            s.wf(),
            s.delim@ == delim@,
            s.fed@ == Seq::<u8>::empty(),
            s.frame@ == Seq::<u8>::empty(),
    {
        let failure = kmp_failure(delim.as_slice());
        let s = FrameScanner {
            delim,
            failure,
            matched: 0,
            frame: Vec::new(),
            fed: Ghost(Seq::empty()),
        };
        assert(s.frame@ + s.delim@.take(0) =~= Seq::<u8>::empty());
        assert(Seq::<u8>::empty().subrange(0, 0) =~= s.delim@.take(0));
        s
    }

    /// Feeds the next byte of the stream.
    #[verifier::rlimit(60)]
    pub fn feed(&mut self, byte: u8) -> (r: Scan)
        requires
            old(self).wf(),
        ensures
            final(self).delim@ == old(self).delim@,
            final(self).fed@ == old(self).fed@.push(byte),
            (r is Found) == occurs_in(final(self).fed@, final(self).delim@),
            r is Found ==> final(self).frame@ + final(self).delim@ == final(self).fed@,
            !(r is Found) ==> final(self).wf(),
            (r is TooLong) == (!(r is Found) && final(self).frame@.len() > MAX_FRAME_BYTES),
    {
        let ghost d = self.delim@;
        let ghost fed0 = self.fed@;
        let ghost fed1 = fed0.push(byte);
        let ghost m = d.len() as int;
        let m_exec = self.delim.len();
        proof {
            occurs_after_push(fed0, d, byte);
            self.fed@ = fed1;
        }
        loop
            invariant_except_break
                self.matched < m,
                self.frame@ + d.take(self.matched as int) == fed0,
                suffix_match(fed0, d, self.matched as int),
                forall|j: int|
                    self.matched < j < m && #[trigger] suffix_match(fed0, d, j) ==> d[j] != byte,
            invariant
                self.delim@ == d,
                d == old(self).delim@,
                fed0 == old(self).fed@,
                m == d.len(),
                m >= 1,
                m_exec == m,
                self.fed@ == fed1,
                fed1 == fed0.push(byte),
                is_failure_table(d, self.failure@),
                !suffix_match(fed0, d, m),
                !occurs_in(fed0, d),
                occurs_in(fed1, d) <==> suffix_match(fed1, d, m),
            ensures
                self.matched < m,
                self.frame@ + d.take(self.matched as int) == fed1,
                suffix_match(fed1, d, self.matched as int),
                forall|j: int| self.matched < j <= m ==> !#[trigger] suffix_match(fed1, d, j),
            decreases self.matched,
        {
            let k = self.matched;
            if byte == self.delim[k] {
                self.matched = k + 1;
                proof {
                    match_after_push(fed0, d, byte, k + 1);
                    assert(d.take(k + 1) =~= d.take(k as int).push(byte));
                    assert forall|j: int| k + 1 < j <= m implies !#[trigger] suffix_match(
                        fed1,
                        d,
                        j,
                    ) by {
                        match_after_push(fed0, d, byte, j);
                    }
                }
                if k + 1 == m_exec {
                    assert(d.take(m) =~= d);
                    return Scan::Found;
                }
                break;
            } else if k == 0 {
                self.frame.push(byte);
                proof {
                    assert(self.frame@ + d.take(0) =~= fed1);
                    assert(fed1.subrange(fed1.len() as int, fed1.len() as int) =~= d.take(0));
                    assert forall|j: int| 0 < j <= m implies !#[trigger] suffix_match(fed1, d, j) by {
                        match_after_push(fed0, d, byte, j);
                    }
                }
                break;
            }
            let f = self.failure[k - 1];
            let ghost frame0 = self.frame@;
            proof {
                assert(is_border(d, k - 1, f as int));
            }
            extend_prefix(&mut self.frame, &self.delim, k - f);
            proof {
                assert(d.take(k as int) =~= d.subrange(0, k - f) + d.subrange(k - f, k as int));
                assert(d.subrange(k - f, k as int) =~= d.take(f as int));
                assert(self.frame@ + d.take(f as int) =~= frame0 + d.take(k as int));
                let n0 = fed0.len() as int;
                assert(fed0.subrange(n0 - f, n0) =~= fed0.subrange(n0 - k, n0).subrange(k - f, k as int));
                assert forall|j: int| f < j < m && #[trigger] suffix_match(fed0, d, j) implies d[j] != byte by {
                    if j < k {
                        partial_matches_are_borders(fed0, d, j, k as int);
                    }
                }
            }
            self.matched = f;
        }
        if self.frame.len() > MAX_FRAME_BYTES {
            return Scan::TooLong;
        }
        Scan::More
    }

    /// The frame cut so far.
    pub fn into_frame(self) -> (frame: Vec<u8>)
        ensures
            frame@ == self.frame@,
    {
        self.frame
    }
}

/// A frame body as it came before its boundary, without the CRLF that
/// precedes the boundary line.
pub open spec fn frame_body(raw: Seq<u8>) -> Seq<u8> {
    if raw.len() >= 2 && raw[raw.len() - 2] == 13u8 && raw[raw.len() - 1] == 10u8 {
        raw.take(raw.len() - 2)
    } else {
        raw
    }
}

/// Cuts the CRLF that ends a frame's bytes, if they end with one.
pub fn strip_crlf(frame: &mut Vec<u8>)
    ensures
        final(frame)@ == frame_body(old(frame)@),
{
    let n = frame.len();
    if n >= 2 && frame[n - 2] == 13u8 && frame[n - 1] == 10u8 {
        frame.truncate(n - 2);
    }
}


// ---------------------------------------------------------------------------
// The response head and the chunked body
// ---------------------------------------------------------------------------

/// What a stream's response head says: the multipart boundary, and whether
/// the body comes in chunks.
pub struct ResponseHead {
    pub boundary: String,
    pub chunked: bool,
}

/// Why a response head cannot start a stream.
#[derive(Debug, Clone, Copy, PartialEq, Eq, Structural)]
pub enum HeadError {
    /// The status line does not report `200`.
    BadStatus,
    /// No header names a multipart boundary.
    NoBoundary,
}

/// The boundary the last header naming one names.
pub open spec fn last_boundary(headers: Seq<Seq<char>>) -> Option<Seq<char>>
    decreases headers.len(),
{
    if headers.len() == 0 {
        None
    } else {
        match boundary_of(headers.last()) {
            Some(b) => Some(b),
            None => last_boundary(headers.drop_last()),
        }
    }
}

pub open spec fn any_chunked(headers: Seq<Seq<char>>) -> bool {
    exists|i: int| 0 <= i < headers.len() && chunked_header(#[trigger] headers[i])
}

/// What a response head with status line `status` and header lines
/// `headers` gives: an error unless the status is `200` and some header
/// names a boundary; the last such header wins.
pub open spec fn head_of(status: Seq<char>, headers: Seq<Seq<char>>) -> Result<(Seq<char>, bool), HeadError> {
    if !has_token(status, "200"@) {
        Err(HeadError::BadStatus)
    } else {
        match last_boundary(headers) {
            None => Err(HeadError::NoBoundary),
            Some(b) => Ok((b, any_chunked(headers))),
        }
    }
}

pub open spec fn header_lines(v: Seq<String>) -> Seq<Seq<char>> {
    v.map_values(|s: String| s@)
}

/// Reads a response head (see `head_of`).
pub fn response_head(status: &str, headers: &Vec<String>) -> (r: Result<ResponseHead, HeadError>)
    ensures
        match r {
            Ok(h) => head_of(status@, header_lines(headers@)) == Ok::<(Seq<char>, bool), HeadError>(
                (h.boundary@, h.chunked),
            ),
            Err(e) => head_of(status@, header_lines(headers@)) == Err::<(Seq<char>, bool), HeadError>(e),
        },
{
    if !status_ok(status) {
        return Err(HeadError::BadStatus);
    }
    let ghost hs = header_lines(headers@);
    let mut boundary: Option<String> = None;
    let mut chunked = false;
    let mut i: usize = 0;
    assert(hs.take(0) =~= Seq::<Seq<char>>::empty());
    while i < headers.len()
        invariant
            i <= headers@.len(),
            hs == header_lines(headers@),
            match boundary {
                Some(b) => last_boundary(hs.take(i as int)) == Some(b@),
                None => last_boundary(hs.take(i as int)) is None,
            },
            chunked == any_chunked(hs.take(i as int)),
        decreases headers@.len() - i,
    {
        let ghost t = hs.take(i + 1);
        assert(t.drop_last() =~= hs.take(i as int));
        assert(t.last() == headers@[i as int]@);
        if is_chunked_header(headers[i].as_str()) {
            chunked = true;
            assert(chunked_header(t[i as int]));
        } else {
            assert forall|k: int| 0 <= k < t.len() && chunked_header(#[trigger] t[k]) implies any_chunked(
                hs.take(i as int),
            ) by {
                assert(hs.take(i as int)[k] == t[k]);
            }
        }
        if chunked {
            assert forall|k: int| 0 <= k < hs.take(i as int).len() && chunked_header(
                #[trigger] hs.take(i as int)[k],
            ) implies any_chunked(t) by {
                assert(t[k] == hs.take(i as int)[k]);
            }
        }
        match parse_boundary(headers[i].as_str()) {
            Some(b) => {
                boundary = Some(b);
            },
            None => {},
        }
        i = i + 1;
    }
    assert(hs.take(i as int) =~= hs);
    match boundary {
        Some(b) => Ok(ResponseHead { boundary: b, chunked }),
        None => Err(HeadError::NoBoundary),
    }
}

/// Where a chunked body stands: bytes left in the current chunk, and
/// whether the last chunk has been read.
pub struct Chunked {
    pub remaining: usize,
    pub done: bool,
}

/// What a chunked body reader does next, asked for up to some bytes.
#[derive(Debug, Clone, Copy, PartialEq, Eq, Structural)]
pub enum ChunkNext {
    /// Nothing more to give (the body ended, or nothing was asked for).
    Eof,
    /// Read the next chunk-size line.
    SizeLine,
    /// Read up to this many body bytes.
    Read(usize),
    /// The chunk-size line is not one.
    BadSize,
}

pub open spec fn min_of(a: usize, b: usize) -> usize {
    if a < b {
        a
    } else {
        b
    }
}

pub open spec fn chunk_next(remaining: usize, done: bool, want: usize) -> ChunkNext {
    if done || want == 0 {
        ChunkNext::Eof
    } else if remaining == 0 {
        ChunkNext::SizeLine
    } else {
        ChunkNext::Read(min_of(remaining, want))
    }
}

/// A chunk-size line taken: a blank line (the CRLF after a chunk) asks for
/// the next line; size 0 ends the body; another size starts a chunk of that
/// many bytes. Gives the bytes left in the chunk, whether the body ended,
/// and what to do next.
pub open spec fn size_step(line: Seq<char>, want: usize) -> (usize, bool, ChunkNext) {
    if line.len() == 0 {
        (0, false, ChunkNext::SizeLine)
    } else {
        match chunk_size_of(line) {
            None => (0, false, ChunkNext::BadSize),
            Some(n) => if n == 0 {
                (0, true, ChunkNext::Eof)
            } else {
                (n as usize, false, ChunkNext::Read(min_of(n as usize, want)))
            },
        }
    }
}

/// `n` body bytes taken of a chunk with `remaining` bytes left: none is a
/// truncated body (`None`); otherwise the bytes left, and whether the chunk
/// is complete (its CRLF to be read).
pub open spec fn got_step(remaining: usize, n: usize) -> (usize, Option<bool>) {
    if n == 0 {
        (remaining, None)
    } else {
        ((remaining - n) as usize, Some(remaining - n == 0))
    }
}

impl Chunked {
    pub fn new() -> (c: Chunked)
        ensures
            c.remaining == 0,
            !c.done,
    {
        Chunked { remaining: 0, done: false }
    }

    /// What to do for a read of up to `want` bytes.
    pub fn next(&self, want: usize) -> (r: ChunkNext)
        ensures
            r == chunk_next(self.remaining, self.done, want),
    {
        if self.done || want == 0 {
            ChunkNext::Eof
        } else if self.remaining == 0 {
            ChunkNext::SizeLine
        } else if self.remaining < want {
            ChunkNext::Read(self.remaining)
        } else {
            ChunkNext::Read(want)
        }
    }

    /// Takes a chunk-size line: a blank line (the CRLF after a chunk) asks
    /// for the next line; size 0 ends the body; another size starts a
    /// chunk of that many bytes.
    pub fn size_line(&mut self, line: &str, want: usize) -> (r: ChunkNext)
        requires
            !old(self).done,
            old(self).remaining == 0,
            want > 0,
        ensures
            (final(self).remaining, final(self).done, r) == size_step(line@, want),
    {
        if line.is_empty() {
            return ChunkNext::SizeLine;
        }
        match parse_chunk_size(line) {
            None => ChunkNext::BadSize,
            Some(0) => {
                self.done = true;
                ChunkNext::Eof
            },
            Some(n) => {
                self.remaining = n;
                self.next(want)
            },
        }
    }

    /// Takes the `n` body bytes a read gave: none is a truncated body
    /// (`None`); otherwise whether the chunk is now complete, when its CRLF
    /// is to be read.
    pub fn got(&mut self, n: usize) -> (r: Option<bool>)
        requires
            n <= old(self).remaining,
        ensures
            (final(self).remaining, r) == got_step(old(self).remaining, n),
            final(self).done == old(self).done,
    {
        if n == 0 {
            return None;
        }
        self.remaining = self.remaining - n;
        Some(self.remaining == 0)
    }
}

} // verus!
