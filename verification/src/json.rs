//! The lexical layer of the dataset document grammar: whitespace, strings
//! and numbers, as deterministic specification functions over character
//! sequences, each with a verified executable mirror.
//!
//! A specification function returns `None` where the document is not
//! well-formed at that position; the executable parser returns exactly
//! what the specification says, so "parses" and "is well-formed" coincide
//! by construction.

use vstd::prelude::*;
use vstd::utf8::is_scalar;

verus! {

/// JSON whitespace: space, tab, line feed, carriage return.
pub open spec fn is_ws(c: char) -> bool {
    c == ' ' || c == '\t' || c == '\n' || c == '\r'
}

/// The first index at or after `i` holding a non-whitespace character
/// (or the end of the document).
pub open spec fn ws(s: Seq<char>, i: int) -> int
    decreases s.len() - i
        when 0 <= i <= s.len()
{
    if i < s.len() && is_ws(s[i]) {
        ws(s, i + 1)
    } else {
        i
    }
}

/// `ws` lands between its argument and the end of the document, on a
/// non-whitespace character if any remains.
pub proof fn lemma_ws_bounds(s: Seq<char>, i: int)
    requires
        0 <= i <= s.len(),
    ensures
        i <= ws(s, i) <= s.len(),
        ws(s, i) < s.len() ==> !is_ws(s[ws(s, i)]),
    decreases s.len() - i,
{
    if i < s.len() && is_ws(s[i]) {
        lemma_ws_bounds(s, i + 1);
    }
}

/// Advance past whitespace.
pub(crate) fn ws_exec(s: &Vec<char>, i: usize) -> (r: usize)
    requires
        i <= s@.len(),
    ensures
        r == ws(s@, i as int),
        i <= r <= s@.len(),
{
    let mut p: usize = i;
    while p < s.len() && (s[p] == ' ' || s[p] == '\t' || s[p] == '\n' || s[p] == '\r')
        invariant
            i <= p <= s@.len(),
            ws(s@, i as int) == ws(s@, p as int),
        decreases s@.len() - p,
    {
        p = p + 1;
    }
    proof {
        lemma_ws_bounds(s@, p as int);
    }
    p
}

/// A decimal digit.
pub open spec fn is_digit(c: char) -> bool {
    '0' <= c && c <= '9'
}

/// The value of a decimal digit.
pub open spec fn digit_val(c: char) -> int {
    c as u32 - 48
}

/// A hexadecimal digit.
pub open spec fn is_hex(c: char) -> bool {
    is_digit(c) || ('a' <= c && c <= 'f') || ('A' <= c && c <= 'F')
}

/// The value of a hexadecimal digit.
pub open spec fn hex_val(c: char) -> int {
    if is_digit(c) {
        digit_val(c)
    } else if 'a' <= c && c <= 'f' {
        c as u32 - 87
    } else {
        c as u32 - 55
    }
}

/// Whether four hexadecimal digits stand at `k`.
pub open spec fn hex4_at(s: Seq<char>, k: int) -> bool {
    &&& k >= 0
    &&& k + 4 <= s.len()
    &&& is_hex(s[k])
    &&& is_hex(s[k + 1])
    &&& is_hex(s[k + 2])
    &&& is_hex(s[k + 3])
}

/// The value of the four hexadecimal digits at `k`.
pub open spec fn hex4_val(s: Seq<char>, k: int) -> int {
    hex_val(s[k]) * 4096 + hex_val(s[k + 1]) * 256 + hex_val(s[k + 2]) * 16 + hex_val(s[k + 3])
}

/// The character denoted by a single-character escape, if the escape is
/// a legal one.
pub open spec fn esc_char(e: char) -> Option<char> {
    if e == '"' {
        Some('"')
    } else if e == '\\' {
        Some('\\')
    } else if e == '/' {
        Some('/')
    } else if e == 'b' {
        Some('\u{0008}')
    } else if e == 'f' {
        Some('\u{000C}')
    } else if e == 'n' {
        Some('\n')
    } else if e == 'r' {
        Some('\r')
    } else if e == 't' {
        Some('\t')
    } else {
        None
    }
}

/// The scalar denoted by a surrogate pair.
pub open spec fn pair_val(h: int, l: int) -> int {
    0x10000 + (h - 0xD800) * 0x400 + (l - 0xDC00)
}

/// The content and end position of a string body beginning at `i` (just
/// after the opening quote): content characters stand for themselves,
/// escapes for the character they denote, a high surrogate escape must
/// pair with a following low one, and a raw control character or an
/// unterminated string is an error.
pub open spec fn str_body(s: Seq<char>, i: int) -> Option<(Seq<char>, int)>
    decreases s.len() - i
        when 0 <= i <= s.len()
{
    if i >= s.len() {
        None
    } else {
        let c = s[i];
        if c == '"' {
            Some((Seq::empty(), i + 1))
        } else if c == '\\' {
            if i + 2 > s.len() {
                None
            } else {
                let e = s[i + 1];
                if e == 'u' {
                    if !hex4_at(s, i + 2) {
                        None
                    } else {
                        let h = hex4_val(s, i + 2);
                        if 0xD800 <= h < 0xDC00 {
                            if i + 12 <= s.len() && s[i + 6] == '\\' && s[i + 7] == 'u'
                                && hex4_at(s, i + 8) && 0xDC00 <= hex4_val(s, i + 8) < 0xE000 {
                                match str_body(s, i + 12) {
                                    Some((t, j)) => Some(
                                        (seq![(pair_val(h, hex4_val(s, i + 8)) as u32) as char] + t, j),
                                    ),
                                    None => None,
                                }
                            } else {
                                None
                            }
                        } else if 0xDC00 <= h < 0xE000 {
                            None
                        } else {
                            match str_body(s, i + 6) {
                                Some((t, j)) => Some((seq![(h as u32) as char] + t, j)),
                                None => None,
                            }
                        }
                    }
                } else {
                    match esc_char(e) {
                        Some(c2) => match str_body(s, i + 2) {
                            Some((t, j)) => Some((seq![c2] + t, j)),
                            None => None,
                        },
                        None => None,
                    }
                }
            }
        } else if (c as u32) < 0x20 {
            None
        } else {
            match str_body(s, i + 1) {
                Some((t, j)) => Some((seq![c] + t, j)),
                None => None,
            }
        }
    }
}

/// A successful string-body parse always makes progress and stays in
/// bounds.
pub proof fn lemma_str_body_bounds(s: Seq<char>, i: int)
    requires
        0 <= i <= s.len(),
    ensures
        str_body(s, i) is Some ==> i < str_body(s, i).unwrap().1 <= s.len(),
    decreases s.len() - i,
{
    if i < s.len() {
        let c = s[i];
        if c == '"' {
        } else if c == '\\' {
            if i + 2 <= s.len() {
                if s[i + 1] == 'u' {
                    if hex4_at(s, i + 2) {
                        let h = hex4_val(s, i + 2);
                        if 0xD800 <= h < 0xDC00 {
                            if i + 12 <= s.len() {
                                lemma_str_body_bounds(s, i + 12);
                            }
                        } else {
                            lemma_str_body_bounds(s, i + 6);
                        }
                    }
                } else {
                    lemma_str_body_bounds(s, i + 2);
                }
            }
        } else {
            lemma_str_body_bounds(s, i + 1);
        }
    }
}

/// Relies on Iterator::collect building a String from chars: the
/// collected string holds exactly the given characters in order.
#[verifier::external_body]
pub(crate) fn chars_to_string(v: &Vec<char>) -> (r: String)
    ensures
        r@ == v@,
{
    v.iter().collect()
}

/// Relies on char::from_u32: it returns `Some` exactly for Unicode scalar
/// values, and the returned character has the given code point.
#[verifier::external_body]
fn char_from_u32(u: u32) -> (r: Option<char>)
    ensures
        r is Some <==> is_scalar(u),
        r is Some ==> r.unwrap() as u32 == u,
{
    char::from_u32(u)
}

fn hex_val_exec(c: char) -> (r: u32)
    requires
        is_hex(c),
    ensures
        r == hex_val(c),
        r < 16,
{
    let u = c as u32;
    if u >= 97 {
        u - 87
    } else if u >= 65 {
        u - 55
    } else {
        u - 48
    }
}

/// Whether four hexadecimal digits stand at `k`, and their value.
fn hex4_exec(s: &Vec<char>, k: usize) -> (r: Option<u32>)
    requires
        k <= s@.len(),
    ensures
        r is Some <==> hex4_at(s@, k as int),
        r is Some ==> r.unwrap() == hex4_val(s@, k as int) && r.unwrap() < 0x10000,
{
    if s.len() < 4 || k > s.len() - 4 {
        return None;
    }
    let c0 = s[k];
    let c1 = s[k + 1];
    let c2 = s[k + 2];
    let c3 = s[k + 3];
    let h0 = if '0' <= c0 && c0 <= '9' || 'a' <= c0 && c0 <= 'f' || 'A' <= c0 && c0 <= 'F' {
        hex_val_exec(c0)
    } else {
        return None;
    };
    let h1 = if '0' <= c1 && c1 <= '9' || 'a' <= c1 && c1 <= 'f' || 'A' <= c1 && c1 <= 'F' {
        hex_val_exec(c1)
    } else {
        return None;
    };
    let h2 = if '0' <= c2 && c2 <= '9' || 'a' <= c2 && c2 <= 'f' || 'A' <= c2 && c2 <= 'F' {
        hex_val_exec(c2)
    } else {
        return None;
    };
    let h3 = if '0' <= c3 && c3 <= '9' || 'a' <= c3 && c3 <= 'f' || 'A' <= c3 && c3 <= 'F' {
        hex_val_exec(c3)
    } else {
        return None;
    };
    Some(h0 * 4096 + h1 * 256 + h2 * 16 + h3)
}

/// Parse a string body beginning just after the opening quote; on success
/// return the content and the position after the closing quote.
pub(crate) fn str_body_exec(s: &Vec<char>, i: usize) -> (r: Option<(Vec<char>, usize)>)
    requires
        i <= s@.len(),
    ensures
        match str_body(s@, i as int) {
            Some((t, j)) => {
                &&& r is Some
                &&& r.unwrap().0@ == t
                &&& r.unwrap().1 == j
                &&& i < j <= s@.len()
            },
            None => r is None,
        },
{
    let mut acc: Vec<char> = Vec::new();
    let mut p: usize = i;
    proof {
        lemma_str_body_bounds(s@, i as int);
        if let Some((t, j)) = str_body(s@, i as int) {
            assert(Seq::<char>::empty() + t =~= t);
        }
    }
    loop
        invariant
            i <= p <= s@.len(),
            match str_body(s@, p as int) {
                Some((t, j)) => str_body(s@, i as int) == Some::<(Seq<char>, int)>(
                    (acc@ + t, j),
                ) && p < j <= s@.len(),
                None => str_body(s@, i as int) is None,
            },
        decreases s@.len() - p,
    {
        if p >= s.len() {
            return None;
        }
        let c = s[p];
        if c == '"' {
            proof {
                assert(acc@ + Seq::<char>::empty() =~= acc@);
            }
            return Some((acc, p + 1));
        } else if c == '\\' {
            if s.len() - p < 2 {
                return None;
            }
            let e = s[p + 1];
            if e == 'u' {
                let h = match hex4_exec(s, p + 2) {
                    Some(h) => h,
                    None => {
                        return None;
                    },
                };
                if 0xD800 <= h && h < 0xDC00 {
                    if s.len() - p >= 12 && s[p + 6] == '\\' && s[p + 7] == 'u' {
                        let l = match hex4_exec(s, p + 8) {
                            Some(l) => l,
                            None => {
                                return None;
                            },
                        };
                        if 0xDC00 <= l && l < 0xE000 {
                            let v: u32 = 0x10000 + (h - 0xD800) * 0x400 + (l - 0xDC00);
                            proof {
                                assert(v == pair_val(h as int, l as int));
                                assert(is_scalar(v));
                            }
                            let ch = match char_from_u32(v) {
                                Some(ch) => ch,
                                None => {
                                    return None;
                                },
                            };
                            let ghost acc0 = acc@;
                            acc.push(ch);
                            proof {
                                vstd::utf8::char_u32_cast(ch, v);
                                lemma_str_body_bounds(s@, p as int + 12);
                                assert(ch == (pair_val(h as int, l as int) as u32) as char);
                                if let Some((t, j)) = str_body(s@, p as int + 12) {
                                    assert(acc0 + (seq![ch] + t) =~= acc@ + t);
                                }
                            }
                            p = p + 12;
                        } else {
                            return None;
                        }
                    } else {
                        return None;
                    }
                } else if 0xDC00 <= h && h < 0xE000 {
                    return None;
                } else {
                    proof {
                        assert(is_scalar(h));
                    }
                    let ch = match char_from_u32(h) {
                        Some(ch) => ch,
                        None => {
                            return None;
                        },
                    };
                    let ghost acc0 = acc@;
                    acc.push(ch);
                    proof {
                        vstd::utf8::char_u32_cast(ch, h);
                        lemma_str_body_bounds(s@, p as int + 6);
                        assert(ch == (h as int as u32) as char);
                        if let Some((t, j)) = str_body(s@, p as int + 6) {
                            assert(acc0 + (seq![ch] + t) =~= acc@ + t);
                        }
                    }
                    p = p + 6;
                }
            } else {
                let c2 = if e == '"' {
                    '"'
                } else if e == '\\' {
                    '\\'
                } else if e == '/' {
                    '/'
                } else if e == 'b' {
                    '\u{0008}'
                } else if e == 'f' {
                    '\u{000C}'
                } else if e == 'n' {
                    '\n'
                } else if e == 'r' {
                    '\r'
                } else if e == 't' {
                    '\t'
                } else {
                    return None;
                };
                let ghost acc0 = acc@;
                acc.push(c2);
                proof {
                    lemma_str_body_bounds(s@, p as int + 2);
                    if let Some((t, j)) = str_body(s@, p as int + 2) {
                        assert(acc0 + (seq![c2] + t) =~= acc@ + t);
                    }
                }
                p = p + 2;
            }
        } else if (c as u32) < 0x20 {
            return None;
        } else {
            let ghost acc0 = acc@;
            acc.push(c);
            proof {
                lemma_str_body_bounds(s@, p as int + 1);
                if let Some((t, j)) = str_body(s@, p as int + 1) {
                    assert(acc0 + (seq![c] + t) =~= acc@ + t);
                }
            }
            p = p + 1;
        }
    }
}

/// The first index at or after `i` holding a non-digit (or the end of
/// the document).
pub open spec fn digits_end(s: Seq<char>, i: int) -> int
    decreases s.len() - i
        when 0 <= i <= s.len()
{
    if i < s.len() && is_digit(s[i]) {
        digits_end(s, i + 1)
    } else {
        i
    }
}

/// `digits_end` lands after a run of digits and before a non-digit.
pub proof fn lemma_digits_end_bounds(s: Seq<char>, i: int)
    requires
        0 <= i <= s.len(),
    ensures
        i <= digits_end(s, i) <= s.len(),
        forall|k: int| i <= k < digits_end(s, i) ==> is_digit(s[k]),
        digits_end(s, i) < s.len() ==> !is_digit(s[digits_end(s, i)]),
    decreases s.len() - i,
{
    if i < s.len() && is_digit(s[i]) {
        lemma_digits_end_bounds(s, i + 1);
    }
}

/// Advance past a run of digits.
pub(crate) fn digits_end_exec(s: &Vec<char>, i: usize) -> (r: usize)
    requires
        i <= s@.len(),
    ensures
        r == digits_end(s@, i as int),
        i <= r <= s@.len(),
{
    let mut p: usize = i;
    while p < s.len() && '0' <= s[p] && s[p] <= '9'
        invariant
            i <= p <= s@.len(),
            digits_end(s@, i as int) == digits_end(s@, p as int),
        decreases s@.len() - p,
    {
        p = p + 1;
    }
    proof {
        lemma_digits_end_bounds(s@, p as int);
    }
    p
}

/// The value of a digit string read as a decimal number.
pub open spec fn digits_val_seq(ds: Seq<char>) -> int
    decreases ds.len(),
{
    if ds.len() == 0 {
        0
    } else {
        digits_val_seq(ds.drop_last()) * 10 + digit_val(ds.last())
    }
}

/// Powers of ten.
pub open spec fn pow10(k: nat) -> int
    decreases k,
{
    if k == 0 {
        1
    } else {
        10 * pow10((k - 1) as nat)
    }
}

pub proof fn lemma_pow10_pos(k: nat)
    ensures
        pow10(k) >= 1,
    decreases k,
{
    if k > 0 {
        lemma_pow10_pos((k - 1) as nat);
    }
}

/// The value of a digit string is never negative.
pub proof fn lemma_digits_val_nonneg(ds: Seq<char>)
    requires
        forall|k: int| 0 <= k < ds.len() ==> is_digit(#[trigger] ds[k]),
    ensures
        digits_val_seq(ds) >= 0,
    decreases ds.len(),
{
    if ds.len() > 0 {
        lemma_digits_val_nonneg(ds.drop_last());
    }
}

/// The fixed-point value of a decimal number with integer digits
/// `s[ia..ib)`, fraction digits `s[fa..fb)`, sign `neg` and decimal
/// exponent `e`: the digit string shifted so that 1e-7 degree is one
/// unit, truncated toward zero, clamped to the `i32` range.
pub open spec fn fixed_value(
    s: Seq<char>,
    neg: bool,
    ia: int,
    ib: int,
    fa: int,
    fb: int,
    e: int,
) -> int {
    let ds = s.subrange(ia, ib) + s.subrange(fa, fb);
    let keep: int = ds.len() + 7 + e - (fb - fa);
    let m: int = if keep <= 0 {
        0
    } else if keep >= ds.len() {
        digits_val_seq(ds) * pow10((keep - ds.len()) as nat)
    } else {
        digits_val_seq(ds.take(keep))
    };
    let v: int = if neg {
        -m
    } else {
        m
    };
    if v < i32::MIN {
        i32::MIN as int
    } else if v > i32::MAX {
        i32::MAX as int
    } else {
        v
    }
}

/// The fixed-point value and end position of the number beginning at
/// `i`: an optional minus sign, an integer part without superfluous
/// leading zero, an optional fraction and an optional exponent, as the
/// JSON grammar has it.
pub open spec fn parse_number(s: Seq<char>, i: int) -> Option<(int, int)> {
    if !(0 <= i <= s.len()) {
        None
    } else {
        let neg = i < s.len() && s[i] == '-';
        let i1: int = if neg {
            i + 1
        } else {
            i
        };
        if i1 >= s.len() || !is_digit(s[i1]) {
            None
        } else {
            let ie: int = digits_end(s, i1);
            if s[i1] == '0' && ie != i1 + 1 {
                None
            } else {
                let hasf = ie < s.len() && s[ie] == '.';
                let fa: int = if hasf {
                    ie + 1
                } else {
                    ie
                };
                let fb: int = if hasf {
                    digits_end(s, ie + 1)
                } else {
                    ie
                };
                if hasf && fb == fa {
                    None
                } else {
                    let hase = fb < s.len() && (s[fb] == 'e' || s[fb] == 'E');
                    if !hase {
                        Some((fixed_value(s, neg, i1, ie, fa, fb, 0), fb))
                    } else {
                        let es: int = fb + 1;
                        let esigned = es < s.len() && (s[es] == '-' || s[es] == '+');
                        let eneg = es < s.len() && s[es] == '-';
                        let d0: int = if esigned {
                            es + 1
                        } else {
                            es
                        };
                        if d0 >= s.len() || !is_digit(s[d0]) {
                            None
                        } else {
                            let ee: int = digits_end(s, d0);
                            let ev: int = digits_val_seq(s.subrange(d0, ee));
                            Some(
                                (
                                    fixed_value(
                                        s,
                                        neg,
                                        i1,
                                        ie,
                                        fa,
                                        fb,
                                        if eneg {
                                            -ev
                                        } else {
                                            ev
                                        },
                                    ),
                                    ee,
                                ),
                            )
                        }
                    }
                }
            }
        }
    }
}

pub proof fn lemma_pow10_mono(a: nat, b: nat)
    requires
        a <= b,
    ensures
        pow10(a) <= pow10(b),
    decreases b,
{
    if a < b {
        lemma_pow10_mono(a, (b - 1) as nat);
        lemma_pow10_pos((b - 1) as nat);
    }
}

fn pow10_exec(k: u32) -> (r: i128)
    requires
        k <= 11,
    ensures
        r == pow10(k as nat),
        r >= 1,
{
    let mut r: i128 = 1;
    let mut t: u32 = 0;
    while t < k
        invariant
            t <= k <= 11,
            r == pow10(t as nat),
            1 <= r <= 100_000_000_000,
        decreases k - t,
    {
        proof {
            lemma_pow10_mono((t + 1) as nat, 11);
            lemma_pow10_pos(t as nat);
            reveal_with_fuel(pow10, 13);
        }
        r = r * 10;
        t = t + 1;
    }
    r
}

/// Parse the number beginning at `i`; on success return its fixed-point
/// value (clamped to the `i32` range) and the position after it.
#[verifier::rlimit(100)]
#[verifier::spinoff_prover]
fn assemble_fixed(
    s: &Vec<char>,
    neg: bool,
    i1: usize,
    ie: usize,
    fa: usize,
    fb: usize,
    eneg: bool,
    e_mag: i128,
    Ghost(e_true): Ghost<int>,
) -> (r: i32)
    requires
        i1 <= ie <= fa <= fb <= s@.len(),
        i1 < ie,
        forall|k: int| i1 <= k < ie ==> is_digit(#[trigger] s@[k]),
        forall|k: int| fa <= k < fb ==> is_digit(#[trigger] s@[k]),
        0 <= e_mag <= 1_000_000_000_000_000_000_000,
        e_mag < 1_000_000_000_000_000_000_000 ==> e_true == (if eneg {
            -e_mag as int
        } else {
            e_mag as int
        }),
        e_mag == 1_000_000_000_000_000_000_000 && eneg ==> e_true <= -e_mag,
        e_mag == 1_000_000_000_000_000_000_000 && !eneg ==> e_true >= e_mag,
    ensures
        r as int == fixed_value(s@, neg, i1 as int, ie as int, fa as int, fb as int, e_true),
{
    let ghost ds = s@.subrange(i1 as int, ie as int) + s@.subrange(fa as int, fb as int);
    let ilen: usize = ie - i1;
    let flen: usize = fb - fa;
    let bl: usize = ilen + flen;
    proof {
        assert(ds.len() == bl);
        assert forall|k: int| 0 <= k < ds.len() implies is_digit(#[trigger] ds[k]) by {
            if k < ilen {
                assert(ds[k] == s@[i1 + k]);
            } else {
                assert(ds[k] == s@[fa + (k - ilen)]);
            }
        }
    }
    let e_exec: i128 = if eneg {
        -e_mag
    } else {
        e_mag
    };
    let keep_exec: i128 = bl as i128 + 7 + e_exec - flen as i128;
    let ghost keep_true: int = ds.len() + 7 + e_true - (fb - fa);
    proof {
        assert(e_mag < 1_000_000_000_000_000_000_000 ==> e_true == e_exec);
        assert(bl <= usize::MAX);
        assert(usize::MAX as int <= 0xFFFF_FFFF_FFFF_FFFF);
    }
    // nothing to keep: the value truncates to zero
    if keep_exec <= 0 {
        proof {
            assert(keep_true <= 0);
        }
        return 0;
    }
    let nkeep: usize = if keep_exec >= bl as i128 {
        bl
    } else {
        keep_exec as usize
    };
    // accumulate the kept digits, saturating beyond the i32 range
    let mut acc: i64 = 0;
    let mut cnt: usize = 0;
    while cnt < nkeep
        invariant
            0 <= cnt <= nkeep <= bl,
            bl == ds.len(),
            ilen == ie - i1,
            i1 <= ie <= fa <= fb <= s@.len(),
            ilen + flen == bl,
            flen == fb - fa,
            ds == s@.subrange(i1 as int, ie as int) + s@.subrange(fa as int, fb as int),
            forall|k: int| 0 <= k < ds.len() ==> is_digit(#[trigger] ds[k]),
            0 <= acc <= 3_000_000_000i64,
            digits_val_seq(ds.take(cnt as int)) < 3_000_000_000 ==> acc == digits_val_seq(
                ds.take(cnt as int),
            ),
            digits_val_seq(ds.take(cnt as int)) >= 3_000_000_000 ==> acc >= 3_000_000_000,
        decreases nkeep - cnt,
    {
        let ghost pre = ds.take(cnt as int);
        let ghost t = digits_val_seq(pre);
        let ch: char = if cnt < ilen {
            s[i1 + cnt]
        } else {
            s[fa + (cnt - ilen)]
        };
        proof {
            assert(ds[cnt as int] == ch);
            lemma_digits_val_nonneg(pre);
            assert(ds.take(cnt as int + 1).drop_last() =~= pre);
            assert(ds.take(cnt as int + 1).last() == ds[cnt as int]);
            assert(digits_val_seq(ds.take(cnt as int + 1)) == t * 10 + digit_val(ds[cnt as int]));
            assert(t * 10 + digit_val(ds[cnt as int]) >= t);
        }
        let d: u32 = (ch as u32) - 48;
        if acc < 3_000_000_000 {
            acc = acc * 10 + d as i64;
            if acc > 3_000_000_000 {
                acc = 3_000_000_000;
            }
        }
        cnt = cnt + 1;
    }
    let ghost kept = digits_val_seq(ds.take(nkeep as int));
    proof {
        lemma_digits_val_nonneg(ds.take(nkeep as int));
    }
    let ghost m_true: int = if keep_true <= 0 {
        0int
    } else if keep_true >= ds.len() {
        digits_val_seq(ds) * pow10((keep_true - ds.len()) as nat)
    } else {
        digits_val_seq(ds.take(keep_true))
    };
    // assemble the magnitude, padding with zeros where the shift asks for
    // more digits than the literal holds
    let mut m_exec: i128 = 0;
    if keep_exec >= bl as i128 + 12 {
        // far beyond the i32 range unless every digit is zero
        if acc == 0 {
            m_exec = 0;
        } else {
            m_exec = 3_000_000_000_000_000_000;
        }
        proof {
            assert(ds.take(nkeep as int) =~= ds);
            assert(keep_true >= keep_exec);
            if kept == 0 {
                assert(acc == 0);
                assert(kept * pow10((keep_true - ds.len()) as nat) == 0) by (nonlinear_arith)
                    requires
                        kept == 0,
                ;
                assert(m_true == 0 && m_exec == 0);
            } else {
                assert(acc != 0);
                lemma_pow10_mono(12nat, (keep_true - ds.len()) as nat);
                reveal_with_fuel(pow10, 13);
                assert(pow10(12nat) == 1_000_000_000_000);
                assert(kept * pow10((keep_true - ds.len()) as nat) >= pow10(
                    (keep_true - ds.len()) as nat,
                )) by (nonlinear_arith)
                    requires
                        kept >= 1,
                        pow10((keep_true - ds.len()) as nat) >= 1,
                ;
                assert(m_true >= 1_000_000_000_000);
            }
            assert(m_true > i32::MAX ==> m_exec > i32::MAX);
            assert(m_true <= i32::MAX ==> m_exec == m_true);
        }
    } else if keep_exec >= bl as i128 {
        // all digits kept, then shifted up by fewer than twelve places
        let pad: u32 = (keep_exec - bl as i128) as u32;
        proof {
            assert(keep_true == keep_exec);
            assert(ds.take(nkeep as int) =~= ds);
            lemma_pow10_pos(pad as nat);
            lemma_pow10_mono(pad as nat, 11nat);
            reveal_with_fuel(pow10, 13);
            assert(pow10(11nat) == 100_000_000_000);
        }
        if acc >= 3_000_000_000 {
            m_exec = 3_000_000_000_000_000_000;
            proof {
                assert(kept >= 3_000_000_000);
                assert(kept * pow10(pad as nat) >= kept) by (nonlinear_arith)
                    requires
                        kept >= 0,
                        pow10(pad as nat) >= 1,
                ;
                assert(m_true >= 3_000_000_000);
                assert(m_true > i32::MAX ==> m_exec > i32::MAX);
                assert(m_true <= i32::MAX ==> m_exec == m_true);
            }
        } else {
            let pw: i128 = pow10_exec(pad);
            proof {
                assert(acc as int == kept);
                assert(kept * pow10(pad as nat) <= 3_000_000_000 * 100_000_000_000)
                    by (nonlinear_arith)
                    requires
                        0 <= kept <= 3_000_000_000,
                        1 <= pow10(pad as nat) <= 100_000_000_000,
                ;
                assert(kept * pow10(pad as nat) >= 0) by (nonlinear_arith)
                    requires
                        0 <= kept,
                        1 <= pow10(pad as nat),
                ;
                assert(acc as i128 * pw == kept * pow10(pad as nat));
            }
            m_exec = acc as i128 * pw;
            proof {
                assert(m_exec == m_true);
            }
        }
    } else {
        // a strict prefix of the digits: the rest truncates away
        proof {
            assert(keep_true == keep_exec);
            assert(nkeep as int == keep_true);
        }
        if acc >= 3_000_000_000 {
            m_exec = 3_000_000_000_000_000_000;
            proof {
                assert(m_true == kept && kept >= 3_000_000_000);
                assert(m_true > i32::MAX ==> m_exec > i32::MAX);
                assert(m_true <= i32::MAX ==> m_exec == m_true);
            }
        } else {
            m_exec = acc as i128;
            proof {
                assert(m_exec == m_true);
            }
        }
    }
    proof {
        assert(m_exec >= 0);
        assert(m_true >= 0) by {
            if keep_true > 0 && keep_true >= ds.len() {
                lemma_digits_val_nonneg(ds);
                lemma_pow10_pos((keep_true - ds.len()) as nat);
                assert(digits_val_seq(ds) * pow10((keep_true - ds.len()) as nat) >= 0)
                    by (nonlinear_arith)
                    requires
                        digits_val_seq(ds) >= 0,
                        pow10((keep_true - ds.len()) as nat) >= 1,
                ;
            } else if keep_true > 0 {
                lemma_digits_val_nonneg(ds.take(keep_true));
            }
        }
        assert(m_true > i32::MAX ==> m_exec > i32::MAX);
        assert(m_true <= i32::MAX ==> m_exec == m_true);
    }
    let v_exec: i128 = if neg {
        -m_exec
    } else {
        m_exec
    };
    let clamped: i32 = if v_exec > 2_147_483_647 {
        2_147_483_647
    } else if v_exec < -2_147_483_648 {
        -2_147_483_648
    } else {
        v_exec as i32
    };
    clamped
}

#[verifier::rlimit(100)]
#[verifier::spinoff_prover]
pub(crate) fn parse_number_exec(s: &Vec<char>, i: usize) -> (r: Option<(i32, usize)>)
    requires
        i <= s@.len(),
    ensures
        match parse_number(s@, i as int) {
            Some((v, j)) => {
                &&& r is Some
                &&& r.unwrap().0 as int == v
                &&& r.unwrap().1 == j
                &&& i < j <= s@.len()
            },
            None => r is None,
        },
{
    let n: usize = s.len();
    let neg = i < n && s[i] == '-';
    let i1: usize = if neg {
        i + 1
    } else {
        i
    };
    if i1 >= n {
        return None;
    }
    let c1 = s[i1];
    if !('0' <= c1 && c1 <= '9') {
        return None;
    }
    let ie = digits_end_exec(s, i1);
    proof {
        lemma_digits_end_bounds(s@, i1 as int);
    }
    if c1 == '0' && ie != i1 + 1 {
        return None;
    }
    let hasf = ie < n && s[ie] == '.';
    let fa: usize = if hasf {
        ie + 1
    } else {
        ie
    };
    let fb: usize = if hasf {
        digits_end_exec(s, ie + 1)
    } else {
        ie
    };
    if hasf && fb == fa {
        return None;
    }
    proof {
        lemma_digits_end_bounds(s@, fa as int);
    }
    let hase = fb < n && (s[fb] == 'e' || s[fb] == 'E');
    let mut end: usize = fb;
    let ghost mut e_true: int = 0int;
    let mut e_mag: i128 = 0;
    let mut eneg: bool = false;
    if hase {
        let es: usize = fb + 1;
        let esigned = es < n && (s[es] == '-' || s[es] == '+');
        eneg = es < n && s[es] == '-';
        let d0: usize = if esigned {
            es + 1
        } else {
            es
        };
        if d0 >= n {
            return None;
        }
        if !('0' <= s[d0] && s[d0] <= '9') {
            return None;
        }
        let ee = digits_end_exec(s, d0);
        proof {
            lemma_digits_end_bounds(s@, d0 as int);
        }
        let mut q: usize = d0;
        while q < ee
            invariant
                d0 <= q <= ee <= s@.len(),
                ee == digits_end(s@, d0 as int),
                forall|k: int| d0 <= k < ee ==> is_digit(#[trigger] s@[k]),
                0 <= e_mag <= 1_000_000_000_000_000_000_000,
                digits_val_seq(s@.subrange(d0 as int, q as int)) < 1_000_000_000_000_000_000_000
                    ==> e_mag == digits_val_seq(s@.subrange(d0 as int, q as int)),
                digits_val_seq(s@.subrange(d0 as int, q as int))
                    >= 1_000_000_000_000_000_000_000 ==> e_mag
                    >= 1_000_000_000_000_000_000_000,
            decreases ee - q,
        {
            let ghost pre = s@.subrange(d0 as int, q as int);
            let ghost t = digits_val_seq(pre);
            let d: u32 = (s[q] as u32) - 48;
            proof {
                lemma_digits_val_nonneg(pre);
                assert(s@.subrange(d0 as int, q as int + 1).drop_last() =~= pre);
                assert(s@.subrange(d0 as int, q as int + 1).last() == s@[q as int]);
                assert(digits_val_seq(s@.subrange(d0 as int, q as int + 1)) == t * 10
                    + digit_val(s@[q as int]));
            }
            if e_mag < 1_000_000_000_000_000_000_000 {
                e_mag = e_mag * 10 + d as i128;
                if e_mag > 1_000_000_000_000_000_000_000 {
                    proof {
                        assert(t * 10 + digit_val(s@[q as int]) >= t);
                    }
                    e_mag = 1_000_000_000_000_000_000_000;
                }
            } else {
                proof {
                    assert(t * 10 + digit_val(s@[q as int]) >= t);
                }
            }
            q = q + 1;
        }
        proof {
            let ev = digits_val_seq(s@.subrange(d0 as int, ee as int));
            e_true = if eneg {
                -ev
            } else {
                ev
            };
            lemma_digits_val_nonneg(s@.subrange(d0 as int, ee as int));
        }
        end = ee;
    }
    Some((assemble_fixed(s, neg, i1, ie, fa, fb, eneg, e_mag, Ghost(e_true)), end))
}

/// The literal `true` stands at `i`.
pub open spec fn true_at(s: Seq<char>, i: int) -> bool {
    i + 4 <= s.len() && s[i] == 't' && s[i + 1] == 'r' && s[i + 2] == 'u' && s[i + 3] == 'e'
}

/// The literal `false` stands at `i`.
pub open spec fn false_at(s: Seq<char>, i: int) -> bool {
    i + 5 <= s.len() && s[i] == 'f' && s[i + 1] == 'a' && s[i + 2] == 'l' && s[i + 3] == 's'
        && s[i + 4] == 'e'
}

/// The literal `null` stands at `i`.
pub open spec fn null_at(s: Seq<char>, i: int) -> bool {
    i + 4 <= s.len() && s[i] == 'n' && s[i + 1] == 'u' && s[i + 2] == 'l' && s[i + 3] == 'l'
}

/// The position after the value beginning at `i`, whatever kind of value
/// it is; `None` where no well-formed value stands there. The bounds
/// tests on intermediate positions can never fail (every step moves
/// forward through the document); they make the recursion's termination
/// measure evident.
pub open spec fn skip_value(s: Seq<char>, i: int) -> Option<int>
    decreases s.len() - i, 0int
        when 0 <= i <= s.len()
{
    if i >= s.len() {
        None
    } else {
        let c = s[i];
        if c == '"' {
            match str_body(s, i + 1) {
                Some((t, j)) => Some(j),
                None => None,
            }
        } else if c == '-' || is_digit(c) {
            match parse_number(s, i) {
                Some((v, j)) => Some(j),
                None => None,
            }
        } else if true_at(s, i) {
            Some(i + 4)
        } else if false_at(s, i) {
            Some(i + 5)
        } else if null_at(s, i) {
            Some(i + 4)
        } else if c == '[' {
            let j = ws(s, i + 1);
            if !(i < j <= s.len()) {
                None
            } else if j < s.len() && s[j] == ']' {
                Some(j + 1)
            } else {
                skip_elems(s, j)
            }
        } else if c == '{' {
            let j = ws(s, i + 1);
            if !(i < j <= s.len()) {
                None
            } else if j < s.len() && s[j] == '}' {
                Some(j + 1)
            } else {
                skip_members(s, j)
            }
        } else {
            None
        }
    }
}

/// The position after the remaining elements of an array, `i` standing
/// at the start of an element.
pub open spec fn skip_elems(s: Seq<char>, i: int) -> Option<int>
    decreases s.len() - i, 1int
        when 0 <= i <= s.len()
{
    match skip_value(s, i) {
        None => None,
        Some(j) => if !(i < j <= s.len()) {
            None
        } else {
            let j2 = ws(s, j);
            if !(j <= j2 <= s.len()) {
                None
            } else if j2 < s.len() && s[j2] == ',' {
                let j3 = ws(s, j2 + 1);
                if !(j2 < j3 <= s.len()) {
                    None
                } else {
                    skip_elems(s, j3)
                }
            } else if j2 < s.len() && s[j2] == ']' {
                Some(j2 + 1)
            } else {
                None
            }
        },
    }
}

/// The position after the remaining members of an object, `i` standing
/// at the opening quote of a key.
pub open spec fn skip_members(s: Seq<char>, i: int) -> Option<int>
    decreases s.len() - i, 1int
        when 0 <= i <= s.len()
{
    if !(i < s.len() && s[i] == '"') {
        None
    } else {
        match str_body(s, i + 1) {
            None => None,
            Some((k, j)) => if !(i < j <= s.len()) {
                None
            } else {
                let j2 = ws(s, j);
                if !(j <= j2 <= s.len() && j2 < s.len() && s[j2] == ':') {
                    None
                } else {
                    let j3 = ws(s, j2 + 1);
                    if !(j2 < j3 <= s.len()) {
                        None
                    } else {
                        match skip_value(s, j3) {
                            None => None,
                            Some(j4) => if !(j3 < j4 <= s.len()) {
                                None
                            } else {
                                let j5 = ws(s, j4);
                                if !(j4 <= j5 <= s.len()) {
                                    None
                                } else if j5 < s.len() && s[j5] == ',' {
                                    let j6 = ws(s, j5 + 1);
                                    if !(j5 < j6 <= s.len()) {
                                        None
                                    } else {
                                        skip_members(s, j6)
                                    }
                                } else if j5 < s.len() && s[j5] == '}' {
                                    Some(j5 + 1)
                                } else {
                                    None
                                }
                            },
                        }
                    }
                }
            },
        }
    }
}

/// Step past the value beginning at `i`.
pub(crate) fn skip_value_exec(s: &Vec<char>, i: usize) -> (r: Option<usize>)
    requires
        i <= s@.len(),
    ensures
        match skip_value(s@, i as int) {
            Some(j) => {
                &&& r is Some
                &&& r.unwrap() == j
                &&& i < j <= s@.len()
            },
            None => r is None,
        },
    decreases s@.len() - i,
{
    let n: usize = s.len();
    if i >= n {
        return None;
    }
    let c = s[i];
    if c == '"' {
        match str_body_exec(s, i + 1) {
            Some((t, j)) => Some(j),
            None => None,
        }
    } else if c == '-' || '0' <= c && c <= '9' {
        match parse_number_exec(s, i) {
            Some((v, j)) => Some(j),
            None => None,
        }
    } else if c == 't' && n - i >= 4 && s[i + 1] == 'r' && s[i + 2] == 'u' && s[i + 3] == 'e' {
        Some(i + 4)
    } else if c == 'f' && n - i >= 5 && s[i + 1] == 'a' && s[i + 2] == 'l' && s[i + 3] == 's'
        && s[i + 4] == 'e' {
        Some(i + 5)
    } else if c == 'n' && n - i >= 4 && s[i + 1] == 'u' && s[i + 2] == 'l' && s[i + 3] == 'l' {
        Some(i + 4)
    } else if c == '[' {
        let j = ws_exec(s, i + 1);
        if j < n && s[j] == ']' {
            return Some(j + 1);
        }
        // the elements, one after another
        let mut cur: usize = j;
        loop
            invariant
                i < cur <= s@.len(),
                n == s@.len(),
                skip_elems(s@, cur as int) == skip_elems(s@, j as int),
                skip_value(s@, i as int) == skip_elems(s@, j as int),
            decreases s@.len() - cur,
        {
            let j1 = match skip_value_exec(s, cur) {
                Some(j1) => j1,
                None => {
                    return None;
                },
            };
            let j2 = ws_exec(s, j1);
            if j2 < n && s[j2] == ',' {
                let j3 = ws_exec(s, j2 + 1);
                cur = j3;
            } else if j2 < n && s[j2] == ']' {
                return Some(j2 + 1);
            } else {
                return None;
            }
        }
    } else if c == '{' {
        let j = ws_exec(s, i + 1);
        if j < n && s[j] == '}' {
            return Some(j + 1);
        }
        // the members, one after another
        let mut cur: usize = j;
        loop
            invariant
                i < cur <= s@.len(),
                n == s@.len(),
                skip_members(s@, cur as int) == skip_members(s@, j as int),
                skip_value(s@, i as int) == skip_members(s@, j as int),
            decreases s@.len() - cur,
        {
            if !(cur < n && s[cur] == '"') {
                return None;
            }
            let j1 = match str_body_exec(s, cur + 1) {
                Some((k, j1)) => j1,
                None => {
                    return None;
                },
            };
            let j2 = ws_exec(s, j1);
            if !(j2 < n && s[j2] == ':') {
                return None;
            }
            let j3 = ws_exec(s, j2 + 1);
            let j4 = match skip_value_exec(s, j3) {
                Some(j4) => j4,
                None => {
                    return None;
                },
            };
            let j5 = ws_exec(s, j4);
            if j5 < n && s[j5] == ',' {
                let j6 = ws_exec(s, j5 + 1);
                cur = j6;
            } else if j5 < n && s[j5] == '}' {
                return Some(j5 + 1);
            } else {
                return None;
            }
        }
    } else {
        None
    }
}

} // verus!
