//! A verified JSON scanner for the signaling wire format.
//!
//! Frames arrive as UTF-8 text; this module works directly on the bytes.
//! It validates whole JSON values (so that a malformed frame is rejected as
//! a protocol error), decodes and encodes JSON string literals, and hands
//! the byte span of a payload value back verbatim — the hub never inspects
//! payloads. Each executable function is proved equal to a spec-level
//! grammar function; the spec functions are the definition of the format.

use vstd::prelude::*;

verus! {

pub const QUOTE: u8 = 34;
pub const BACKSLASH: u8 = 92;
pub const SLASH: u8 = 47;
pub const LBRACE: u8 = 123;
pub const RBRACE: u8 = 125;
pub const LBRACKET: u8 = 91;
pub const RBRACKET: u8 = 93;
pub const COLON: u8 = 58;
pub const COMMA: u8 = 44;
pub const SPACE: u8 = 32;
pub const TAB: u8 = 9;
pub const NEWLINE: u8 = 10;
pub const RETURN: u8 = 13;
pub const MINUS: u8 = 45;
pub const PLUS: u8 = 43;
pub const DOT: u8 = 46;
pub const DIGIT_0: u8 = 48;
pub const DIGIT_9: u8 = 57;
pub const UPPER_A: u8 = 65;
pub const UPPER_E: u8 = 69;
pub const UPPER_F: u8 = 70;
pub const LOWER_A: u8 = 97;
pub const LOWER_B: u8 = 98;
pub const LOWER_E: u8 = 101;
pub const LOWER_F: u8 = 102;
pub const LOWER_L: u8 = 108;
pub const LOWER_N: u8 = 110;
pub const LOWER_R: u8 = 114;
pub const LOWER_S: u8 = 115;
pub const LOWER_T: u8 = 116;
pub const LOWER_U: u8 = 117;

/// JSON insignificant whitespace.
pub open spec fn is_ws(b: u8) -> bool {
    b == SPACE || b == TAB || b == NEWLINE || b == RETURN
}

/// A decimal digit.
pub open spec fn is_digit(b: u8) -> bool {
    DIGIT_0 <= b <= DIGIT_9
}

/// First position at or after `i` holding no whitespace.
pub open spec fn spec_skip_ws(s: Seq<u8>, i: int) -> int
    decreases s.len() - i,
{
    if 0 <= i < s.len() && is_ws(s[i]) {
        spec_skip_ws(s, i + 1)
    } else {
        i
    }
}

/// Bounds of [`spec_skip_ws`]: it stays within the input and stops at the
/// first non-whitespace byte.
pub proof fn lemma_skip_ws_bounds(s: Seq<u8>, i: int)
    requires
        0 <= i <= s.len(),
    ensures
        i <= spec_skip_ws(s, i) <= s.len(),
        spec_skip_ws(s, i) == s.len() || !is_ws(s[spec_skip_ws(s, i)]),
    decreases s.len() - i,
{
    if i < s.len() && is_ws(s[i]) {
        lemma_skip_ws_bounds(s, i + 1);
    }
}

/// Executable whitespace skip.
pub fn skip_ws(s: &[u8], i: usize) -> (r: usize)
    requires
        i <= s.len(),
    ensures
        r == spec_skip_ws(s@, i as int),
        i <= r <= s.len(),
{
    let mut cur: usize = i;
    while cur < s.len() && (s[cur] == SPACE || s[cur] == TAB || s[cur] == NEWLINE || s[cur]
        == RETURN)
        invariant
            i <= cur <= s.len(),
            spec_skip_ws(s@, i as int) == spec_skip_ws(s@, cur as int),
        decreases s.len() - cur,
    {
        cur = cur + 1;
    }
    cur
}

/// Value of one hexadecimal digit.
pub open spec fn spec_hex_val(b: u8) -> Option<u8> {
    if DIGIT_0 <= b <= DIGIT_9 {
        Some((b - DIGIT_0) as u8)
    } else if LOWER_A <= b <= LOWER_F {
        Some((b - LOWER_A + 10) as u8)
    } else if UPPER_A <= b <= UPPER_F {
        Some((b - UPPER_A + 10) as u8)
    } else {
        None
    }
}

/// Value of the four hexadecimal digits at `i`.
pub open spec fn spec_hex4(s: Seq<u8>, i: int) -> Option<u32> {
    if i + 4 <= s.len() && 0 <= i && spec_hex_val(s[i]) is Some && spec_hex_val(s[i + 1]) is Some
        && spec_hex_val(s[i + 2]) is Some && spec_hex_val(s[i + 3]) is Some {
        Some(
            (spec_hex_val(s[i])->0 as u32 * 4096 + spec_hex_val(s[i + 1])->0 as u32 * 256
                + spec_hex_val(s[i + 2])->0 as u32 * 16 + spec_hex_val(s[i + 3])->0 as u32) as u32,
        )
    } else {
        None
    }
}

/// UTF-8 encoding of the scalar value `cp`.
pub open spec fn spec_cp_utf8(cp: u32) -> Seq<u8> {
    if cp < 0x80 {
        seq![cp as u8]
    } else if cp < 0x800 {
        seq![(0xC0 + cp / 64) as u8, (0x80 + cp % 64) as u8]
    } else if cp < 0x10000 {
        seq![(0xE0 + cp / 4096) as u8, (0x80 + (cp / 64) % 64) as u8, (0x80 + cp % 64) as u8]
    } else {
        seq![
            (0xF0 + cp / 262144) as u8,
            (0x80 + (cp / 4096) % 64) as u8,
            (0x80 + (cp / 64) % 64) as u8,
            (0x80 + cp % 64) as u8,
        ]
    }
}

fn hex_val(b: u8) -> (r: Option<u8>)
    ensures
        r == spec_hex_val(b),
{
    if DIGIT_0 <= b && b <= DIGIT_9 {
        Some(b - DIGIT_0)
    } else if LOWER_A <= b && b <= LOWER_F {
        Some(b - LOWER_A + 10)
    } else if UPPER_A <= b && b <= UPPER_F {
        Some(b - UPPER_A + 10)
    } else {
        None
    }
}

fn hex4(s: &[u8], i: usize) -> (r: Option<u32>)
    ensures
        r == spec_hex4(s@, i as int),
{
    if s.len() < 4 || i > s.len() - 4 {
        return None;
    }
    let h0 = match hex_val(s[i]) {
        Some(v) => v,
        None => {
            return None;
        },
    };
    let h1 = match hex_val(s[i + 1]) {
        Some(v) => v,
        None => {
            return None;
        },
    };
    let h2 = match hex_val(s[i + 2]) {
        Some(v) => v,
        None => {
            return None;
        },
    };
    let h3 = match hex_val(s[i + 3]) {
        Some(v) => v,
        None => {
            return None;
        },
    };
    Some(h0 as u32 * 4096 + h1 as u32 * 256 + h2 as u32 * 16 + h3 as u32)
}

/// UTF-8 encoding of a scalar value, executable side.
fn encode_cp(cp: u32) -> (r: Vec<u8>)
    requires
        cp <= 0x10FFFF,
    ensures
        r@ == spec_cp_utf8(cp),
{
    let mut r: Vec<u8> = Vec::new();
    if cp < 0x80 {
        r.push(cp as u8);
        proof {
            assert(r@ =~= spec_cp_utf8(cp));
        }
    } else if cp < 0x800 {
        r.push((0xC0 + cp / 64) as u8);
        r.push((0x80 + cp % 64) as u8);
        proof {
            assert(r@ =~= spec_cp_utf8(cp));
        }
    } else if cp < 0x10000 {
        r.push((0xE0 + cp / 4096) as u8);
        r.push((0x80 + (cp / 64) % 64) as u8);
        r.push((0x80 + cp % 64) as u8);
        proof {
            assert(r@ =~= spec_cp_utf8(cp));
        }
    } else {
        r.push((0xF0 + cp / 262144) as u8);
        r.push((0x80 + (cp / 4096) % 64) as u8);
        r.push((0x80 + (cp / 64) % 64) as u8);
        r.push((0x80 + cp % 64) as u8);
        proof {
            assert(r@ =~= spec_cp_utf8(cp));
        }
    }
    r
}

/// Decoding of one escape sequence, positioned just after the backslash.
/// Returns the position after the escape and the decoded bytes. A `\u`
/// escape carrying a high surrogate must be followed by a low-surrogate
/// `\u` escape; the pair decodes to one supplementary code point.
pub open spec fn spec_parse_escape(s: Seq<u8>, i: int) -> Option<(int, Seq<u8>)> {
    if i < 0 || i >= s.len() {
        None
    } else if s[i] == QUOTE {
        Some((i + 1, seq![QUOTE]))
    } else if s[i] == BACKSLASH {
        Some((i + 1, seq![BACKSLASH]))
    } else if s[i] == SLASH {
        Some((i + 1, seq![SLASH]))
    } else if s[i] == LOWER_B {
        Some((i + 1, seq![8u8]))
    } else if s[i] == LOWER_F {
        Some((i + 1, seq![12u8]))
    } else if s[i] == LOWER_N {
        Some((i + 1, seq![10u8]))
    } else if s[i] == LOWER_R {
        Some((i + 1, seq![13u8]))
    } else if s[i] == LOWER_T {
        Some((i + 1, seq![9u8]))
    } else if s[i] == LOWER_U {
        match spec_hex4(s, i + 1) {
            None => None,
            Some(cp) => if 0xD800 <= cp < 0xDC00 {
                if s.len() >= 7 && i <= s.len() - 7 && s[i + 5] == BACKSLASH && s[i + 6] == LOWER_U {
                    match spec_hex4(s, i + 7) {
                        None => None,
                        Some(lo) => if 0xDC00 <= lo < 0xE000 {
                            Some(
                                (
                                    i + 11,
                                    spec_cp_utf8(
                                        (0x10000 + (cp - 0xD800) * 1024 + (lo - 0xDC00)) as u32,
                                    ),
                                ),
                            )
                        } else {
                            None
                        },
                    }
                } else {
                    None
                }
            } else if 0xDC00 <= cp < 0xE000 {
                None
            } else {
                Some((i + 5, spec_cp_utf8(cp)))
            },
        }
    } else {
        None
    }
}

/// Bounds of [`spec_parse_escape`]: the returned position advances and
/// stays within the input.
pub proof fn lemma_parse_escape_bounds(s: Seq<u8>, i: int)
    requires
        spec_parse_escape(s, i) is Some,
    ensures
        ({
            let j = spec_parse_escape(s, i)->0;
            i < j.0 <= s.len()
        }),
{
}

/// Executable escape decoding.
fn parse_escape(s: &[u8], i: usize) -> (r: Option<(usize, Vec<u8>)>)
    ensures
        match r {
            Some((j, d)) => spec_parse_escape(s@, i as int) == Some((j as int, d@)),
            None => spec_parse_escape(s@, i as int) is None,
        },
{
    if i >= s.len() {
        return None;
    }
    let b = s[i];
    if b == QUOTE || b == BACKSLASH || b == SLASH {
        let mut d: Vec<u8> = Vec::new();
        d.push(b);
        proof {
            assert(d@ =~= seq![b]);
            assert(spec_parse_escape(s@, i as int) == Some((i as int + 1, d@)));
        }
        Some((i + 1, d))
    } else if b == LOWER_B || b == LOWER_F || b == LOWER_N || b == LOWER_R || b == LOWER_T {
        let mut d: Vec<u8> = Vec::new();
        let c: u8 = if b == LOWER_B {
            8
        } else if b == LOWER_F {
            12
        } else if b == LOWER_N {
            10
        } else if b == LOWER_R {
            13
        } else {
            9
        };
        d.push(c);
        proof {
            assert(d@ =~= seq![c]);
            assert(spec_parse_escape(s@, i as int) == Some((i as int + 1, d@)));
        }
        Some((i + 1, d))
    } else if b == LOWER_U {
        let cp = match hex4(s, i + 1) {
            Some(v) => v,
            None => {
                return None;
            },
        };
        if 0xD800 <= cp && cp < 0xDC00 {
            if s.len() >= 7 && i <= s.len() - 7 && s[i + 5] == BACKSLASH && s[i + 6] == LOWER_U {
                let lo = match hex4(s, i + 7) {
                    Some(v) => v,
                    None => {
                        return None;
                    },
                };
                if 0xDC00 <= lo && lo < 0xE000 {
                    let combined: u32 = 0x10000 + (cp - 0xD800) * 1024 + (lo - 0xDC00);
                    Some((i + 11, encode_cp(combined)))
                } else {
                    None
                }
            } else {
                None
            }
        } else if 0xDC00 <= cp && cp < 0xE000 {
            None
        } else {
            Some((i + 5, encode_cp(cp)))
        }
    } else {
        None
    }
}

/// Decoding of a string literal's remainder, positioned just after the
/// opening quote. Returns the position after the closing quote and the
/// decoded content. Unescaped control bytes are rejected, as JSON demands.
pub open spec fn spec_parse_string(s: Seq<u8>, i: int) -> Option<(int, Seq<u8>)>
    decreases s.len() - i,
{
    if i < 0 || i >= s.len() {
        None
    } else if s[i] == QUOTE {
        Some((i + 1, Seq::empty()))
    } else if s[i] == BACKSLASH {
        match spec_parse_escape(s, i + 1) {
            None => None,
            Some((j, dec)) => {
                proof {
                    lemma_parse_escape_bounds(s, i + 1);
                }
                match spec_parse_string(s, j) {
                    None => None,
                    Some((e, rest)) => Some((e, dec + rest)),
                }
            },
        }
    } else if s[i] < 0x20 {
        None
    } else {
        match spec_parse_string(s, i + 1) {
            None => None,
            Some((e, rest)) => Some((e, seq![s[i]] + rest)),
        }
    }
}

/// Bounds of [`spec_parse_string`]: the position after the closing quote
/// advances and stays within the input.
pub proof fn lemma_parse_string_bounds(s: Seq<u8>, i: int)
    requires
        spec_parse_string(s, i) is Some,
    ensures
        ({
            let p = spec_parse_string(s, i)->0;
            i < p.0 <= s.len()
        }),
    decreases s.len() - i,
{
    if 0 <= i < s.len() {
        if s[i] == QUOTE {
        } else if s[i] == BACKSLASH {
            let (j, _) = spec_parse_escape(s, i + 1)->0;
            lemma_parse_escape_bounds(s, i + 1);
            lemma_parse_string_bounds(s, j);
        } else if s[i] < 0x20 {
        } else {
            lemma_parse_string_bounds(s, i + 1);
        }
    }
}

/// Executable string-literal decoding.
pub fn parse_string(s: &[u8], i: usize) -> (r: Option<(usize, Vec<u8>)>)
    ensures
        match r {
            Some(p) => spec_parse_string(s@, i as int) == Some((p.0 as int, p.1@)) && i < p.0
                <= s.len(),
            None => spec_parse_string(s@, i as int) is None,
        },
{
    let mut cur: usize = i;
    let mut acc: Vec<u8> = Vec::new();
    loop
        invariant
            i <= cur,
            spec_parse_string(s@, i as int) == (match spec_parse_string(s@, cur as int) {
                None => None::<(int, Seq<u8>)>,
                Some((e, rest)) => Some((e, acc@ + rest)),
            }),
        decreases s.len() - cur,
    {
        if cur >= s.len() {
            return None;
        }
        let b = s[cur];
        if b == QUOTE {
            proof {
                assert(acc@ + Seq::<u8>::empty() =~= acc@);
                lemma_parse_string_bounds(s@, i as int);
            }
            return Some((cur + 1, acc));
        } else if b == BACKSLASH {
            match parse_escape(s, cur + 1) {
                None => {
                    return None;
                },
                Some((j, dec)) => {
                    proof {
                        lemma_parse_escape_bounds(s@, cur as int + 1);
                    }
                    let ghost acc_pre = acc@;
                    crate::bytes::append_bytes(&mut acc, dec.as_slice());
                    proof {
                        if spec_parse_string(s@, j as int) is Some {
                            let (e, rest) = spec_parse_string(s@, j as int)->0;
                            assert(acc_pre + (dec@ + rest) =~= acc@ + rest);
                        }
                    }
                    cur = j;
                },
            }
        } else if b < 0x20 {
            return None;
        } else {
            let ghost acc_pre = acc@;
            acc.push(b);
            proof {
                if spec_parse_string(s@, cur as int + 1) is Some {
                    let (e, rest) = spec_parse_string(s@, cur as int + 1)->0;
                    assert(acc_pre + (seq![b] + rest) =~= acc@ + rest);
                }
            }
            cur = cur + 1;
        }
    }
}

/// First position at or after `i` holding no decimal digit.
pub open spec fn spec_skip_digits(s: Seq<u8>, i: int) -> int
    decreases s.len() - i,
{
    if 0 <= i < s.len() && is_digit(s[i]) {
        spec_skip_digits(s, i + 1)
    } else {
        i
    }
}

/// Bounds of [`spec_skip_digits`].
pub proof fn lemma_skip_digits_bounds(s: Seq<u8>, i: int)
    requires
        0 <= i <= s.len(),
    ensures
        i <= spec_skip_digits(s, i) <= s.len(),
    decreases s.len() - i,
{
    if i < s.len() && is_digit(s[i]) {
        lemma_skip_digits_bounds(s, i + 1);
    }
}

fn skip_digits(s: &[u8], i: usize) -> (r: usize)
    requires
        i <= s.len(),
    ensures
        r == spec_skip_digits(s@, i as int),
        i <= r <= s.len(),
{
    let mut cur: usize = i;
    while cur < s.len() && DIGIT_0 <= s[cur] && s[cur] <= DIGIT_9
        invariant
            i <= cur <= s.len(),
            spec_skip_digits(s@, i as int) == spec_skip_digits(s@, cur as int),
        decreases s.len() - cur,
    {
        cur = cur + 1;
    }
    cur
}

/// End position of a JSON number starting at `i`: an optional minus sign,
/// an integer part without a leading zero, an optional fraction, an
/// optional exponent.
pub open spec fn spec_parse_number(s: Seq<u8>, i: int) -> Option<int> {
    if i < 0 || i >= s.len() {
        None
    } else {
        let j = if s[i] == MINUS {
            i + 1
        } else {
            i
        };
        if j >= s.len() || !is_digit(s[j]) {
            None
        } else {
            let k = if s[j] == DIGIT_0 {
                j + 1
            } else {
                spec_skip_digits(s, j)
            };
            let frac_end = if k < s.len() && s[k] == DOT {
                if k + 1 < s.len() && is_digit(s[k + 1]) {
                    spec_skip_digits(s, k + 1)
                } else {
                    -1
                }
            } else {
                k
            };
            if frac_end < 0 {
                None
            } else {
                let exp_end = if frac_end < s.len() && (s[frac_end] == LOWER_E || s[frac_end]
                    == UPPER_E) {
                    let e1 = if frac_end + 1 < s.len() && (s[frac_end + 1] == PLUS || s[frac_end
                        + 1] == MINUS) {
                        frac_end + 2
                    } else {
                        frac_end + 1
                    };
                    if e1 < s.len() && is_digit(s[e1]) {
                        spec_skip_digits(s, e1)
                    } else {
                        -1
                    }
                } else {
                    frac_end
                };
                if exp_end < 0 {
                    None
                } else {
                    Some(exp_end)
                }
            }
        }
    }
}

/// Bounds of [`spec_parse_number`].
pub proof fn lemma_parse_number_bounds(s: Seq<u8>, i: int)
    requires
        spec_parse_number(s, i) is Some,
    ensures
        i < spec_parse_number(s, i)->0 <= s.len(),
{
    let j = if s[i] == MINUS {
        i + 1
    } else {
        i
    };
    lemma_skip_digits_bounds(s, j);
    let k = if s[j] == DIGIT_0 {
        j + 1
    } else {
        spec_skip_digits(s, j)
    };
    assert(is_digit(s[j]));
    assert(spec_skip_digits(s, j) == spec_skip_digits(s, j + 1));
    lemma_skip_digits_bounds(s, j + 1);
    if k < s.len() && s[k] == DOT && k + 1 < s.len() && is_digit(s[k + 1]) {
        lemma_skip_digits_bounds(s, k + 1);
    }
    let frac_end = if k < s.len() && s[k] == DOT {
        if k + 1 < s.len() && is_digit(s[k + 1]) {
            spec_skip_digits(s, k + 1)
        } else {
            -1
        }
    } else {
        k
    };
    if 0 <= frac_end && frac_end < s.len() && (s[frac_end] == LOWER_E || s[frac_end] == UPPER_E) {
        let e1 = if frac_end + 1 < s.len() && (s[frac_end + 1] == PLUS || s[frac_end + 1]
            == MINUS) {
            frac_end + 2
        } else {
            frac_end + 1
        };
        if e1 < s.len() && is_digit(s[e1]) {
            lemma_skip_digits_bounds(s, e1);
        }
    }
}

/// Executable number scan.
fn parse_number(s: &[u8], i: usize) -> (r: Option<usize>)
    requires
        i <= s.len(),
    ensures
        match r {
            Some(e) => spec_parse_number(s@, i as int) == Some(e as int) && i < e <= s.len(),
            None => spec_parse_number(s@, i as int) is None,
        },
{
    if i >= s.len() {
        return None;
    }
    let j: usize = if s[i] == MINUS {
        i + 1
    } else {
        i
    };
    if j >= s.len() || !(DIGIT_0 <= s[j] && s[j] <= DIGIT_9) {
        return None;
    }
    let k: usize = if s[j] == DIGIT_0 {
        j + 1
    } else {
        skip_digits(s, j)
    };
    proof {
        lemma_skip_digits_bounds(s@, j as int);
    }
    let frac_end: usize = if k < s.len() && s[k] == DOT {
        if k + 1 < s.len() && DIGIT_0 <= s[k + 1] && s[k + 1] <= DIGIT_9 {
            skip_digits(s, k + 1)
        } else {
            return None;
        }
    } else {
        k
    };
    let exp_end: usize = if frac_end < s.len() && (s[frac_end] == LOWER_E || s[frac_end]
        == UPPER_E) {
        let e1: usize = if frac_end + 1 < s.len() && (s[frac_end + 1] == PLUS || s[frac_end + 1]
            == MINUS) {
            frac_end + 2
        } else {
            frac_end + 1
        };
        if e1 < s.len() && DIGIT_0 <= s[e1] && s[e1] <= DIGIT_9 {
            skip_digits(s, e1)
        } else {
            return None;
        }
    } else {
        frac_end
    };
    proof {
        lemma_parse_number_bounds(s@, i as int);
    }
    Some(exp_end)
}

/// Nesting bound on containers, matching the depth limit a serde-based
/// reader applies before giving up on a frame.
pub const DEPTH_LIMIT: u32 = 128;

/// End position of one complete JSON value starting at `i`; `None` for
/// malformed input or for containers nested deeper than `depth`.
pub open spec fn spec_parse_value(s: Seq<u8>, i: int, depth: nat) -> Option<int>
    decreases depth, s.len() - i, 0nat,
{
    if i < 0 || i >= s.len() {
        None
    } else if s[i] == QUOTE {
        match spec_parse_string(s, i + 1) {
            None => None,
            Some((e, _)) => Some(e),
        }
    } else if s[i] == LBRACE {
        if depth == 0 {
            None
        } else {
            spec_parse_members(s, spec_skip_ws(s, i + 1), (depth - 1) as nat, true)
        }
    } else if s[i] == LBRACKET {
        if depth == 0 {
            None
        } else {
            spec_parse_elements(s, spec_skip_ws(s, i + 1), (depth - 1) as nat, true)
        }
    } else if s[i] == LOWER_T {
        if i + 4 <= s.len() && s[i + 1] == LOWER_R && s[i + 2] == LOWER_U && s[i + 3] == LOWER_E {
            Some(i + 4)
        } else {
            None
        }
    } else if s[i] == LOWER_F {
        if i + 5 <= s.len() && s[i + 1] == LOWER_A && s[i + 2] == LOWER_L && s[i + 3] == LOWER_S
            && s[i + 4] == LOWER_E {
            Some(i + 5)
        } else {
            None
        }
    } else if s[i] == LOWER_N {
        if i + 4 <= s.len() && s[i + 1] == LOWER_U && s[i + 2] == LOWER_L && s[i + 3] == LOWER_L {
            Some(i + 4)
        } else {
            None
        }
    } else if s[i] == MINUS || is_digit(s[i]) {
        spec_parse_number(s, i)
    } else {
        None
    }
}

/// End position of an object's members and closing brace, `i` standing on
/// either the closing brace (only before the first member) or a member key.
pub open spec fn spec_parse_members(s: Seq<u8>, i: int, depth: nat, first: bool) -> Option<int>
    decreases depth, s.len() - i, 1nat,
{
    if i < 0 || i >= s.len() {
        None
    } else if first && s[i] == RBRACE {
        Some(i + 1)
    } else if s[i] == QUOTE {
        match spec_parse_string(s, i + 1) {
            None => None,
            Some((after_key, _)) => {
                let c = spec_skip_ws(s, after_key);
                if c < s.len() && s[c] == COLON {
                    let v = spec_skip_ws(s, c + 1);
                    if i < v <= s.len() {
                        match spec_parse_value(s, v, depth) {
                            None => None,
                            Some(after_val) => {
                                let w = spec_skip_ws(s, after_val);
                                if w < s.len() && s[w] == COMMA {
                                    let next = spec_skip_ws(s, w + 1);
                                    if i < next <= s.len() {
                                        spec_parse_members(s, next, depth, false)
                                    } else {
                                        None
                                    }
                                } else if w < s.len() && s[w] == RBRACE {
                                    Some(w + 1)
                                } else {
                                    None
                                }
                            },
                        }
                    } else {
                        None
                    }
                } else {
                    None
                }
            },
        }
    } else {
        None
    }
}

/// End position of an array's elements and closing bracket.
pub open spec fn spec_parse_elements(s: Seq<u8>, i: int, depth: nat, first: bool) -> Option<int>
    decreases depth, s.len() - i, 1nat,
{
    if i < 0 || i >= s.len() {
        None
    } else if first && s[i] == RBRACKET {
        Some(i + 1)
    } else {
        match spec_parse_value(s, i, depth) {
            None => None,
            Some(after_val) => {
                let w = spec_skip_ws(s, after_val);
                if w < s.len() && s[w] == COMMA {
                    let next = spec_skip_ws(s, w + 1);
                    if i < next <= s.len() {
                        spec_parse_elements(s, next, depth, false)
                    } else {
                        None
                    }
                } else if w < s.len() && s[w] == RBRACKET {
                    Some(w + 1)
                } else {
                    None
                }
            },
        }
    }
}

/// Bounds of [`spec_parse_value`].
pub proof fn lemma_parse_value_bounds(s: Seq<u8>, i: int, depth: nat)
    requires
        spec_parse_value(s, i, depth) is Some,
    ensures
        i < spec_parse_value(s, i, depth)->0 <= s.len(),
    decreases depth, s.len() - i, 0nat,
{
    if 0 <= i < s.len() {
        if s[i] == QUOTE {
            lemma_parse_string_bounds(s, i + 1);
        } else if s[i] == LBRACE {
            if depth > 0 {
                lemma_skip_ws_bounds(s, i + 1);
                lemma_parse_members_bounds(s, spec_skip_ws(s, i + 1), (depth - 1) as nat, true);
            }
        } else if s[i] == LBRACKET {
            if depth > 0 {
                lemma_skip_ws_bounds(s, i + 1);
                lemma_parse_elements_bounds(s, spec_skip_ws(s, i + 1), (depth - 1) as nat, true);
            }
        } else if s[i] == LOWER_T || s[i] == LOWER_F || s[i] == LOWER_N {
        } else if s[i] == MINUS || is_digit(s[i]) {
            lemma_parse_number_bounds(s, i);
        }
    }
}

/// Bounds of [`spec_parse_members`].
pub proof fn lemma_parse_members_bounds(s: Seq<u8>, i: int, depth: nat, first: bool)
    requires
        spec_parse_members(s, i, depth, first) is Some,
    ensures
        i < spec_parse_members(s, i, depth, first)->0 <= s.len(),
    decreases depth, s.len() - i, 1nat,
{
    if 0 <= i < s.len() {
        if first && s[i] == RBRACE {
        } else if s[i] == QUOTE {
            lemma_parse_string_bounds(s, i + 1);
            let (after_key, _) = spec_parse_string(s, i + 1)->0;
            lemma_skip_ws_bounds(s, after_key);
            let c = spec_skip_ws(s, after_key);
            if c < s.len() && s[c] == COLON {
                let v = spec_skip_ws(s, c + 1);
                if i < v <= s.len() {
                    lemma_parse_value_bounds(s, v, depth);
                    let after_val = spec_parse_value(s, v, depth)->0;
                    lemma_skip_ws_bounds(s, after_val);
                    let w = spec_skip_ws(s, after_val);
                    if w < s.len() && s[w] == COMMA {
                        let next = spec_skip_ws(s, w + 1);
                        if i < next <= s.len() {
                            lemma_parse_members_bounds(s, next, depth, false);
                        }
                    }
                }
            }
        }
    }
}

/// Bounds of [`spec_parse_elements`].
pub proof fn lemma_parse_elements_bounds(s: Seq<u8>, i: int, depth: nat, first: bool)
    requires
        spec_parse_elements(s, i, depth, first) is Some,
    ensures
        i < spec_parse_elements(s, i, depth, first)->0 <= s.len(),
    decreases depth, s.len() - i, 1nat,
{
    if 0 <= i < s.len() {
        if first && s[i] == RBRACKET {
        } else {
            lemma_parse_value_bounds(s, i, depth);
            let after_val = spec_parse_value(s, i, depth)->0;
            lemma_skip_ws_bounds(s, after_val);
            let w = spec_skip_ws(s, after_val);
            if w < s.len() && s[w] == COMMA {
                let next = spec_skip_ws(s, w + 1);
                if i < next <= s.len() {
                    lemma_parse_elements_bounds(s, next, depth, false);
                }
            }
        }
    }
}

/// Executable scan of one complete JSON value.
pub fn parse_value(s: &[u8], i: usize, depth: u32) -> (r: Option<usize>)
    requires
        i <= s.len(),
    ensures
        match r {
            Some(e) => spec_parse_value(s@, i as int, depth as nat) == Some(e as int) && i < e
                <= s.len(),
            None => spec_parse_value(s@, i as int, depth as nat) is None,
        },
    decreases depth, 0nat,
{
    if i >= s.len() {
        return None;
    }
    let b = s[i];
    let r: Option<usize> = if b == QUOTE {
        match parse_string(s, i + 1) {
            None => None,
            Some((e, _)) => Some(e),
        }
    } else if b == LBRACE {
        if depth == 0 {
            None
        } else {
            parse_members(s, skip_ws(s, i + 1), depth - 1, true)
        }
    } else if b == LBRACKET {
        if depth == 0 {
            None
        } else {
            parse_elements(s, skip_ws(s, i + 1), depth - 1, true)
        }
    } else if b == LOWER_T {
        if s.len() - i >= 4 && s[i + 1] == LOWER_R && s[i + 2] == LOWER_U && s[i + 3] == LOWER_E {
            Some(i + 4)
        } else {
            None
        }
    } else if b == LOWER_F {
        if s.len() - i >= 5 && s[i + 1] == LOWER_A && s[i + 2] == LOWER_L && s[i + 3] == LOWER_S
            && s[i + 4] == LOWER_E {
            Some(i + 5)
        } else {
            None
        }
    } else if b == LOWER_N {
        if s.len() - i >= 4 && s[i + 1] == LOWER_U && s[i + 2] == LOWER_L && s[i + 3] == LOWER_L {
            Some(i + 4)
        } else {
            None
        }
    } else if b == MINUS || (DIGIT_0 <= b && b <= DIGIT_9) {
        parse_number(s, i)
    } else {
        None
    };
    proof {
        if r is Some {
            lemma_parse_value_bounds(s@, i as int, depth as nat);
        }
    }
    r
}

/// Executable scan of an object's members and closing brace.
fn parse_members(s: &[u8], i: usize, depth: u32, first: bool) -> (r: Option<usize>)
    requires
        i <= s.len(),
    ensures
        match r {
            Some(e) => spec_parse_members(s@, i as int, depth as nat, first) == Some(e as int) && i
                < e <= s.len(),
            None => spec_parse_members(s@, i as int, depth as nat, first) is None,
        },
    decreases depth, 1nat,
{
    let mut cur: usize = i;
    let mut fst: bool = first;
    loop
        invariant
            i <= cur <= s.len(),
            spec_parse_members(s@, i as int, depth as nat, first) == spec_parse_members(
                s@,
                cur as int,
                depth as nat,
                fst,
            ),
        decreases s.len() - cur,
    {
        if cur >= s.len() {
            return None;
        }
        if fst && s[cur] == RBRACE {
            proof {
                lemma_parse_members_bounds(s@, i as int, depth as nat, first);
            }
            return Some(cur + 1);
        }
        if s[cur] != QUOTE {
            return None;
        }
        let after_key = match parse_string(s, cur + 1) {
            None => {
                return None;
            },
            Some((e, _)) => e,
        };
        let c = skip_ws(s, after_key);
        if c >= s.len() || s[c] != COLON {
            return None;
        }
        let v = skip_ws(s, c + 1);
        if !(cur < v) {
            return None;
        }
        let after_val = match parse_value(s, v, depth) {
            None => {
                return None;
            },
            Some(e) => e,
        };
        let w = skip_ws(s, after_val);
        if w < s.len() && s[w] == COMMA {
            let next = skip_ws(s, w + 1);
            if !(cur < next) {
                return None;
            }
            cur = next;
            fst = false;
        } else if w < s.len() && s[w] == RBRACE {
            proof {
                lemma_parse_members_bounds(s@, i as int, depth as nat, first);
            }
            return Some(w + 1);
        } else {
            return None;
        }
    }
}

/// Executable scan of an array's elements and closing bracket.
fn parse_elements(s: &[u8], i: usize, depth: u32, first: bool) -> (r: Option<usize>)
    requires
        i <= s.len(),
    ensures
        match r {
            Some(e) => spec_parse_elements(s@, i as int, depth as nat, first) == Some(e as int)
                && i < e <= s.len(),
            None => spec_parse_elements(s@, i as int, depth as nat, first) is None,
        },
    decreases depth, 1nat,
{
    let mut cur: usize = i;
    let mut fst: bool = first;
    loop
        invariant
            i <= cur <= s.len(),
            spec_parse_elements(s@, i as int, depth as nat, first) == spec_parse_elements(
                s@,
                cur as int,
                depth as nat,
                fst,
            ),
        decreases s.len() - cur,
    {
        if cur >= s.len() {
            return None;
        }
        if fst && s[cur] == RBRACKET {
            proof {
                lemma_parse_elements_bounds(s@, i as int, depth as nat, first);
            }
            return Some(cur + 1);
        }
        let after_val = match parse_value(s, cur, depth) {
            None => {
                return None;
            },
            Some(e) => e,
        };
        let w = skip_ws(s, after_val);
        if w < s.len() && s[w] == COMMA {
            let next = skip_ws(s, w + 1);
            if !(cur < next) {
                return None;
            }
            cur = next;
            fst = false;
        } else if w < s.len() && s[w] == RBRACKET {
            proof {
                lemma_parse_elements_bounds(s@, i as int, depth as nat, first);
            }
            return Some(w + 1);
        } else {
            return None;
        }
    }
}

} // verus!
