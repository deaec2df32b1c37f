//! The parser from wire bytes to documents.
//!
//! `spec_parse_json` is the grammar: recursive descent over the byte
//! sequence, one specification function per production, each returning the
//! parsed value and the position after it. The executable parser mirrors
//! that structure and is proved to return exactly what the grammar says.
//!
//! The accepted language is JSON with two deliberate bounds fitting the
//! fixed-point number model: at most fifteen integer digits, and no
//! exponent notation; fractional digits beyond the third are dropped.
use vstd::prelude::*;

use crate::bytes::is_ws;
use crate::json::{jview, Json, JsonV};

verus! {

pub open spec fn is_digit(b: u8) -> bool {
    0x30 <= b <= 0x39
}

/// First index at or after `i` that does not hold whitespace.
pub open spec fn skip_ws(s: Seq<u8>, i: int) -> int
    decreases s.len() - i,
{
    if 0 <= i < s.len() && is_ws(s[i]) {
        skip_ws(s, i + 1)
    } else {
        i
    }
}


/// First index at or after `i` that does not hold a decimal digit.
pub open spec fn digits_end(s: Seq<u8>, i: int) -> int
    decreases s.len() - i,
{
    if 0 <= i < s.len() && is_digit(s[i]) {
        digits_end(s, i + 1)
    } else {
        i
    }
}

pub proof fn lemma_digits_end(s: Seq<u8>, i: int)
    requires
        0 <= i <= s.len(),
    ensures
        i <= digits_end(s, i) <= s.len(),
        digits_end(s, i) < s.len() ==> !is_digit(s[digits_end(s, i)]),
        forall|k: int| i <= k < digits_end(s, i) ==> is_digit(s[k]),
    decreases s.len() - i,
{
    if i < s.len() && is_digit(s[i]) {
        lemma_digits_end(s, i + 1);
    }
}

/// The number the digits in `[i, j)` spell.
pub open spec fn digits_val(s: Seq<u8>, i: int, j: int) -> int
    decreases j - i,
{
    if j <= i {
        0
    } else {
        digits_val(s, i, j - 1) * 10 + (s[j - 1] - 0x30)
    }
}

pub open spec fn pow10(n: nat) -> int
    decreases n,
{
    if n == 0 {
        1
    } else {
        10 * pow10((n - 1) as nat)
    }
}

pub proof fn lemma_digits_val_bound(s: Seq<u8>, i: int, j: int)
    requires
        i <= j,
        forall|k: int| i <= k < j ==> 0 <= #[trigger] s[k] - 0x30 <= 9,
    ensures
        0 <= digits_val(s, i, j) < pow10((j - i) as nat),
    decreases j - i,
{
    if j > i {
        lemma_digits_val_bound(s, i, j - 1);
        assert(pow10((j - i) as nat) == 10 * pow10((j - i - 1) as nat));
    }
}

/// Value of one hex digit, if `b` is one.
pub open spec fn hex_val(b: u8) -> Option<int> {
    if 0x30 <= b <= 0x39 {
        Some((b - 0x30) as int)
    } else if 0x61 <= b <= 0x66 {
        Some((b - 0x61 + 10) as int)
    } else if 0x41 <= b <= 0x46 {
        Some((b - 0x41 + 10) as int)
    } else {
        None
    }
}

/// The four hex digits at `i`, when all four are hex digits.
pub open spec fn hex4(s: Seq<u8>, i: int) -> Option<int> {
    if 0 <= i && i + 4 <= s.len() {
        match (hex_val(s[i]), hex_val(s[i + 1]), hex_val(s[i + 2]), hex_val(s[i + 3])) {
            (Some(a), Some(b), Some(c), Some(d)) => Some(a * 4096 + b * 256 + c * 16 + d),
            _ => None,
        }
    } else {
        None
    }
}

/// UTF-8 bytes of code point `cp`, assuming `0 <= cp <= 0x10FFFF`.
pub open spec fn utf8_enc(cp: int) -> Seq<u8> {
    if cp < 0x80 {
        seq![cp as u8]
    } else if cp < 0x800 {
        seq![(0xc0 + cp / 64) as u8, (0x80 + cp % 64) as u8]
    } else if cp < 0x10000 {
        seq![(0xe0 + cp / 4096) as u8, (0x80 + (cp / 64) % 64) as u8, (0x80 + cp % 64) as u8]
    } else {
        seq![(0xf0 + cp / 262144) as u8, (0x80 + (cp / 4096) % 64) as u8, (0x80 + (cp / 64)
            % 64) as u8, (0x80 + cp % 64) as u8]
    }
}

/// The byte a single-character escape stands for, if it is one.
pub open spec fn esc_simple(e: u8) -> Option<u8> {
    if e == ('"' as u8) {
        Some('"' as u8)
    } else if e == ('\\' as u8) {
        Some('\\' as u8)
    } else if e == ('/' as u8) {
        Some('/' as u8)
    } else if e == ('b' as u8) {
        Some(0x08)
    } else if e == ('f' as u8) {
        Some(0x0c)
    } else if e == ('n' as u8) {
        Some('\n' as u8)
    } else if e == ('r' as u8) {
        Some('\r' as u8)
    } else if e == ('t' as u8) {
        Some('\t' as u8)
    } else {
        None
    }
}

/// String contents from `i` (just after the opening quote) up to and
/// including the closing quote; yields the unescaped bytes and the
/// position after the quote.
pub open spec fn parse_str_body(s: Seq<u8>, i: int) -> Option<(Seq<u8>, int)>
    decreases s.len() - i,
{
    if !(0 <= i < s.len()) {
        None
    } else if s[i] == ('"' as u8) {
        Some((Seq::empty(), i + 1))
    } else if s[i] == ('\\' as u8) {
        if i + 1 >= s.len() {
            None
        } else if s[i + 1] == ('u' as u8) {
            match hex4(s, i + 2) {
                None => None,
                Some(cp) => if 0xd800 <= cp < 0xdc00 {
                    // high surrogate: a low surrogate escape must follow
                    if i + 12 <= s.len() && s[i + 6] == ('\\' as u8) && s[i + 7] == ('u' as u8) {
                        match hex4(s, i + 8) {
                            Some(lo) => if 0xdc00 <= lo < 0xe000 {
                                let code = 0x10000 + (cp - 0xd800) * 1024 + (lo - 0xdc00);
                                match parse_str_body(s, i + 12) {
                                    Some((rest, e)) => Some((utf8_enc(code) + rest, e)),
                                    None => None,
                                }
                            } else {
                                None
                            },
                            None => None,
                        }
                    } else {
                        None
                    }
                } else if 0xdc00 <= cp < 0xe000 {
                    None
                } else {
                    match parse_str_body(s, i + 6) {
                        Some((rest, e)) => Some((utf8_enc(cp) + rest, e)),
                        None => None,
                    }
                },
            }
        } else {
            match esc_simple(s[i + 1]) {
                None => None,
                Some(b) => match parse_str_body(s, i + 2) {
                    Some((rest, e)) => Some((seq![b] + rest, e)),
                    None => None,
                },
            }
        }
    } else if s[i] < 0x20 {
        None
    } else {
        match parse_str_body(s, i + 1) {
            Some((rest, e)) => Some((seq![s[i]] + rest, e)),
            None => None,
        }
    }
}

/// A number starting at `i` (which holds `-` or a digit): integer part of
/// at most fifteen digits, optional fraction, no exponent. Yields the
/// value in thousandths.
pub open spec fn parse_number(s: Seq<u8>, i: int) -> Option<(JsonV, int)> {
    let neg = 0 <= i < s.len() && s[i] == ('-' as u8);
    let i0 = if neg {
        i + 1
    } else {
        i
    };
    let ie = digits_end(s, i0);
    if !(0 <= i0 <= s.len()) || ie == i0 || ie - i0 > 15 {
        None
    } else {
        let ip = digits_val(s, i0, ie);
        let with_frac = ie + 1 < s.len() && s[ie] == ('.' as u8) && is_digit(s[ie + 1]);
        let fe = if with_frac {
            digits_end(s, ie + 1)
        } else {
            ie
        };
        let end = fe;
        if ie < s.len() && s[ie] == ('.' as u8) && !with_frac {
            // a lone decimal point is not a number
            None
        } else if end < s.len() && (s[end] == ('e' as u8) || s[end] == ('E' as u8)) {
            // exponent notation is not accepted
            None
        } else {
            let frac = frac_milli(s, ie + 1, fe);
            let milli = ip * 1000 + (if with_frac {
                frac
            } else {
                0
            });
            Some((JsonV::Num(if neg {
                -milli
            } else {
                milli
            }), end))
        }
    }
}

/// The first three fractional digits in `[i, j)`, scaled to thousandths;
/// later digits are dropped.
pub open spec fn frac_milli(s: Seq<u8>, i: int, j: int) -> int {
    let d1: int = if j - i >= 1 {
        (s[i] - 0x30) as int
    } else {
        0
    };
    let d2: int = if j - i >= 2 {
        (s[i + 1] - 0x30) as int
    } else {
        0
    };
    let d3: int = if j - i >= 3 {
        (s[i + 2] - 0x30) as int
    } else {
        0
    };
    d1 * 100 + d2 * 10 + d3
}

/// A complete value starting at or after `i`, whitespace allowed first.
pub open spec fn parse_value(s: Seq<u8>, i: int) -> Option<(JsonV, int)>
    decreases s.len() - i, 1int,
{
    let j = skip_ws(s, i);
    if !(i <= j < s.len()) {
        None
    } else {
        let b = s[j];
        if b == ('n' as u8) {
            if j + 4 <= s.len() && s.subrange(j, j + 4) == crate::ser::lit_null() {
                Some((JsonV::Null, j + 4))
            } else {
                None
            }
        } else if b == ('t' as u8) {
            if j + 4 <= s.len() && s.subrange(j, j + 4) == crate::ser::lit_true() {
                Some((JsonV::Bool(true), j + 4))
            } else {
                None
            }
        } else if b == ('f' as u8) {
            if j + 5 <= s.len() && s.subrange(j, j + 5) == crate::ser::lit_false() {
                Some((JsonV::Bool(false), j + 5))
            } else {
                None
            }
        } else if b == ('"' as u8) {
            match parse_str_body(s, j + 1) {
                Some((c, e)) => Some((JsonV::Str(c), e)),
                None => None,
            }
        } else if b == ('[' as u8) {
            let k = skip_ws(s, j + 1);
            if j + 1 <= k < s.len() && s[k] == (']' as u8) {
                Some((JsonV::Arr(Seq::empty()), k + 1))
            } else {
                match parse_arr_items(s, j + 1) {
                    Some((items, e)) => Some((JsonV::Arr(items), e)),
                    None => None,
                }
            }
        } else if b == ('{' as u8) {
            let k = skip_ws(s, j + 1);
            if j + 1 <= k < s.len() && s[k] == ('}' as u8) {
                Some((JsonV::Obj(Seq::empty()), k + 1))
            } else {
                match parse_obj_items(s, j + 1) {
                    Some((entries, e)) => Some((JsonV::Obj(entries), e)),
                    None => None,
                }
            }
        } else if b == ('-' as u8) || is_digit(b) {
            parse_number(s, j)
        } else {
            None
        }
    }
}

/// One or more comma-separated array items ending at `]`.
pub open spec fn parse_arr_items(s: Seq<u8>, i: int) -> Option<(Seq<JsonV>, int)>
    decreases s.len() - i, 2int,
{
    match parse_value(s, i) {
        None => None,
        Some((v, k)) => if !(i < k <= s.len()) {
            None
        } else {
            let k2 = skip_ws(s, k);
            if !(k <= k2 <= s.len()) {
                None
            } else if k2 < s.len() && s[k2] == (',' as u8) {
                match parse_arr_items(s, k2 + 1) {
                    Some((rest, e)) => Some((seq![v] + rest, e)),
                    None => None,
                }
            } else if k2 < s.len() && s[k2] == (']' as u8) {
                Some((seq![v], k2 + 1))
            } else {
                None
            }
        },
    }
}

/// One or more comma-separated `"key": value` members ending at `}`.
pub open spec fn parse_obj_items(s: Seq<u8>, i: int) -> Option<(Seq<(Seq<u8>, JsonV)>, int)>
    decreases s.len() - i, 2int,
{
    if !(0 <= i <= s.len()) {
        None
    } else {
        let j = skip_ws(s, i);
        if !(i <= j < s.len()) || s[j] != ('"' as u8) {
            None
        } else {
            match parse_str_body(s, j + 1) {
                None => None,
                Some((key, k)) => if !(j < k <= s.len()) {
                    None
                } else {
                    let k2 = skip_ws(s, k);
                    if !(k <= k2 < s.len()) || s[k2] != (':' as u8) {
                        None
                    } else {
                        match parse_value(s, k2 + 1) {
                            None => None,
                            Some((v, k3)) => if !(k2 < k3 <= s.len()) {
                                None
                            } else {
                                let k4 = skip_ws(s, k3);
                                if !(k3 <= k4 <= s.len()) {
                                    None
                                } else if k4 < s.len() && s[k4] == (',' as u8) {
                                    match parse_obj_items(s, k4 + 1) {
                                        Some((rest, e)) => Some(
                                            (seq![(key, v)] + rest, e),
                                        ),
                                        None => None,
                                    }
                                } else if k4 < s.len() && s[k4] == ('}' as u8) {
                                    Some((seq![(key, v)], k4 + 1))
                                } else {
                                    None
                                }
                            },
                        }
                    }
                },
            }
        }
    }
}

/// The document a whole byte payload holds: one value, possibly
/// surrounded by whitespace, and nothing else.
pub open spec fn spec_parse_json(s: Seq<u8>) -> Option<JsonV> {
    match parse_value(s, 0) {
        Some((v, e)) => if 0 <= e <= s.len() && skip_ws(s, e) == s.len() {
            Some(v)
        } else {
            None
        },
        None => None,
    }
}

/// First non-whitespace position at or after `i`.
pub fn ws_to(s: &[u8], i: usize) -> (r: usize)
    requires
        i <= s@.len(),
    ensures
        r as int == skip_ws(s@, i as int),
        i <= r <= s@.len(),
{
    let mut r = i;
    while r < s.len() && (s[r] == 0x20 || s[r] == 0x09 || s[r] == 0x0a || s[r] == 0x0d)
        invariant
            i <= r <= s@.len(),
            skip_ws(s@, i as int) == skip_ws(s@, r as int),
        decreases s@.len() - r,
    {
        r = r + 1;
    }
    r
}

/// First non-digit position at or after `i`.
pub fn digits_to(s: &[u8], i: usize) -> (r: usize)
    requires
        i <= s@.len(),
    ensures
        r as int == digits_end(s@, i as int),
        i <= r <= s@.len(),
{
    let mut r = i;
    while r < s.len() && 0x30 <= s[r] && s[r] <= 0x39
        invariant
            i <= r <= s@.len(),
            digits_end(s@, i as int) == digits_end(s@, r as int),
        decreases s@.len() - r,
    {
        r = r + 1;
    }
    r
}

/// Reads the digit run `[i, j)` as a number.
fn read_digits(s: &[u8], i: usize, j: usize) -> (r: u64)
    requires
        i <= j <= s@.len(),
        j - i <= 15,
        forall|k: int| i <= k < j ==> is_digit(s@[k]),
    ensures
        r as int == digits_val(s@, i as int, j as int),
        r < 1000000000000000u64,
{
    proof {
        reveal_with_fuel(pow10, 16);
        lemma_digits_val_bound(s@, i as int, j as int);
    }
    let mut acc: u64 = 0;
    let mut k = i;
    while k < j
        invariant
            i <= k <= j <= s@.len(),
            j - i <= 15,
            forall|q: int| i <= q < j ==> is_digit(s@[q]),
            acc as int == digits_val(s@, i as int, k as int),
            (acc as int) < pow10((k - i) as nat),
        decreases j - k,
    {
        proof {
            assert(pow10((k + 1 - i) as nat) == 10 * pow10((k - i) as nat));
            reveal_with_fuel(pow10, 16);
            vstd::arithmetic::power::lemma_pow_increases(10, (k + 1 - i) as nat, 15nat);
        }
        acc = acc * 10 + ((s[k] - 0x30) as u64);
        k = k + 1;
    }
    proof {
        reveal_with_fuel(pow10, 16);
        lemma_digits_val_bound(s@, i as int, j as int);
    }
    acc
}

/// A number at `i`, as the grammar reads it.
fn p_number(s: &[u8], i: usize) -> (r: Option<(Json, usize)>)
    requires
        i <= s@.len(),
    ensures
        match r {
            Some(p) => {
                &&& parse_number(s@, i as int) == Some((p.0@, p.1 as int))
                &&& i < p.1 <= s@.len()
            },
            None => parse_number(s@, i as int) is None,
        },
{
    let neg = i < s.len() && s[i] == ('-' as u8);
    let i0 = if neg {
        i + 1
    } else {
        i
    };
    let ie = digits_to(s, i0);
    if ie == i0 || ie - i0 > 15 {
        return None;
    }
    proof {
        lemma_digits_end(s@, i0 as int);
    }
    let ip = read_digits(s, i0, ie);
    let with_frac = s.len() - ie >= 2 && s[ie] == ('.' as u8) && 0x30 <= s[ie + 1] && s[ie + 1]
        <= 0x39;
    proof {
        assert(with_frac == (ie + 1 < s@.len() && s@[ie as int] == ('.' as u8) && is_digit(
            s@[ie + 1],
        )));
    }
    let fe = if with_frac {
        digits_to(s, ie + 1)
    } else {
        ie
    };
    if ie < s.len() && s[ie] == ('.' as u8) && !with_frac {
        return None;
    }
    if fe < s.len() && (s[fe] == ('e' as u8) || s[fe] == ('E' as u8)) {
        return None;
    }
    let frac: u64 = if with_frac {
        proof {
            lemma_digits_end(s@, ie + 1 as int);
        }
        let d1 = (s[ie + 1] - 0x30) as u64;
        let d2 = if fe - (ie + 1) >= 2 {
            (s[ie + 2] - 0x30) as u64
        } else {
            0
        };
        let d3 = if fe - (ie + 1) >= 3 {
            (s[ie + 3] - 0x30) as u64
        } else {
            0
        };
        d1 * 100 + d2 * 10 + d3
    } else {
        0
    };
    proof {
        if with_frac {
            assert(frac as int == frac_milli(s@, ie + 1, fe as int));
        }
    }
    let milli: i64 = (ip * 1000 + frac) as i64;
    let m: i64 = if neg {
        -milli
    } else {
        milli
    };
    let end = fe;
    Some((Json::Num(m), end))
}

/// String contents after the opening quote, as the grammar reads them.
fn p_str_body(s: &[u8], i: usize) -> (r: Option<(Vec<u8>, usize)>)
    requires
        i <= s@.len(),
    ensures
        match r {
            Some(p) => {
                &&& parse_str_body(s@, i as int) == Some((p.0@, p.1 as int))
                &&& i < p.1 <= s@.len()
            },
            None => parse_str_body(s@, i as int) is None,
        },
    decreases s@.len() - i,
{
    if i >= s.len() {
        return None;
    }
    let b = s[i];
    if b == ('"' as u8) {
        let out: Vec<u8> = Vec::new();
        assert(out@ =~= Seq::<u8>::empty());
        return Some((out, i + 1));
    }
    if b == ('\\' as u8) {
        if i + 1 >= s.len() {
            return None;
        }
        let e = s[i + 1];
        if e == ('u' as u8) {
            if s.len() - i < 6 {
                return None;
            }
            let cp = match hex4_at(s, i + 2) {
                Some(v) => v,
                None => {
                    return None;
                },
            };
            if 0xd800 <= cp && cp < 0xdc00 {
                if s.len() - i >= 12 && s[i + 6] == ('\\' as u8) && s[i + 7] == ('u' as u8) {
                    let lo = match hex4_at(s, i + 8) {
                        Some(v) => v,
                        None => {
                            return None;
                        },
                    };
                    if 0xdc00 <= lo && lo < 0xe000 {
                        let code: u32 = 0x10000 + (cp - 0xd800) * 1024 + (lo - 0xdc00);
                        match p_str_body(s, i + 12) {
                            Some((rest, e2)) => {
                                let mut out = utf8_bytes(code);
                                crate::bytes::push_all(&mut out, rest.as_slice());
                                Some((out, e2))
                            },
                            None => None,
                        }
                    } else {
                        None
                    }
                } else {
                    None
                }
            } else if 0xdc00 <= cp && cp < 0xe000 {
                None
            } else {
                match p_str_body(s, i + 6) {
                    Some((rest, e2)) => {
                        let mut out = utf8_bytes(cp);
                        crate::bytes::push_all(&mut out, rest.as_slice());
                        Some((out, e2))
                    },
                    None => None,
                }
            }
        } else {
            let sb: u8 = if e == ('"' as u8) {
                ('"' as u8)
            } else if e == ('\\' as u8) {
                ('\\' as u8)
            } else if e == ('/' as u8) {
                ('/' as u8)
            } else if e == ('b' as u8) {
                0x08
            } else if e == ('f' as u8) {
                0x0c
            } else if e == ('n' as u8) {
                0x0a
            } else if e == ('r' as u8) {
                0x0d
            } else if e == ('t' as u8) {
                0x09
            } else {
                return None;
            };
            assert(esc_simple(s@[i + 1]) == Some(sb));
            match p_str_body(s, i + 2) {
                Some((rest, e2)) => {
                    let mut out: Vec<u8> = Vec::new();
                    out.push(sb);
                    crate::bytes::push_all(&mut out, rest.as_slice());
                    assert(out@ =~= seq![sb] + rest@);
                    Some((out, e2))
                },
                None => None,
            }
        }
    } else if b < 0x20 {
        None
    } else {
        match p_str_body(s, i + 1) {
            Some((rest, e2)) => {
                let mut out: Vec<u8> = Vec::new();
                out.push(b);
                crate::bytes::push_all(&mut out, rest.as_slice());
                assert(out@ =~= seq![b] + rest@);
                Some((out, e2))
            },
            None => None,
        }
    }
}

/// The four hex digits at `i`, when present.
fn hex4_at(s: &[u8], i: usize) -> (r: Option<u32>)
    requires
        i <= s@.len(),
    ensures
        match r {
            Some(v) => hex4(s@, i as int) == Some(v as int) && v < 0x10000,
            None => hex4(s@, i as int) is None,
        },
{
    if s.len() - i < 4 {
        return None;
    }
    let a = match hex1(s[i]) {
        Some(v) => v,
        None => {
            return None;
        },
    };
    let b = match hex1(s[i + 1]) {
        Some(v) => v,
        None => {
            return None;
        },
    };
    let c = match hex1(s[i + 2]) {
        Some(v) => v,
        None => {
            return None;
        },
    };
    let d = match hex1(s[i + 3]) {
        Some(v) => v,
        None => {
            return None;
        },
    };
    Some((a as u32) * 4096 + (b as u32) * 256 + (c as u32) * 16 + (d as u32))
}

fn hex1(b: u8) -> (r: Option<u8>)
    ensures
        match r {
            Some(v) => hex_val(b) == Some(v as int) && v < 16,
            None => hex_val(b) is None,
        },
{
    if 0x30 <= b && b <= 0x39 {
        Some(b - 0x30)
    } else if 0x61 <= b && b <= 0x66 {
        Some(b - 0x61 + 10)
    } else if 0x41 <= b && b <= 0x46 {
        Some(b - 0x41 + 10)
    } else {
        None
    }
}

/// UTF-8 encoding of `cp`.
fn utf8_bytes(cp: u32) -> (r: Vec<u8>)
    requires
        cp <= 0x10ffff,
    ensures
        r@ == utf8_enc(cp as int),
{
    let mut out: Vec<u8> = Vec::new();
    if cp < 0x80 {
        out.push(cp as u8);
        assert(out@ =~= utf8_enc(cp as int));
    } else if cp < 0x800 {
        out.push(0xc0 + (cp / 64) as u8);
        out.push(0x80 + (cp % 64) as u8);
        assert(out@ =~= utf8_enc(cp as int));
    } else if cp < 0x10000 {
        out.push(0xe0 + (cp / 4096) as u8);
        out.push(0x80 + ((cp / 64) % 64) as u8);
        out.push(0x80 + (cp % 64) as u8);
        assert(out@ =~= utf8_enc(cp as int));
    } else {
        out.push(0xf0 + (cp / 262144) as u8);
        out.push(0x80 + ((cp / 4096) % 64) as u8);
        out.push(0x80 + ((cp / 64) % 64) as u8);
        out.push(0x80 + (cp % 64) as u8);
        assert(out@ =~= utf8_enc(cp as int));
    }
    out
}

/// A complete value at or after `i`, as the grammar reads it.
pub fn p_value(s: &[u8], i: usize) -> (r: Option<(Json, usize)>)
    requires
        i <= s@.len(),
    ensures
        match r {
            Some(p) => {
                &&& parse_value(s@, i as int) == Some((p.0@, p.1 as int))
                &&& i < p.1 <= s@.len()
            },
            None => parse_value(s@, i as int) is None,
        },
    decreases s@.len() - i, 1int,
{
    let j = ws_to(s, i);
    if j >= s.len() {
        return None;
    }
    let b = s[j];
    if b == ('n' as u8) {
        if s.len() - j >= 4 && s[j + 1] == ('u' as u8) && s[j + 2] == ('l' as u8) && s[j + 3]
            == ('l' as u8) {
            assert(s@.subrange(j as int, j + 4) =~= crate::ser::lit_null());
            Some((Json::Null, j + 4))
        } else {
            proof {
                if j + 4 <= s@.len() {
                    assert(s@.subrange(j as int, j + 4)[1] == s@[j + 1]);
                    assert(s@.subrange(j as int, j + 4)[2] == s@[j + 2]);
                    assert(s@.subrange(j as int, j + 4)[3] == s@[j + 3]);
                }
            }
            None
        }
    } else if b == ('t' as u8) {
        if s.len() - j >= 4 && s[j + 1] == ('r' as u8) && s[j + 2] == ('u' as u8) && s[j + 3]
            == ('e' as u8) {
            assert(s@.subrange(j as int, j + 4) =~= crate::ser::lit_true());
            Some((Json::Bool(true), j + 4))
        } else {
            proof {
                if j + 4 <= s@.len() {
                    assert(s@.subrange(j as int, j + 4)[1] == s@[j + 1]);
                    assert(s@.subrange(j as int, j + 4)[2] == s@[j + 2]);
                    assert(s@.subrange(j as int, j + 4)[3] == s@[j + 3]);
                }
            }
            None
        }
    } else if b == ('f' as u8) {
        if s.len() - j >= 5 && s[j + 1] == ('a' as u8) && s[j + 2] == ('l' as u8) && s[j + 3]
            == ('s' as u8) && s[j + 4] == ('e' as u8) {
            assert(s@.subrange(j as int, j + 5) =~= crate::ser::lit_false());
            Some((Json::Bool(false), j + 5))
        } else {
            proof {
                if j + 5 <= s@.len() {
                    assert(s@.subrange(j as int, j + 5)[1] == s@[j + 1]);
                    assert(s@.subrange(j as int, j + 5)[2] == s@[j + 2]);
                    assert(s@.subrange(j as int, j + 5)[3] == s@[j + 3]);
                    assert(s@.subrange(j as int, j + 5)[4] == s@[j + 4]);
                }
            }
            None
        }
    } else if b == ('"' as u8) {
        match p_str_body(s, j + 1) {
            Some((c, e)) => Some((Json::Str(c), e)),
            None => None,
        }
    } else if b == ('[' as u8) {
        let k = ws_to(s, j + 1);
        if k < s.len() && s[k] == (']' as u8) {
            let items: Vec<Json> = Vec::new();
            proof {
                crate::json::lemma_varr(items@);
                assert(crate::json::varr(items@) =~= Seq::<JsonV>::empty());
            }
            Some((Json::Arr(items), k + 1))
        } else {
            match p_arr_items(s, j + 1) {
                Some((items, e)) => Some((Json::Arr(items), e)),
                None => None,
            }
        }
    } else if b == ('{' as u8) {
        let k = ws_to(s, j + 1);
        if k < s.len() && s[k] == ('}' as u8) {
            let entries: Vec<(Vec<u8>, Json)> = Vec::new();
            proof {
                crate::json::lemma_vobj(entries@);
                assert(crate::json::vobj(entries@) =~= Seq::<(Seq<u8>, JsonV)>::empty());
            }
            Some((Json::Obj(entries), k + 1))
        } else {
            match p_obj_items(s, j + 1) {
                Some((entries, e)) => Some((Json::Obj(entries), e)),
                None => None,
            }
        }
    } else if b == ('-' as u8) || (0x30 <= b && b <= 0x39) {
        p_number(s, j)
    } else {
        None
    }
}

/// One or more array items ending at `]`, as the grammar reads them.
fn p_arr_items(s: &[u8], i: usize) -> (r: Option<(Vec<Json>, usize)>)
    requires
        i <= s@.len(),
    ensures
        match r {
            Some(p) => {
                &&& parse_arr_items(s@, i as int) == Some((crate::json::varr(p.0@), p.1 as int))
                &&& i < p.1 <= s@.len()
            },
            None => parse_arr_items(s@, i as int) is None,
        },
    decreases s@.len() - i, 2int,
{
    let (v, k) = match p_value(s, i) {
        Some(p) => p,
        None => {
            return None;
        },
    };
    let k2 = ws_to(s, k);
    if k2 < s.len() && s[k2] == (',' as u8) {
        match p_arr_items(s, k2 + 1) {
            Some((rest, e)) => {
                let mut out: Vec<Json> = Vec::new();
                out.push(v);
                let mut rest = rest;
                let mut q: usize = 0;
                proof {
                    crate::json::lemma_varr(rest@);
                }
                let ghost rest0 = rest@;
                while q < rest.len()
                    invariant
                        0 <= q <= rest0.len(),
                        rest@ == rest0,
                        out@.len() == q + 1,
                        jview(out@[0]) == jview(v),
                        forall|t: int| 0 <= t < q ==> jview(out@[t + 1]) == jview(rest0[t]),
                    decreases rest0.len() - q,
                {
                    let item = crate::json::json_clone(&rest[q]);
                    out.push(item);
                    q = q + 1;
                }
                proof {
                    crate::json::lemma_varr(out@);
                    crate::json::lemma_varr(rest0);
                    assert(crate::json::varr(out@) =~= seq![jview(v)] + crate::json::varr(
                        rest0,
                    ));
                }
                Some((out, e))
            },
            None => None,
        }
    } else if k2 < s.len() && s[k2] == (']' as u8) {
        let mut out: Vec<Json> = Vec::new();
        out.push(v);
        proof {
            crate::json::lemma_varr(out@);
            assert(crate::json::varr(out@) =~= seq![jview(v)]);
        }
        Some((out, k2 + 1))
    } else {
        None
    }
}

/// One or more object members ending at `}`, as the grammar reads them.
fn p_obj_items(s: &[u8], i: usize) -> (r: Option<(Vec<(Vec<u8>, Json)>, usize)>)
    requires
        i <= s@.len(),
    ensures
        match r {
            Some(p) => {
                &&& parse_obj_items(s@, i as int) == Some((crate::json::vobj(p.0@), p.1 as int))
                &&& i < p.1 <= s@.len()
            },
            None => parse_obj_items(s@, i as int) is None,
        },
    decreases s@.len() - i, 2int,
{
    let j = ws_to(s, i);
    if !(j < s.len()) || s[j] != ('"' as u8) {
        return None;
    }
    let (key, k) = match p_str_body(s, j + 1) {
        Some(p) => p,
        None => {
            return None;
        },
    };
    let k2 = ws_to(s, k);
    if !(k2 < s.len()) || s[k2] != (':' as u8) {
        return None;
    }
    let (v, k3) = match p_value(s, k2 + 1) {
        Some(p) => p,
        None => {
            return None;
        },
    };
    let k4 = ws_to(s, k3);
    if k4 < s.len() && s[k4] == (',' as u8) {
        match p_obj_items(s, k4 + 1) {
            Some((rest, e)) => {
                let mut out: Vec<(Vec<u8>, Json)> = Vec::new();
                out.push((key, v));
                let mut q: usize = 0;
                proof {
                    crate::json::lemma_vobj(rest@);
                }
                let ghost rest0 = rest@;
                let ghost kv = out@[0];
                while q < rest.len()
                    invariant
                        0 <= q <= rest0.len(),
                        rest@ == rest0,
                        out@.len() == q + 1,
                        out@[0] == kv,
                        forall|t: int|
                            0 <= t < q ==> out@[t + 1].0@ == rest0[t].0@ && jview(out@[t + 1].1)
                                == jview(rest0[t].1),
                    decreases rest0.len() - q,
                {
                    let rk = crate::bytes::bytes_clone(rest[q].0.as_slice());
                    let rv = crate::json::json_clone(&rest[q].1);
                    out.push((rk, rv));
                    q = q + 1;
                }
                proof {
                    crate::json::lemma_vobj(out@);
                    crate::json::lemma_vobj(rest0);
                    assert(crate::json::vobj(out@) =~= seq![(kv.0@, jview(kv.1))]
                        + crate::json::vobj(rest0));
                }
                Some((out, e))
            },
            None => None,
        }
    } else if k4 < s.len() && s[k4] == ('}' as u8) {
        let mut out: Vec<(Vec<u8>, Json)> = Vec::new();
        let ghost kview = key@;
        let ghost vview = jview(v);
        out.push((key, v));
        proof {
            crate::json::lemma_vobj(out@);
            assert(crate::json::vobj(out@) =~= seq![(kview, vview)]);
        }
        Some((out, k4 + 1))
    } else {
        None
    }
}

/// Parses one whole payload, exactly as `spec_parse_json` reads it.
pub fn parse_json(s: &[u8]) -> (r: Option<Json>)
    ensures
        match r {
            Some(j) => spec_parse_json(s@) == Some(j@),
            None => spec_parse_json(s@) is None,
        },
{
    match p_value(s, 0) {
        Some((v, e)) => {
            let t = ws_to(s, e);
            if t == s.len() {
                Some(v)
            } else {
                None
            }
        },
        None => None,
    }
}

} // verus!
