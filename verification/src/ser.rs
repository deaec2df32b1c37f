//! The serializer from documents to wire bytes.
//!
//! `jser` is the specification of the output format; the executable
//! writers are proved to emit exactly that byte sequence. Fixed-point
//! numbers print as an integer part and up to three fractional digits
//! with trailing zeros dropped, so a value that is a whole number prints
//! without a decimal point.
use vstd::prelude::*;

use crate::json::{varr, vobj, Json, JsonV};

verus! {

/// Decimal digits of `n`, most significant first.
pub open spec fn dec_digits(n: nat) -> Seq<u8>
    decreases n,
{
    if n < 10 {
        seq![(0x30 + n) as u8]
    } else {
        dec_digits(n / 10).push((0x30 + n % 10) as u8)
    }
}

/// Lower-case hex digit for `n < 16`.
pub open spec fn hex_digit(n: u8) -> u8 {
    if n < 10 {
        (0x30 + n) as u8
    } else {
        (0x57 + n) as u8
    }
}

/// How one string byte appears inside a JSON string literal.
pub open spec fn esc_byte(b: u8) -> Seq<u8> {
    if b == ('"' as u8) {
        seq![('\\' as u8), ('"' as u8)]
    } else if b == ('\\' as u8) {
        seq![('\\' as u8), ('\\' as u8)]
    } else if b == 0x08 {
        seq![('\\' as u8), ('b' as u8)]
    } else if b == 0x0c {
        seq![('\\' as u8), ('f' as u8)]
    } else if b == 0x0a {
        seq![('\\' as u8), ('n' as u8)]
    } else if b == 0x0d {
        seq![('\\' as u8), ('r' as u8)]
    } else if b == 0x09 {
        seq![('\\' as u8), ('t' as u8)]
    } else if b < 0x20 {
        seq![('\\' as u8), ('u' as u8), ('0' as u8), ('0' as u8), hex_digit(b / 16), hex_digit(
            b % 16,
        )]
    } else {
        seq![b]
    }
}

pub open spec fn esc(s: Seq<u8>) -> Seq<u8>
    decreases s.len(),
{
    if s.len() == 0 {
        Seq::empty()
    } else {
        esc(s.drop_last()) + esc_byte(s.last())
    }
}

/// A quoted, escaped string literal.
pub open spec fn str_ser(s: Seq<u8>) -> Seq<u8> {
    seq![('"' as u8)] + esc(s) + seq![('"' as u8)]
}

/// The printed form of a fixed-point number holding `m` thousandths.
pub open spec fn num_ser(m: int) -> Seq<u8> {
    let sign: Seq<u8> = if m < 0 {
        seq![('-' as u8)]
    } else {
        Seq::empty()
    };
    let mag = if m < 0 {
        -m
    } else {
        m
    };
    let ip = (mag / 1000) as nat;
    let frac = mag % 1000;
    let d1 = (frac / 100) as u8;
    let d2 = ((frac / 10) % 10) as u8;
    let d3 = (frac % 10) as u8;
    if frac == 0 {
        sign + dec_digits(ip)
    } else if d3 != 0 {
        sign + dec_digits(ip) + seq![('.' as u8), (0x30 + d1) as u8, (0x30 + d2) as u8, (0x30
            + d3) as u8]
    } else if d2 != 0 {
        sign + dec_digits(ip) + seq![('.' as u8), (0x30 + d1) as u8, (0x30 + d2) as u8]
    } else {
        sign + dec_digits(ip) + seq![('.' as u8), (0x30 + d1) as u8]
    }
}

pub open spec fn lit_null() -> Seq<u8> {
    seq![('n' as u8), ('u' as u8), ('l' as u8), ('l' as u8)]
}

pub open spec fn lit_true() -> Seq<u8> {
    seq![('t' as u8), ('r' as u8), ('u' as u8), ('e' as u8)]
}

pub open spec fn lit_false() -> Seq<u8> {
    seq![('f' as u8), ('a' as u8), ('l' as u8), ('s' as u8), ('e' as u8)]
}

/// The wire bytes of a document.
pub open spec fn jser(j: JsonV) -> Seq<u8>
    decreases j,
{
    match j {
        JsonV::Null => lit_null(),
        JsonV::Bool(b) => if b {
            lit_true()
        } else {
            lit_false()
        },
        JsonV::Num(m) => num_ser(m),
        JsonV::Str(s) => str_ser(s),
        JsonV::Arr(items) => seq![('[' as u8)] + arr_ser(items) + seq![(']' as u8)],
        JsonV::Obj(entries) => seq![('{' as u8)] + obj_ser(entries) + seq![('}' as u8)],
    }
}

pub open spec fn arr_ser(items: Seq<JsonV>) -> Seq<u8>
    decreases items,
{
    if items.len() == 0 {
        Seq::empty()
    } else if items.len() == 1 {
        jser(items[0])
    } else {
        arr_ser(items.drop_last()) + seq![(',' as u8)] + jser(items.last())
    }
}

pub open spec fn obj_ser(entries: Seq<(Seq<u8>, JsonV)>) -> Seq<u8>
    decreases entries,
{
    if entries.len() == 0 {
        Seq::empty()
    } else if entries.len() == 1 {
        str_ser(entries[0].0) + seq![(':' as u8)] + jser(entries[0].1)
    } else {
        obj_ser(entries.drop_last()) + seq![(',' as u8)] + str_ser(entries.last().0)
            + seq![(':' as u8)] + jser(entries.last().1)
    }
}

/// Appends the decimal digits of `n`.
pub fn write_u64(out: &mut Vec<u8>, n: u64)
    ensures
        final(out)@ == old(out)@ + dec_digits(n as nat),
    decreases n,
{
    if n < 10 {
        out.push(0x30 + (n as u8));
        assert(out@ =~= old(out)@ + dec_digits(n as nat));
    } else {
        write_u64(out, n / 10);
        out.push(0x30 + ((n % 10) as u8));
        assert(out@ =~= old(out)@ + dec_digits(n as nat));
    }
}

/// Appends the quoted, escaped form of `s`.
pub fn write_str(out: &mut Vec<u8>, s: &[u8])
    ensures
        final(out)@ == old(out)@ + str_ser(s@),
{
    out.push('"' as u8);
    let ghost mid = out@;
    let mut i: usize = 0;
    proof {
        assert(mid + esc(s@.take(0)) =~= mid);
    }
    while i < s.len()
        invariant
            0 <= i <= s@.len(),
            out@ == mid + esc(s@.take(i as int)),
            mid == old(out)@ + seq![('"' as u8)],
        decreases s@.len() - i,
    {
        let b = s[i];
        if b == ('"' as u8) {
            out.push('\\' as u8);
            out.push('"' as u8);
        } else if b == ('\\' as u8) {
            out.push('\\' as u8);
            out.push('\\' as u8);
        } else if b == 0x08 {
            out.push('\\' as u8);
            out.push('b' as u8);
        } else if b == 0x0c {
            out.push('\\' as u8);
            out.push('f' as u8);
        } else if b == 0x0a {
            out.push('\\' as u8);
            out.push('n' as u8);
        } else if b == 0x0d {
            out.push('\\' as u8);
            out.push('r' as u8);
        } else if b == 0x09 {
            out.push('\\' as u8);
            out.push('t' as u8);
        } else if b < 0x20 {
            out.push('\\' as u8);
            out.push('u' as u8);
            out.push('0' as u8);
            out.push('0' as u8);
            let hi = b / 16;
            let lo = b % 16;
            out.push(if hi < 10 {
                0x30 + hi
            } else {
                0x57 + hi
            });
            out.push(if lo < 10 {
                0x30 + lo
            } else {
                0x57 + lo
            });
        } else {
            out.push(b);
        }
        proof {
            assert(s@.take(i + 1).drop_last() =~= s@.take(i as int));
            assert(s@.take(i + 1).last() == s@[i as int]);
            assert(esc(s@.take(i + 1)) == esc(s@.take(i as int)) + esc_byte(s@[i as int]));
            assert(out@ =~= mid + esc(s@.take(i + 1)));
        }
        i = i + 1;
    }
    proof {
        assert(s@.take(s@.len() as int) =~= s@);
    }
    out.push('"' as u8);
    proof {
        assert(out@ =~= old(out)@ + str_ser(s@));
    }
}

/// Appends the printed form of the fixed-point number holding `m`
/// thousandths.
pub fn write_num(out: &mut Vec<u8>, m: i64)
    ensures
        final(out)@ == old(out)@ + num_ser(m as int),
{
    let mag: u64 = if m == i64::MIN {
        proof {
            assert(-(i64::MIN as int) == 9223372036854775808);
        }
        9223372036854775808u64
    } else if m < 0 {
        out.push('-' as u8);
        (-m) as u64
    } else {
        m as u64
    };
    if m == i64::MIN {
        out.push('-' as u8);
    }
    let ip: u64 = mag / 1000;
    let frac: u64 = mag % 1000;
    let ghost sign: Seq<u8> = if m < 0 {
        seq![('-' as u8)]
    } else {
        Seq::empty()
    };
    proof {
        assert(out@ =~= old(out)@ + sign);
    }
    write_u64(out, ip);
    if frac != 0 {
        let d1 = (frac / 100) as u8;
        let d2 = ((frac / 10) % 10) as u8;
        let d3 = (frac % 10) as u8;
        out.push('.' as u8);
        out.push(0x30 + d1);
        if d3 != 0 {
            out.push(0x30 + d2);
            out.push(0x30 + d3);
        } else if d2 != 0 {
            out.push(0x30 + d2);
        }
    }
    proof {
        assert(out@ =~= old(out)@ + num_ser(m as int));
    }
}

/// Appends the wire bytes of `j`.
pub fn write_json(out: &mut Vec<u8>, j: &Json)
    ensures
        final(out)@ == old(out)@ + jser(j@),
    decreases *j,
{
    broadcast use crate::json::lemma_varr, crate::json::lemma_vobj;

    match j {
        Json::Null => {
            out.push('n' as u8);
            out.push('u' as u8);
            out.push('l' as u8);
            out.push('l' as u8);
            assert(out@ =~= old(out)@ + lit_null());
        },
        Json::Bool(b) => {
            if *b {
                out.push('t' as u8);
                out.push('r' as u8);
                out.push('u' as u8);
                out.push('e' as u8);
                assert(out@ =~= old(out)@ + lit_true());
            } else {
                out.push('f' as u8);
                out.push('a' as u8);
                out.push('l' as u8);
                out.push('s' as u8);
                out.push('e' as u8);
                assert(out@ =~= old(out)@ + lit_false());
            }
        },
        Json::Num(m) => {
            write_num(out, *m);
        },
        Json::Str(s) => {
            write_str(out, s.as_slice());
        },
        Json::Arr(items) => {
            out.push('[' as u8);
            let ghost mid = out@;
            let ghost iv = varr(items@);
            let mut i: usize = 0;
            while i < items.len()
                invariant
                    *j == Json::Arr(*items),
                    iv == varr(items@),
                    iv.len() == items@.len(),
                    0 <= i <= items@.len(),
                    mid == old(out)@ + seq![('[' as u8)],
                    out@ == mid + arr_ser(iv.take(i as int)),
                decreases items@.len() - i,
            {
                proof {
                    assert(decreases_to!(*j => (*j)->Arr_0));
                    assert(decreases_to!(*items => items@));
                    assert(decreases_to!(items@ => items@[i as int]));
                    crate::json::lemma_varr(items@);
                }
                if i > 0 {
                    out.push(',' as u8);
                }
                write_json(out, &items[i]);
                proof {
                    assert(iv.take(i + 1).drop_last() =~= iv.take(i as int));
                    assert(iv.take(i + 1).last() == iv[i as int]);
                    if i == 0 {
                        assert(arr_ser(iv.take(1)) == jser(iv[0]));
                        assert(out@ =~= mid + arr_ser(iv.take(i + 1)));
                    } else {
                        assert(arr_ser(iv.take(i + 1)) == arr_ser(iv.take(i as int))
                            + seq![(',' as u8)] + jser(iv[i as int]));
                        assert(out@ =~= mid + arr_ser(iv.take(i + 1)));
                    }
                }
                i = i + 1;
            }
            out.push(']' as u8);
            proof {
                assert(iv.take(iv.len() as int) =~= iv);
                assert(out@ =~= old(out)@ + jser(j@));
            }
        },
        Json::Obj(entries) => {
            out.push('{' as u8);
            let ghost mid = out@;
            let ghost ev = vobj(entries@);
            let mut i: usize = 0;
            while i < entries.len()
                invariant
                    *j == Json::Obj(*entries),
                    ev == vobj(entries@),
                    ev.len() == entries@.len(),
                    0 <= i <= entries@.len(),
                    mid == old(out)@ + seq![('{' as u8)],
                    out@ == mid + obj_ser(ev.take(i as int)),
                decreases entries@.len() - i,
            {
                proof {
                    assert(decreases_to!(*j => (*j)->Obj_0));
                    assert(decreases_to!(*entries => entries@));
                    assert(decreases_to!(entries@ => entries@[i as int]));
                    assert(decreases_to!(entries@[i as int] => entries@[i as int].1));
                    crate::json::lemma_vobj(entries@);
                }
                if i > 0 {
                    out.push(',' as u8);
                }
                write_str(out, entries[i].0.as_slice());
                out.push(':' as u8);
                write_json(out, &entries[i].1);
                proof {
                    assert(ev.take(i + 1).drop_last() =~= ev.take(i as int));
                    assert(ev.take(i + 1).last() == ev[i as int]);
                    if i == 0 {
                        assert(obj_ser(ev.take(1)) == str_ser(ev[0].0) + seq![(':' as u8)] + jser(
                            ev[0].1,
                        ));
                        assert(out@ =~= mid + obj_ser(ev.take(i + 1)));
                    } else {
                        assert(obj_ser(ev.take(i + 1)) == obj_ser(ev.take(i as int))
                            + seq![(',' as u8)] + str_ser(ev[i as int].0) + seq![(':' as u8)]
                            + jser(ev[i as int].1));
                        assert(out@ =~= mid + obj_ser(ev.take(i + 1)));
                    }
                }
                i = i + 1;
            }
            out.push('}' as u8);
            proof {
                assert(ev.take(ev.len() as int) =~= ev);
                assert(out@ =~= old(out)@ + jser(j@));
            }
        },
    }
}

/// The wire bytes of `j`, as a fresh vector.
pub fn json_to_bytes(j: &Json) -> (r: Vec<u8>)
    ensures
        r@ == jser(j@),
{
    let mut out: Vec<u8> = Vec::new();
    write_json(&mut out, j);
    out
}

/// Every byte of `dec_digits(n)` is a decimal digit, and there is at
/// least one.
pub proof fn lemma_dec_digits_are_digits(n: nat)
    ensures
        dec_digits(n).len() >= 1,
        forall|k: int|
            0 <= k < dec_digits(n).len() ==> 0x30 <= #[trigger] dec_digits(n)[k] <= 0x39,
    decreases n,
{
    if n >= 10 {
        lemma_dec_digits_are_digits(n / 10);
        assert(dec_digits(n) == dec_digits(n / 10).push((0x30 + n % 10) as u8));
        assert forall|k: int| 0 <= k < dec_digits(n).len() implies 0x30 <= #[trigger] dec_digits(
            n,
        )[k] <= 0x39 by {
            if k < dec_digits(n / 10).len() {
                assert(dec_digits(n)[k] == dec_digits(n / 10)[k]);
            }
        }
    }
}

/// `digits_val` only looks at the bytes in `[i, j)`.
pub proof fn lemma_digits_val_frame(s1: Seq<u8>, s2: Seq<u8>, i: int, j: int)
    requires
        forall|k: int| i <= k < j ==> s1[k] == s2[k],
    ensures
        crate::parse::digits_val(s1, i, j) == crate::parse::digits_val(s2, i, j),
    decreases j - i,
{
    if j > i {
        lemma_digits_val_frame(s1, s2, i, j - 1);
    }
}

/// Reading the digits of `n` gives `n` back.
pub proof fn lemma_dec_digits_val(n: nat)
    ensures
        crate::parse::digits_val(dec_digits(n), 0, dec_digits(n).len() as int) == n,
    decreases n,
{
    if n < 10 {
        assert(crate::parse::digits_val(dec_digits(n), 0, 1) == crate::parse::digits_val(
            dec_digits(n),
            0,
            0,
        ) * 10 + (dec_digits(n)[0] - 0x30));
    } else {
        lemma_dec_digits_val(n / 10);
        let prev = dec_digits(n / 10);
        let whole = dec_digits(n);
        let pl = prev.len() as int;
        assert(whole == prev.push((0x30 + n % 10) as u8));
        assert(crate::parse::digits_val(whole, 0, pl + 1) == crate::parse::digits_val(
            whole,
            0,
            pl,
        ) * 10 + (whole[pl] - 0x30));
        lemma_digits_val_frame(whole, prev, 0, pl);
        assert(whole[pl] - 0x30 == n % 10);
        assert((n / 10) * 10 + n % 10 == n) by {
            vstd::arithmetic::div_mod::lemma_fundamental_div_mod(n as int, 10);
        }
    }
}

} // verus!
