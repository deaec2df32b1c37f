//! Small verified helpers over byte vectors: comparison, copying,
//! concatenation, ASCII case folding, trimming and substring search.
use vstd::prelude::*;

verus! {

/// True when `b` is an ASCII whitespace byte as the transport treats it.
pub open spec fn is_ws(b: u8) -> bool {
    b == 0x20 || b == 0x09 || b == 0x0a || b == 0x0d
}

/// ASCII lower-casing of one byte.
pub open spec fn lower_byte(b: u8) -> u8 {
    if 0x41 <= b <= 0x5a {
        (b + 0x20) as u8
    } else {
        b
    }
}

/// ASCII lower-casing of a byte sequence.
pub open spec fn lower(s: Seq<u8>) -> Seq<u8> {
    s.map_values(|b: u8| lower_byte(b))
}

/// Index after the last byte of the whitespace-free prefix of `[0, j)`.
pub open spec fn ws_suffix_start(s: Seq<u8>, j: int) -> int
    decreases j,
{
    if 0 < j <= s.len() && is_ws(s[j - 1]) {
        ws_suffix_start(s, j - 1)
    } else {
        j
    }
}

pub proof fn lemma_ws_suffix_start(s: Seq<u8>, j: int)
    requires
        0 <= j <= s.len(),
    ensures
        0 <= ws_suffix_start(s, j) <= j,
        ws_suffix_start(s, j) > 0 ==> !is_ws(s[ws_suffix_start(s, j) - 1]),
        forall|k: int| ws_suffix_start(s, j) <= k < j ==> is_ws(s[k]),
    decreases j,
{
    if 0 < j && is_ws(s[j - 1]) {
        lemma_ws_suffix_start(s, j - 1);
    }
}

/// Number of leading whitespace bytes.
pub open spec fn ws_prefix(s: Seq<u8>, i: int) -> int
    decreases s.len() - i,
{
    if 0 <= i < s.len() && is_ws(s[i]) {
        ws_prefix(s, i + 1)
    } else {
        i
    }
}

pub proof fn lemma_ws_prefix(s: Seq<u8>, i: int)
    requires
        0 <= i <= s.len(),
    ensures
        i <= ws_prefix(s, i) <= s.len(),
        ws_prefix(s, i) < s.len() ==> !is_ws(s[ws_prefix(s, i)]),
        forall|k: int| i <= k < ws_prefix(s, i) ==> is_ws(s[k]),
    decreases s.len() - i,
{
    if i < s.len() && is_ws(s[i]) {
        lemma_ws_prefix(s, i + 1);
    }
}

/// The sequence without leading and trailing ASCII whitespace.
pub open spec fn trim(s: Seq<u8>) -> Seq<u8> {
    let a = ws_prefix(s, 0);
    let b = ws_suffix_start(s, s.len() as int);
    if a <= b {
        s.subrange(a, b)
    } else {
        Seq::empty()
    }
}

/// Index after the last byte once trailing carriage returns and line
/// feeds are dropped.
pub open spec fn crlf_suffix_start(s: Seq<u8>, j: int) -> int
    decreases j,
{
    if 0 < j <= s.len() && (s[j - 1] == 0x0d || s[j - 1] == 0x0a) {
        crlf_suffix_start(s, j - 1)
    } else {
        j
    }
}

/// The sequence without trailing `\r` and `\n` bytes.
pub open spec fn trim_crlf(s: Seq<u8>) -> Seq<u8> {
    s.subrange(0, crlf_suffix_start(s, s.len() as int))
}

/// The sequence without trailing ASCII whitespace.
pub open spec fn trim_end_ws(s: Seq<u8>) -> Seq<u8> {
    s.subrange(0, ws_suffix_start(s, s.len() as int))
}

/// True when every byte of `s` is ASCII whitespace.
pub open spec fn all_ws(s: Seq<u8>) -> bool {
    forall|i: int| 0 <= i < s.len() ==> is_ws(s[i])
}

/// True when `needle` occurs as a contiguous run inside `hay`.
pub open spec fn contains_sub(hay: Seq<u8>, needle: Seq<u8>) -> bool {
    exists|k: int|
        0 <= k && k + needle.len() <= hay.len() && #[trigger] hay.subrange(
            k,
            k + needle.len(),
        ) == needle
}

pub fn bytes_eq(a: &[u8], b: &[u8]) -> (r: bool)
    ensures
        r == (a@ == b@),
{
    if a.len() != b.len() {
        assert(a@.len() != b@.len());
        return false;
    }
    let mut i: usize = 0;
    while i < a.len()
        invariant
            0 <= i <= a@.len(),
            a@.len() == b@.len(),
            forall|j: int| 0 <= j < i ==> a@[j] == b@[j],
        decreases a@.len() - i,
    {
        if a[i] != b[i] {
            assert(a@ != b@);
            return false;
        }
        i = i + 1;
    }
    proof {
        assert(a@ =~= b@);
    }
    true
}

pub fn bytes_clone(v: &[u8]) -> (r: Vec<u8>)
    ensures
        r@ == v@,
{
    let mut out: Vec<u8> = Vec::new();
    let mut i: usize = 0;
    while i < v.len()
        invariant
            0 <= i <= v@.len(),
            out@ == v@.subrange(0, i as int),
        decreases v@.len() - i,
    {
        out.push(v[i]);
        assert(out@ =~= v@.subrange(0, i + 1 as int));
        i = i + 1;
    }
    proof {
        assert(out@ =~= v@);
    }
    out
}

/// Appends all of `src` to `dst`.
pub fn push_all(dst: &mut Vec<u8>, src: &[u8])
    ensures
        final(dst)@ == old(dst)@ + src@,
{
    let mut i: usize = 0;
    proof {
        assert(old(dst)@ + src@.subrange(0, 0) =~= old(dst)@);
    }
    while i < src.len()
        invariant
            0 <= i <= src@.len(),
            dst@ == old(dst)@ + src@.subrange(0, i as int),
        decreases src@.len() - i,
    {
        dst.push(src[i]);
        assert(dst@ =~= old(dst)@ + src@.subrange(0, i + 1 as int));
        i = i + 1;
    }
    proof {
        assert(dst@ =~= old(dst)@ + src@);
    }
}

/// `a` followed by `b`, as a fresh vector.
pub fn concat_bytes(a: &[u8], b: &[u8]) -> (r: Vec<u8>)
    ensures
        r@ == a@ + b@,
{
    let mut out = bytes_clone(a);
    push_all(&mut out, b);
    out
}

pub fn to_lower(v: &[u8]) -> (r: Vec<u8>)
    ensures
        r@ == lower(v@),
{
    let mut out: Vec<u8> = Vec::new();
    let mut i: usize = 0;
    while i < v.len()
        invariant
            0 <= i <= v@.len(),
            out@ == lower(v@.subrange(0, i as int)),
        decreases v@.len() - i,
    {
        let b = v[i];
        if 0x41 <= b && b <= 0x5a {
            out.push(b + 0x20);
        } else {
            out.push(b);
        }
        assert(out@ =~= lower(v@.subrange(0, i + 1 as int)));
        i = i + 1;
    }
    proof {
        assert(v@.subrange(0, v@.len() as int) =~= v@);
    }
    out
}

/// Case-insensitive ASCII equality, as `eq_ignore_ascii_case` gives it.
pub fn eq_ignore_case(a: &[u8], b: &[u8]) -> (r: bool)
    ensures
        r == (lower(a@) == lower(b@)),
{
    let la = to_lower(a);
    let lb = to_lower(b);
    bytes_eq(la.as_slice(), lb.as_slice())
}

/// True when every byte of `v` is ASCII whitespace (so `trim` empties it).
pub fn is_all_ws(v: &[u8]) -> (r: bool)
    ensures
        r == all_ws(v@),
{
    let mut i: usize = 0;
    while i < v.len()
        invariant
            0 <= i <= v@.len(),
            forall|j: int| 0 <= j < i ==> is_ws(v@[j]),
        decreases v@.len() - i,
    {
        let b = v[i];
        if !(b == 0x20 || b == 0x09 || b == 0x0a || b == 0x0d) {
            return false;
        }
        i = i + 1;
    }
    true
}

/// Naive substring search.
pub fn find_sub(hay: &[u8], needle: &[u8]) -> (r: bool)
    ensures
        r == contains_sub(hay@, needle@),
{
    if needle.len() > hay.len() {
        return false;
    }
    let mut k: usize = 0;
    while k <= hay.len() - needle.len()
        invariant
            needle@.len() <= hay@.len(),
            hay@.len() <= usize::MAX,
            0 <= k <= hay@.len() - needle@.len() + 1,
            forall|k2: int|
                0 <= k2 < k ==> #[trigger] hay@.subrange(k2, k2 + needle@.len()) != needle@,
        decreases hay@.len() - needle@.len() - k + 1,
    {
        let mut i: usize = 0;
        let mut all: bool = true;
        let mut mism: usize = 0;
        while i < needle.len()
            invariant
                0 <= i <= needle@.len(),
                0 <= k,
                k + needle@.len() <= hay@.len(),
                hay@.len() <= usize::MAX,
                all ==> (forall|j: int| 0 <= j < i ==> hay@[k + j] == needle@[j]),
                !all ==> (0 <= mism < needle@.len() && hay@[k + mism] != needle@[mism as int]),
            decreases needle@.len() - i,
        {
            if hay[k + i] != needle[i] {
                all = false;
                mism = i;
                assert(hay@[k + i as int] != needle@[i as int]);
                i = needle.len();
            } else {
                i = i + 1;
            }
        }
        if all {
            assert(hay@.subrange(k as int, k + needle@.len()) =~= needle@);
            return true;
        }
        proof {
            let sub = hay@.subrange(k as int, k + needle@.len());
            assert(sub[mism as int] == hay@[k + mism]);
            assert(sub != needle@);
        }
        k = k + 1;
    }
    false
}


/// A fresh vector holding `v[i..j]`.
pub fn copy_range(v: &[u8], i: usize, j: usize) -> (r: Vec<u8>)
    requires
        i <= j <= v@.len(),
    ensures
        r@ == v@.subrange(i as int, j as int),
{
    let mut out: Vec<u8> = Vec::new();
    let mut k = i;
    while k < j
        invariant
            i <= k <= j <= v@.len(),
            out@ == v@.subrange(i as int, k as int),
        decreases j - k,
    {
        out.push(v[k]);
        assert(out@ =~= v@.subrange(i as int, k + 1 as int));
        k = k + 1;
    }
    out
}

/// True when `p` is a prefix of `v`.
pub fn has_prefix(v: &[u8], p: &[u8]) -> (r: bool)
    ensures
        r == (v@.len() >= p@.len() && v@.subrange(0, p@.len() as int) == p@),
{
    if v.len() < p.len() {
        return false;
    }
    let mut i: usize = 0;
    while i < p.len()
        invariant
            0 <= i <= p@.len() <= v@.len(),
            forall|k: int| 0 <= k < i ==> v@[k] == p@[k],
        decreases p@.len() - i,
    {
        if v[i] != p[i] {
            proof {
                let sub = v@.subrange(0, p@.len() as int);
                assert(sub[i as int] == v@[i as int]);
                assert(sub != p@);
            }
            return false;
        }
        i = i + 1;
    }
    proof {
        assert(v@.subrange(0, p@.len() as int) =~= p@);
    }
    true
}

/// Drops trailing carriage returns and line feeds.
pub fn trim_crlf_bytes(v: &[u8]) -> (r: Vec<u8>)
    ensures
        r@ == trim_crlf(v@),
{
    let mut j = v.len();
    while j > 0 && (v[j - 1] == 0x0d || v[j - 1] == 0x0a)
        invariant
            0 <= j <= v@.len(),
            crlf_suffix_start(v@, v@.len() as int) == crlf_suffix_start(v@, j as int),
        decreases j,
    {
        j = j - 1;
    }
    copy_range(v, 0, j)
}

/// Drops trailing ASCII whitespace.
pub fn trim_end_bytes(v: &[u8]) -> (r: Vec<u8>)
    ensures
        r@ == trim_end_ws(v@),
{
    let mut j = v.len();
    while j > 0 && (v[j - 1] == 0x20 || v[j - 1] == 0x09 || v[j - 1] == 0x0a || v[j - 1] == 0x0d)
        invariant
            0 <= j <= v@.len(),
            ws_suffix_start(v@, v@.len() as int) == ws_suffix_start(v@, j as int),
        decreases j,
    {
        j = j - 1;
    }
    copy_range(v, 0, j)
}

/// Drops leading and trailing ASCII whitespace.
pub fn trim_bytes(v: &[u8]) -> (r: Vec<u8>)
    ensures
        r@ == trim(v@),
{
    let mut j = v.len();
    while j > 0 && (v[j - 1] == 0x20 || v[j - 1] == 0x09 || v[j - 1] == 0x0a || v[j - 1] == 0x0d)
        invariant
            0 <= j <= v@.len(),
            ws_suffix_start(v@, v@.len() as int) == ws_suffix_start(v@, j as int),
        decreases j,
    {
        j = j - 1;
    }
    let mut a: usize = 0;
    while a < j && (v[a] == 0x20 || v[a] == 0x09 || v[a] == 0x0a || v[a] == 0x0d)
        invariant
            0 <= a <= j <= v@.len(),
            j as int == ws_suffix_start(v@, v@.len() as int),
            ws_prefix(v@, 0) == ws_prefix(v@, a as int),
        decreases j - a,
    {
        a = a + 1;
    }
    if a >= j {
        // the whole line is whitespace, so the trimmed form is empty
        proof {
            lemma_ws_prefix(v@, a as int);
            assert(ws_prefix(v@, 0) >= j);
            if ws_prefix(v@, 0) <= ws_suffix_start(v@, v@.len() as int) {
                assert(v@.subrange(
                    ws_prefix(v@, 0),
                    ws_suffix_start(v@, v@.len() as int),
                ) =~= Seq::<u8>::empty());
            }
        }
        let out: Vec<u8> = Vec::new();
                out
    } else {
        copy_range(v, a, j)
    }
}

} // verus!
