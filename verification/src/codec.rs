//! The frame transport: two wire encodings over one byte stream.
//!
//! A frame is either one line of JSON (`LineJson`) or an LSP-style block
//! (`ContentLength`): header lines, a blank line, then exactly
//! `Content-Length` bytes of payload. `spec_read_frame` is the reader over
//! a byte sequence; `frame_bytes` is the writer. The round-trip lemmas at
//! the end state that a written frame reads back as the same payload.
use vstd::prelude::*;

use crate::bytes::{
    all_ws, crlf_suffix_start, is_ws, lower, trim, trim_crlf, trim_end_ws, ws_suffix_start,
};
use crate::parse::{digits_val, is_digit};

verus! {

#[derive(Clone, Copy, Debug, PartialEq, Eq, Structural)]
pub enum WireMode {
    ContentLength,
    LineJson,
}

pub open spec fn cr() -> u8 {
    0x0d
}

pub open spec fn lf() -> u8 {
    0x0a
}

/// `"content-length:"`.
pub open spec fn cl_key() -> Seq<u8> {
    seq![('c' as u8), ('o' as u8), ('n' as u8), ('t' as u8), ('e' as u8), ('n' as u8), (
    't' as u8), ('-' as u8), ('l' as u8), ('e' as u8), ('n' as u8), ('g' as u8), ('t' as u8), (
    'h' as u8), (':' as u8)]
}

/// `"content-type:"`.
pub open spec fn ct_key() -> Seq<u8> {
    seq![('c' as u8), ('o' as u8), ('n' as u8), ('t' as u8), ('e' as u8), ('n' as u8), (
    't' as u8), ('-' as u8), ('t' as u8), ('y' as u8), ('p' as u8), ('e' as u8), (':' as u8)]
}

/// `"Content-Length: "`, as the writer emits it.
pub open spec fn cl_emit() -> Seq<u8> {
    seq![('C' as u8), ('o' as u8), ('n' as u8), ('t' as u8), ('e' as u8), ('n' as u8), (
    't' as u8), ('-' as u8), ('L' as u8), ('e' as u8), ('n' as u8), ('g' as u8), ('t' as u8), (
    'h' as u8), (':' as u8), (' ' as u8)]
}

/// The bytes that carry `payload` in the given wire mode.
pub open spec fn frame_bytes(payload: Seq<u8>, mode: WireMode) -> Seq<u8> {
    match mode {
        WireMode::ContentLength => cl_emit() + crate::ser::dec_digits(payload.len()) + seq![
            cr(), lf(), cr(), lf()] + payload,
        WireMode::LineJson => payload + seq![lf()],
    }
}

/// Serializes a frame around `payload`.
pub fn write_frame(payload: &[u8], mode: WireMode) -> (r: Vec<u8>)
    ensures
        r@ == frame_bytes(payload@, mode),
{
    let mut out: Vec<u8> = Vec::new();
    match mode {
        WireMode::ContentLength => {
            out.push('C' as u8);
            out.push('o' as u8);
            out.push('n' as u8);
            out.push('t' as u8);
            out.push('e' as u8);
            out.push('n' as u8);
            out.push('t' as u8);
            out.push('-' as u8);
            out.push('L' as u8);
            out.push('e' as u8);
            out.push('n' as u8);
            out.push('g' as u8);
            out.push('t' as u8);
            out.push('h' as u8);
            out.push(':' as u8);
            out.push(' ' as u8);
            assert(out@ =~= cl_emit());
            crate::ser::write_u64(&mut out, payload.len() as u64);
            out.push(0x0d);
            out.push(0x0a);
            out.push(0x0d);
            out.push(0x0a);
            crate::bytes::push_all(&mut out, payload);
            proof {
                assert(out@ =~= frame_bytes(payload@, mode));
            }
        },
        WireMode::LineJson => {
            crate::bytes::push_all(&mut out, payload);
            out.push(0x0a);
            proof {
                assert(out@ =~= frame_bytes(payload@, mode));
            }
        },
    }
    out
}

/// The response bytes for `response` in the mode the request arrived in.
pub fn write_response(response: &crate::json::Json, mode: WireMode) -> (r: Vec<u8>)
    ensures
        r@ == frame_bytes(crate::ser::jser(response@), mode),
{
    let body = crate::ser::json_to_bytes(response);
    write_frame(body.as_slice(), mode)
}

/// How the reader treats one line seen while idle.
pub enum LineStep {
    /// Whitespace or unrecognized noise: read the next line.
    Skip,
    /// A whole line-mode JSON frame, already stripped of its line ending.
    Frame { payload: Vec<u8> },
    /// The first line of a header block.
    StartHeaders { first: Vec<u8> },
}

/// A line opens a frame when its first byte is `{` or `[`.
pub open spec fn line_starts_json(l: Seq<u8>) -> bool {
    trim_crlf(l).len() > 0 && (trim_crlf(l)[0] == ('{' as u8) || trim_crlf(l)[0] == ('[' as u8))
}

/// A line opens a header block when it begins, case-insensitively, with
/// `content-length:` or `content-type:`.
pub open spec fn line_starts_headers(l: Seq<u8>) -> bool {
    let t = lower(trim_crlf(l));
    (t.len() >= cl_key().len() && t.subrange(0, cl_key().len() as int) == cl_key()) || (t.len()
        >= ct_key().len() && t.subrange(0, ct_key().len() as int) == ct_key())
}

/// Classifies one line read while idle.
pub fn classify_line(line: &[u8]) -> (r: LineStep)
    ensures
        match r {
            LineStep::Skip => all_ws(line@) || (!line_starts_json(line@) && !line_starts_headers(
                line@,
            )),
            LineStep::Frame { payload } => !all_ws(line@) && line_starts_json(line@) && payload@
                == trim_crlf(line@),
            LineStep::StartHeaders { first } => !all_ws(line@) && !line_starts_json(line@)
                && line_starts_headers(line@) && first@ == trim_crlf(line@),
        },
{
    if crate::bytes::is_all_ws(line) {
        return LineStep::Skip;
    }
    let trimmed = crate::bytes::trim_crlf_bytes(line);
    if trimmed.len() > 0 && (trimmed[0] == ('{' as u8) || trimmed[0] == ('[' as u8)) {
        return LineStep::Frame { payload: trimmed };
    }
    let low = crate::bytes::to_lower(trimmed.as_slice());
    let mut cl: Vec<u8> = Vec::new();
    push_cl_key(&mut cl);
    let mut ct: Vec<u8> = Vec::new();
    push_ct_key(&mut ct);
    if crate::bytes::has_prefix(low.as_slice(), cl.as_slice()) || crate::bytes::has_prefix(
        low.as_slice(),
        ct.as_slice(),
    ) {
        LineStep::StartHeaders { first: trimmed }
    } else {
        LineStep::Skip
    }
}

fn push_cl_key(out: &mut Vec<u8>)
    requires
        old(out)@.len() == 0,
    ensures
        final(out)@ == cl_key(),
{
    out.push('c' as u8);
    out.push('o' as u8);
    out.push('n' as u8);
    out.push('t' as u8);
    out.push('e' as u8);
    out.push('n' as u8);
    out.push('t' as u8);
    out.push('-' as u8);
    out.push('l' as u8);
    out.push('e' as u8);
    out.push('n' as u8);
    out.push('g' as u8);
    out.push('t' as u8);
    out.push('h' as u8);
    out.push(':' as u8);
    assert(out@ =~= cl_key());
}

fn push_ct_key(out: &mut Vec<u8>)
    requires
        old(out)@.len() == 0,
    ensures
        final(out)@ == ct_key(),
{
    out.push('c' as u8);
    out.push('o' as u8);
    out.push('n' as u8);
    out.push('t' as u8);
    out.push('e' as u8);
    out.push('n' as u8);
    out.push('t' as u8);
    out.push('-' as u8);
    out.push('t' as u8);
    out.push('y' as u8);
    out.push('p' as u8);
    out.push('e' as u8);
    out.push(':' as u8);
    assert(out@ =~= ct_key());
}

/// Index of the first `:` at or after `i`, or the length if none.
pub open spec fn colon_at(s: Seq<u8>, i: int) -> int
    decreases s.len() - i,
{
    if 0 <= i < s.len() {
        if s[i] == (':' as u8) {
            i
        } else {
            colon_at(s, i + 1)
        }
    } else {
        i
    }
}

/// The value of a header line: what follows the first colon, trimmed.
pub open spec fn header_value(h: Seq<u8>) -> Seq<u8> {
    let c = colon_at(h, 0);
    if 0 <= c < h.len() {
        trim(h.subrange(c + 1, h.len() as int))
    } else {
        Seq::empty()
    }
}

/// The sequence with one leading `+` removed, as `usize` parsing allows.
pub open spec fn plus_stripped(s: Seq<u8>) -> Seq<u8> {
    if s.len() > 0 && s[0] == ('+' as u8) {
        s.subrange(1, s.len() as int)
    } else {
        s
    }
}

pub open spec fn all_digits(s: Seq<u8>) -> bool {
    forall|k: int| 0 <= k < s.len() ==> is_digit(#[trigger] s[k])
}

/// A decimal length, as `usize` parsing reads it: optional `+`, digits,
/// and a value that fits.
pub open spec fn parse_usize(s: Seq<u8>) -> Option<int> {
    let d = plus_stripped(s);
    if d.len() == 0 || !all_digits(d) {
        None
    } else if digits_val(d, 0, d.len() as int) > usize::MAX {
        None
    } else {
        Some(digits_val(d, 0, d.len() as int))
    }
}

/// The content length a header block announces: the last header whose
/// key is `content-length` and whose value parses wins.
pub open spec fn spec_content_length(headers: Seq<Seq<u8>>) -> Option<int>
    decreases headers.len(),
{
    if headers.len() == 0 {
        None
    } else {
        let h = headers.last();
        let t = lower(h);
        if t.len() >= cl_key().len() && t.subrange(0, cl_key().len() as int) == cl_key()
            && parse_usize(header_value(h)) is Some {
            parse_usize(header_value(h))
        } else {
            spec_content_length(headers.drop_last())
        }
    }
}

/// The views of a vector of header lines.
pub open spec fn header_views(headers: Seq<Vec<u8>>) -> Seq<Seq<u8>> {
    headers.map_values(|h: Vec<u8>| h@)
}

/// Parses the digit run of a would-be length, mirroring `parse_usize`.
fn parse_usize_bytes(s: &[u8]) -> (r: Option<usize>)
    ensures
        match r {
            Some(v) => parse_usize(s@) == Some(v as int),
            None => parse_usize(s@) is None,
        },
{
    let start: usize = if s.len() > 0 && s[0] == ('+' as u8) {
        1
    } else {
        0
    };
    let ghost d = plus_stripped(s@);
    if s.len() == start {
        return None;
    }
    let mut acc: usize = 0;
    let mut k = start;
    proof {
        assert(d =~= s@.subrange(start as int, s@.len() as int));
        assert(digits_val(d, 0, 0) == 0);
    }
    while k < s.len()
        invariant
            start <= k <= s@.len(),
            start <= 1,
            s@.len() > start,
            d == plus_stripped(s@),
            d == s@.subrange(start as int, s@.len() as int),
            forall|q: int| start <= q < k ==> is_digit(#[trigger] s@[q]),
            acc as int == digits_val(d, 0, (k - start) as int),
        decreases s@.len() - k,
    {
        let b = s[k];
        if !(0x30 <= b && b <= 0x39) {
            proof {
                assert(d[(k - start) as int] == s@[k as int]);
                assert(!all_digits(d)) by {
                    assert(0 <= (k - start) as int && ((k - start) as int) < d.len());
                    assert(!is_digit(d[(k - start) as int]));
                }
                assert(parse_usize(s@) is None);
            }
            return None;
        }
        let dv = (b - 0x30) as usize;
        if acc > (usize::MAX - dv) / 10 {
            proof {
                lemma_digits_val_step(d, (k - start) as int);
                assert((acc as int) * 10 + dv > usize::MAX) by (nonlinear_arith)
                    requires
                        acc as int > (usize::MAX as int - dv as int) / 10,
                        0 <= dv <= 9,
                ;
                if all_digits(d) {
                    lemma_digits_val_grows(d, (k + 1 - start) as int, d.len() as int);
                    assert(digits_val(d, 0, d.len() as int) > usize::MAX);
                }
                assert(parse_usize(s@) is None);
            }
            return None;
        }
        proof {
            lemma_digits_val_step(d, (k - start) as int);
            assert((acc as int) * 10 + dv <= usize::MAX) by (nonlinear_arith)
                requires
                    acc as int <= (usize::MAX as int - dv as int) / 10,
                    0 <= dv <= 9,
            ;
        }
        acc = acc * 10 + dv;
        k = k + 1;
    }
    proof {
        assert(all_digits(d));
    }
    Some(acc)
}

proof fn lemma_digits_val_step(d: Seq<u8>, k: int)
    requires
        0 <= k < d.len(),
    ensures
        digits_val(d, 0, k + 1) == digits_val(d, 0, k) * 10 + (d[k] - 0x30),
{
}

/// Appending digits never shrinks the value.
proof fn lemma_digits_val_grows(d: Seq<u8>, i: int, j: int)
    requires
        0 <= i <= j <= d.len(),
        forall|q: int| 0 <= q < j ==> is_digit(#[trigger] d[q]),
    ensures
        digits_val(d, 0, i) <= digits_val(d, 0, j),
    decreases j - i,
{
    if i < j {
        lemma_digits_val_grows(d, i, j - 1);
        lemma_digits_val_nonneg(d, 0, j - 1);
        assert(digits_val(d, 0, j) == digits_val(d, 0, j - 1) * 10 + (d[j - 1] - 0x30));
        assert(digits_val(d, 0, j - 1) * 10 >= digits_val(d, 0, j - 1)) by (nonlinear_arith)
            requires
                digits_val(d, 0, j - 1) >= 0,
        ;
    }
}

proof fn lemma_digits_val_nonneg(d: Seq<u8>, i: int, j: int)
    requires
        forall|q: int| i <= q < j ==> is_digit(#[trigger] d[q]),
    ensures
        digits_val(d, i, j) >= 0,
    decreases j - i,
{
    if j > i {
        lemma_digits_val_nonneg(d, i, j - 1);
        assert(digits_val(d, i, j - 1) * 10 >= 0) by (nonlinear_arith)
            requires
                digits_val(d, i, j - 1) >= 0,
        ;
    }
}

/// Extracts the announced content length from gathered header lines.
pub fn content_length_of(headers: &Vec<Vec<u8>>) -> (r: Option<usize>)
    ensures
        match r {
            Some(v) => spec_content_length(header_views(headers@)) == Some(v as int),
            None => spec_content_length(header_views(headers@)) is None,
        },
{
    let mut cl: Vec<u8> = Vec::new();
    push_cl_key(&mut cl);
    let mut found: Option<usize> = None;
    let mut i: usize = 0;
    let ghost hv = header_views(headers@);
    proof {
        assert(hv.subrange(0, 0) =~= Seq::<Seq<u8>>::empty());
    }
    while i < headers.len()
        invariant
            0 <= i <= headers@.len(),
            cl@ == cl_key(),
            hv == header_views(headers@),
            hv.len() == headers@.len(),
            forall|q: int| 0 <= q < hv.len() ==> hv[q] == headers@[q]@,
            match found {
                Some(v) => spec_content_length(hv.subrange(0, i as int)) == Some(v as int),
                None => spec_content_length(hv.subrange(0, i as int)) is None,
            },
        decreases headers@.len() - i,
    {
        let h = &headers[i];
        let low = crate::bytes::to_lower(h.as_slice());
        if crate::bytes::has_prefix(low.as_slice(), cl.as_slice()) {
            let c = find_colon(h.as_slice());
            if c < h.len() {
                let tail = crate::bytes::copy_range(h.as_slice(), c + 1, h.len());
                let value = crate::bytes::trim_bytes(tail.as_slice());
                assert(value@ == header_value(h@));
                match parse_usize_bytes(value.as_slice()) {
                    Some(v) => {
                        found = Some(v);
                    },
                    None => {
                    },
                }
            } else {
                proof {
                    assert(header_value(h@) =~= Seq::<u8>::empty());
                    assert(parse_usize(header_value(h@)) is None);
                }
            }
        }
        proof {
            let pre = hv.subrange(0, i + 1);
            assert(pre.drop_last() =~= hv.subrange(0, i as int));
            assert(pre.last() == hv[i as int]);
        }
        i = i + 1;
    }
    proof {
        assert(hv.subrange(0, hv.len() as int) =~= hv);
    }
    found
}

/// Position of the first colon, or the length if there is none.
fn find_colon(v: &[u8]) -> (r: usize)
    ensures
        r as int == colon_at(v@, 0),
        r <= v@.len(),
{
    let mut i: usize = 0;
    while i < v.len() && v[i] != (':' as u8)
        invariant
            0 <= i <= v@.len(),
            colon_at(v@, 0) == colon_at(v@, i as int),
        decreases v@.len() - i,
    {
        i = i + 1;
    }
    i
}

/// Index just past the first line feed at or after `i`, or the length.
pub open spec fn line_end(s: Seq<u8>, i: int) -> int
    decreases s.len() - i,
{
    if 0 <= i < s.len() {
        if s[i] == lf() {
            i + 1
        } else {
            line_end(s, i + 1)
        }
    } else {
        i
    }
}

pub proof fn lemma_line_end(s: Seq<u8>, i: int)
    requires
        0 <= i <= s.len(),
    ensures
        i <= line_end(s, i) <= s.len(),
        i < s.len() ==> i < line_end(s, i),
    decreases s.len() - i,
{
    if i < s.len() && s[i] != lf() {
        lemma_line_end(s, i + 1);
    }
}

/// When no line feed stands in `[i, j)` and one stands at `j`, the line
/// ends just after `j`.
pub proof fn lemma_line_end_at(s: Seq<u8>, i: int, j: int)
    requires
        0 <= i <= j < s.len(),
        forall|k: int| i <= k < j ==> s[k] != lf(),
        s[j] == lf(),
    ensures
        line_end(s, i) == j + 1,
    decreases j - i,
{
    if i < j {
        lemma_line_end_at(s, i + 1, j);
    }
}

/// Header lines from `i` up to the blank line that ends the block.
pub open spec fn gather_headers(s: Seq<u8>, i: int, acc: Seq<Seq<u8>>) -> Option<
    (Seq<Seq<u8>>, int),
>
    decreases s.len() - i,
{
    if !(0 <= i < s.len()) {
        // the stream ended inside a header block
        None
    } else {
        let e = line_end(s, i);
        if !(i < e <= s.len()) {
            None
        } else {
            let line = s.subrange(i, e);
            if all_ws(line) {
                Some((acc, e))
            } else {
                gather_headers(s, e, acc.push(trim_end_ws(line)))
            }
        }
    }
}

/// One frame read from `s` starting at `i`: the payload, its wire mode
/// and the position after it, or nothing when the stream ends first.
pub open spec fn spec_read_frame(s: Seq<u8>, i: int) -> Option<(Seq<u8>, WireMode, int)>
    decreases s.len() - i,
{
    if !(0 <= i < s.len()) {
        None
    } else {
        let e = line_end(s, i);
        if !(i < e <= s.len()) {
            None
        } else {
            let line = s.subrange(i, e);
            if all_ws(line) {
                spec_read_frame(s, e)
            } else if line_starts_json(line) {
                Some((trim_crlf(line), WireMode::LineJson, e))
            } else if line_starts_headers(line) {
                match gather_headers(s, e, seq![trim_crlf(line)]) {
                    None => None,
                    Some((headers, hend)) => if !(i < hend <= s.len()) {
                        None
                    } else {
                        match spec_content_length(headers) {
                            Some(n) => if n == 0 {
                                spec_read_frame(s, hend)
                            } else if hend + n <= s.len() {
                                Some((s.subrange(hend, hend + n), WireMode::ContentLength, hend
                                    + n))
                            } else {
                                // the body runs past the end of the stream
                                None
                            },
                            None => spec_read_frame(s, hend),
                        }
                    },
                }
            } else {
                spec_read_frame(s, e)
            }
        }
    }
}

/// Position just past the first line feed at or after `i`.
fn find_line_end(s: &[u8], i: usize) -> (r: usize)
    requires
        i <= s@.len(),
    ensures
        r as int == line_end(s@, i as int),
        i <= r <= s@.len(),
        i < s@.len() ==> i < r,
{
    proof {
        lemma_line_end(s@, i as int);
    }
    let mut r = i;
    while r < s.len() && s[r] != 0x0a
        invariant
            i <= r <= s@.len(),
            line_end(s@, i as int) == line_end(s@, r as int),
        decreases s@.len() - r,
    {
        r = r + 1;
    }
    if r < s.len() {
        r + 1
    } else {
        r
    }
}

/// Collects header lines until the blank line, as `gather_headers` does.
fn collect_headers(s: &[u8], i: usize, acc: Vec<Vec<u8>>) -> (r: Option<(Vec<Vec<u8>>, usize)>)
    requires
        i <= s@.len(),
    ensures
        match r {
            Some(p) => {
                &&& gather_headers(s@, i as int, header_views(acc@)) == Some(
                    (header_views(p.0@), p.1 as int),
                )
                &&& i < p.1 <= s@.len()
            },
            None => gather_headers(s@, i as int, header_views(acc@)) is None,
        },
    decreases s@.len() - i,
{
    if i >= s.len() {
        return None;
    }
    let e = find_line_end(s, i);
    let line = crate::bytes::copy_range(s, i, e);
    if crate::bytes::is_all_ws(line.as_slice()) {
        Some((acc, e))
    } else {
        let trimmed = crate::bytes::trim_end_bytes(line.as_slice());
        let mut acc2 = acc;
        acc2.push(trimmed);
        proof {
            assert(header_views(acc2@) =~= header_views(acc@).push(trim_end_ws(s@.subrange(
                i as int,
                e as int,
            ))));
        }
        collect_headers(s, e, acc2)
    }
}

/// Reads one frame from `input` starting at `pos`, exactly as
/// `spec_read_frame` does: skips noise, recognizes a line-mode frame or a
/// header block with its body, and reports the position after the frame.
pub fn read_frame(input: &[u8], pos: usize) -> (r: Option<(Vec<u8>, WireMode, usize)>)
    requires
        pos <= input@.len(),
    ensures
        match r {
            Some(p) => {
                &&& spec_read_frame(input@, pos as int) == Some((p.0@, p.1, p.2 as int))
                &&& pos < p.2 <= input@.len()
            },
            None => spec_read_frame(input@, pos as int) is None,
        },
    decreases input@.len() - pos,
{
    if pos >= input.len() {
        return None;
    }
    let e = find_line_end(input, pos);
    let line = crate::bytes::copy_range(input, pos, e);
    match classify_line(line.as_slice()) {
        LineStep::Skip => read_frame(input, e),
        LineStep::Frame { payload } => Some((payload, WireMode::LineJson, e)),
        LineStep::StartHeaders { first } => {
            let mut acc: Vec<Vec<u8>> = Vec::new();
            acc.push(first);
            proof {
                assert(header_views(acc@) =~= seq![trim_crlf(input@.subrange(
                    pos as int,
                    e as int,
                ))]);
            }
            match collect_headers(input, e, acc) {
                None => None,
                Some((headers, hend)) => {
                    match content_length_of(&headers) {
                        Some(n) => {
                            if n == 0 {
                                read_frame(input, hend)
                            } else if n <= input.len() - hend {
                                let body = crate::bytes::copy_range(input, hend, hend + n);
                                Some((body, WireMode::ContentLength, hend + n))
                            } else {
                                None
                            }
                        },
                        None => read_frame(input, hend),
                    }
                },
            }
        },
    }
}

/// When no colon stands in `[i, j)` and one stands at `j`, it is the
/// first one.
pub proof fn lemma_colon_at(s: Seq<u8>, i: int, j: int)
    requires
        0 <= i <= j < s.len(),
        forall|k: int| i <= k < j ==> s[k] != (':' as u8),
        s[j] == (':' as u8),
    ensures
        colon_at(s, i) == j,
    decreases j - i,
{
    if i < j {
        lemma_colon_at(s, i + 1, j);
    }
}

/// A line-mode frame reads back as exactly the payload it carried,
/// stripped of nothing: the reader drops only the appended newline.
pub proof fn lemma_line_mode_round_trip(p: Seq<u8>)
    requires
        p.len() > 0,
        p[0] == ('{' as u8) || p[0] == ('[' as u8),
        forall|k: int| 0 <= k < p.len() ==> p[k] != lf() && p[k] != cr(),
    ensures
        spec_read_frame(frame_bytes(p, WireMode::LineJson), 0) == Some(
            (p, WireMode::LineJson, p.len() as int + 1),
        ),
{
    let f = frame_bytes(p, WireMode::LineJson);
    let pl = p.len() as int;
    assert(f.len() == pl + 1);
    assert(forall|k: int| 0 <= k < pl ==> f[k] == p[k]);
    assert(f[pl] == lf());
    lemma_line_end_at(f, 0, pl);
    let e = line_end(f, 0);
    assert(e == pl + 1);
    let line = f.subrange(0, e);
    assert(line =~= f);
    assert(!all_ws(line)) by {
        assert(!is_ws(line[0]));
    }
    assert(crlf_suffix_start(line, pl + 1) == crlf_suffix_start(line, pl));
    assert(crlf_suffix_start(line, pl) == pl);
    assert(trim_crlf(line) =~= p);
    assert(line_starts_json(line));
}

/// A `Content-Length` frame reads back as exactly the payload it
/// carried, whatever bytes the payload holds.
pub proof fn lemma_content_length_round_trip(p: Seq<u8>)
    requires
        0 < p.len() <= usize::MAX,
    ensures
        spec_read_frame(frame_bytes(p, WireMode::ContentLength), 0) == Some(
            (p, WireMode::ContentLength, frame_bytes(p, WireMode::ContentLength).len() as int),
        ),
{
    let f = frame_bytes(p, WireMode::ContentLength);
    let d = crate::ser::dec_digits(p.len());
    let dl = d.len() as int;
    let head = 16 + dl;
    crate::ser::lemma_dec_digits_are_digits(p.len());
    assert(f.len() == head + 4 + p.len());
    assert(forall|k: int| 0 <= k < 16 ==> f[k] == cl_emit()[k]);
    assert(forall|k: int| 0 <= k < dl ==> f[16 + k] == d[k]);
    assert(f[head] == cr() && f[head + 1] == lf() && f[head + 2] == cr() && f[head + 3] == lf());
    assert(forall|k: int| 0 <= k < p.len() ==> f[head + 4 + k] == p[k]);

    // the first line runs up to the line feed that ends the header line
    assert(forall|k: int| 0 <= k < 16 ==> cl_emit()[k] != lf());
    assert(forall|k: int| 0 <= k < head + 1 ==> f[k] != lf()) by {
        assert forall|k: int| 0 <= k < head + 1 implies f[k] != lf() by {
            if k < 16 {
                assert(f[k] == cl_emit()[k]);
            } else if k < head {
                assert(f[k] == d[k - 16]);
                assert(0x30 <= d[k - 16] <= 0x39);
            } else {
                assert(f[k] == cr());
            }
        }
    }
    lemma_line_end_at(f, 0, head + 1);
    let e1 = line_end(f, 0);
    assert(e1 == head + 2);
    let line1 = f.subrange(0, e1);
    assert(line1.len() == head + 2);
    assert(!all_ws(line1)) by {
        assert(line1[0] == ('C' as u8));
        assert(!is_ws(line1[0]));
    }

    // trimming the line ending leaves the emitted key and digits
    assert(line1[head + 1] == lf() && line1[head] == cr());
    assert(line1[head - 1] == d[dl - 1]);
    assert(crlf_suffix_start(line1, head + 2) == crlf_suffix_start(line1, head + 1));
    assert(crlf_suffix_start(line1, head + 1) == crlf_suffix_start(line1, head));
    assert(crlf_suffix_start(line1, head) == head);
    let t1 = trim_crlf(line1);
    assert(t1 =~= cl_emit() + d);
    assert(t1.len() == head);

    // the line is a header start, not a JSON line
    assert(!line_starts_json(line1)) by {
        assert(t1[0] == ('C' as u8));
    }
    let low = lower(t1);
    assert(low.len() == head);
    assert(low.subrange(0, 15) =~= cl_key()) by {
        assert(forall|k: int|
            0 <= k < 15 ==> low[k] == crate::bytes::lower_byte(#[trigger] cl_emit()[k]));
        assert(forall|k: int|
            0 <= k < 15 ==> crate::bytes::lower_byte(#[trigger] cl_emit()[k]) == cl_key()[k]);
    }
    assert(line_starts_headers(line1));

    // the blank line ends the header block at once
    assert(f[e1] == cr());
    lemma_line_end_at(f, e1, e1 + 1);
    let line2 = f.subrange(e1, e1 + 2);
    assert(all_ws(line2)) by {
        assert(line2[0] == cr() && line2[1] == lf());
        assert(forall|k: int| 0 <= k < 2 ==> is_ws(#[trigger] line2[k]));
    }
    let hend = e1 + 2;
    assert(gather_headers(f, e1, seq![t1]) == Some((seq![t1], hend)));

    // the single gathered header announces the payload length
    let hs: Seq<Seq<u8>> = seq![t1];
    assert(hs.last() == t1 && hs.drop_last().len() == 0);
    assert(forall|k: int| 0 <= k < 14 ==> t1[k] != (':' as u8)) by {
        assert(forall|k: int| 0 <= k < 14 ==> t1[k] == cl_emit()[k]);
        assert(forall|k: int| 0 <= k < 14 ==> cl_emit()[k] != (':' as u8));
    }
    assert(t1[14] == (':' as u8));
    lemma_colon_at(t1, 0, 14);
    let tail = t1.subrange(15, head);
    assert(tail[0] == (' ' as u8));
    assert(forall|k: int| 0 <= k < dl ==> tail[1 + k] == d[k]);
    assert(crate::bytes::ws_prefix(tail, 0) == crate::bytes::ws_prefix(tail, 1));
    assert(tail[1] == d[0] && 0x30 <= d[0] <= 0x39);
    assert(crate::bytes::ws_prefix(tail, 1) == 1);
    assert(tail[dl] == d[dl - 1]);
    assert(crate::bytes::ws_suffix_start(tail, dl + 1) == dl + 1);
    let value = header_value(t1);
    assert(value =~= d);

    // the digits parse back to the number they printed
    assert(plus_stripped(d) == d);
    assert(all_digits(d)) by {
        assert(forall|k: int| 0 <= k < dl ==> 0x30 <= #[trigger] d[k] <= 0x39);
    }
    crate::ser::lemma_dec_digits_val(p.len());
    assert(parse_usize(value) == Some(p.len() as int));
    assert(spec_content_length(hs) == Some(p.len() as int));

    // the body is exactly the payload
    assert(hend + p.len() == f.len());
    assert(f.subrange(hend, hend + p.len()) =~= p);
}

} // verus!
