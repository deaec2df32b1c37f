//! The capture/parse/bundle pipeline: its arguments, its artifacts and
//! the size-bounded base64 encoder.
//!
//! The two base64 calls are the only outside calls of this module; both
//! go through trusted wrappers whose results carry names (`b64_of`,
//! `b64_decoded`), so everything downstream of them is verified for
//! every value the engine can return.
use base64::Engine;
use vstd::prelude::*;
use vstd::string::StrSliceExecFns;
use vstd::string::StringSliceAdditionalSpecFns;

use crate::json::{jview, spec_as_bool, spec_as_str, spec_get, varr, vobj, Json, JsonV};

verus! {

/// The hard ceiling on one base64-encoded artifact.
pub const MAX_IMAGE_BYTES: u64 = 6 * 1024 * 1024;

/// The raw size whose padded base64 encoding just reaches the ceiling.
pub const MAX_RAW_BYTES: u64 = (6 * 1024 * 1024 / 4) * 3;

/// What the standard base64 engine produces for these bytes.
pub uninterp spec fn b64_of(s: Seq<u8>) -> Seq<u8>;

/// What the standard base64 engine decodes these bytes to, when they
/// are valid base64.
pub uninterp spec fn b64_decoded(s: Seq<u8>) -> Option<Seq<u8>>;

/// Relies on base64's `STANDARD` engine: the result is a function of
/// the input alone, and `encoded_len` gives four output bytes for every
/// started group of three input bytes, padded.
#[verifier::external_body]
fn b64_encode(b: &[u8]) -> (r: Vec<u8>)
    requires
        b@.len() <= 0x1000000000000000,
    ensures
        r@ == b64_of(b@),
        r@.len() == 4 * ((b@.len() + 2) / 3),
{
    base64::engine::general_purpose::STANDARD.encode(b).into_bytes()
}

/// Relies on base64's `STANDARD` engine: decoding succeeds or fails as
/// a function of the input alone.
#[verifier::external_body]
fn b64_decode(s: &[u8]) -> (r: Option<Vec<u8>>)
    ensures
        match r {
            Some(v) => b64_decoded(s@) == Some(v@),
            None => b64_decoded(s@) is None,
        },
{
    base64::engine::general_purpose::STANDARD.decode(s).ok()
}

/// Base64-encodes the bytes the caller handed in, as long as the raw
/// size cannot push the encoding over the ceiling; an oversized input
/// is rejected before any encoding work is spent on it.
pub fn encode_base64_with_limit(bytes: &[u8]) -> (r: Result<Vec<u8>, Vec<u8>>)
    ensures
        bytes@.len() > MAX_RAW_BYTES ==> (match r {
            Err(e) => e@ == ("image too large for base64 limit (> 4718592 raw bytes)").spec_bytes(),
            Ok(_) => false,
        }),
        bytes@.len() <= MAX_RAW_BYTES ==> (match r {
            Ok(v) => v@ == b64_of(bytes@) && v@.len() <= MAX_IMAGE_BYTES,
            Err(_) => false,
        }),
{
    if bytes.len() as u64 > MAX_RAW_BYTES {
        return Err(("image too large for base64 limit (> 4718592 raw bytes)").as_bytes_vec());
    }
    let encoded = b64_encode(bytes);
    // defensive backstop on the actual encoded length; the wrapper's
    // length fact shows it cannot trip
    if encoded.len() as u64 > MAX_IMAGE_BYTES {
        assert(false);
        return Err(("base64 too large (> 6291456 bytes)").as_bytes_vec());
    }
    Ok(encoded)
}

/// Index of the first `b` at or after `i`, or the length if none.
pub open spec fn find_byte(s: Seq<u8>, b: u8, i: int) -> int
    decreases s.len() - i,
{
    if 0 <= i < s.len() {
        if s[i] == b {
            i
        } else {
            find_byte(s, b, i + 1)
        }
    } else {
        i
    }
}

/// The base64 part of an inline image: everything after the first
/// comma when there is one (a `data:` prefix), the whole text otherwise.
pub open spec fn spec_b64_payload(s: Seq<u8>) -> Seq<u8> {
    let c = find_byte(s, (',' as u8), 0);
    if 0 <= c < s.len() {
        s.subrange(c + 1, s.len() as int)
    } else {
        s
    }
}

fn find_byte_pos(v: &[u8], b: u8) -> (r: usize)
    ensures
        r as int == find_byte(v@, b, 0),
        r <= v@.len(),
{
    let mut i: usize = 0;
    while i < v.len() && v[i] != b
        invariant
            0 <= i <= v@.len(),
            find_byte(v@, b, 0) == find_byte(v@, b, i as int),
        decreases v@.len() - i,
    {
        i = i + 1;
    }
    i
}

/// Decodes an inline base64 image, dropping any `data:` prefix up to
/// the first comma first.
pub fn decode_base64_image(data: &[u8]) -> (r: Result<Vec<u8>, Vec<u8>>)
    ensures
        match r {
            Ok(v) => b64_decoded(spec_b64_payload(data@)) == Some(v@),
            Err(e) => b64_decoded(spec_b64_payload(data@)) is None && e@ == (
            "decode base64 failed").spec_bytes(),
        },
{
    let c = find_byte_pos(data, ',' as u8);
    let payload: Vec<u8> = if c < data.len() {
        crate::bytes::copy_range(data, c + 1, data.len())
    } else {
        crate::bytes::copy_range(data, 0, data.len())
    };
    proof {
        assert(data@.subrange(0, data@.len() as int) =~= data@);
    }
    match b64_decode(payload.as_slice()) {
        Some(v) => Ok(v),
        None => Err(("decode base64 failed").as_bytes_vec()),
    }
}

/// The frame id a capture gets: a compact timestamp and the process
/// counter.
pub open spec fn spec_frame_id(ts: Seq<u8>, counter: nat) -> Seq<u8> {
    ("frame_").spec_bytes() + ts + ("_").spec_bytes() + crate::ser::dec_digits(counter)
}

pub fn new_frame_id(ts_compact: &[u8], counter: u64) -> (r: Vec<u8>)
    ensures
        r@ == spec_frame_id(ts_compact@, counter as nat),
{
    let mut out = ("frame_").as_bytes_vec();
    crate::bytes::push_all(&mut out, ts_compact);
    let us = ("_").as_bytes_vec();
    crate::bytes::push_all(&mut out, us.as_slice());
    crate::ser::write_u64(&mut out, counter);
    out
}

/// `dir` with `name` appended under it: a separator is added unless the
/// directory is empty or already ends with one.
pub open spec fn spec_join_path(dir: Seq<u8>, name: Seq<u8>) -> Seq<u8> {
    if dir.len() == 0 {
        name
    } else if dir.last() == ('/' as u8) || dir.last() == ('\\' as u8) {
        dir + name
    } else {
        dir + seq![('/' as u8)] + name
    }
}

pub fn join_path(dir: &[u8], name: &[u8]) -> (r: Vec<u8>)
    ensures
        r@ == spec_join_path(dir@, name@),
{
    if dir.len() == 0 {
        return crate::bytes::bytes_clone(name);
    }
    let last = dir[dir.len() - 1];
    let mut out = crate::bytes::bytes_clone(dir);
    if !(last == ('/' as u8) || last == ('\\' as u8)) {
        out.push('/' as u8);
    }
    crate::bytes::push_all(&mut out, name);
    proof {
        if !(dir@.last() == ('/' as u8) || dir@.last() == ('\\' as u8)) {
            assert(out@ =~= dir@ + seq![('/' as u8)] + name@);
        }
    }
    out
}

/// The path of one artifact of a frame: `{dir}/{frame_id}{suffix}`.
pub open spec fn spec_artifact_path(dir: Seq<u8>, frame_id: Seq<u8>, suffix: Seq<u8>) -> Seq<u8> {
    spec_join_path(dir, frame_id + suffix)
}

pub fn artifact_path(dir: &[u8], frame_id: &[u8], suffix: &[u8]) -> (r: Vec<u8>)
    ensures
        r@ == spec_artifact_path(dir@, frame_id@, suffix@),
{
    let name = crate::bytes::concat_bytes(frame_id, suffix);
    join_path(dir, name.as_slice())
}

/// The arguments of a capture call, with their defaults filled in.
#[derive(Debug)]
pub struct CaptureArgs {
    pub mode: Vec<u8>,
    pub format: Vec<u8>,
    pub with_cursor: bool,
}

pub open spec fn spec_str_or(params: JsonV, key: Seq<u8>, dflt: Seq<u8>) -> Seq<u8> {
    match spec_as_str(spec_get(params, key)) {
        Some(s) => s,
        None => dflt,
    }
}

pub open spec fn spec_bool_or(params: JsonV, key: Seq<u8>, dflt: bool) -> bool {
    match spec_as_bool(spec_get(params, key)) {
        Some(b) => b,
        None => dflt,
    }
}

/// Reads a string argument, falling back to its default.
pub fn str_arg_or(params: &Json, key: &[u8], dflt: &str) -> (r: Vec<u8>)
    ensures
        r@ == spec_str_or(params@, key@, dflt.spec_bytes()),
{
    match params.get(key) {
        Some(v) => match v.as_str() {
            Some(s) => crate::bytes::bytes_clone(s.as_slice()),
            None => dflt.as_bytes_vec(),
        },
        None => dflt.as_bytes_vec(),
    }
}

pub fn bool_arg_or(params: &Json, key: &[u8], dflt: bool) -> (r: bool)
    ensures
        r == spec_bool_or(params@, key@, dflt),
{
    match params.get(key) {
        Some(v) => match v.as_bool() {
            Some(b) => b,
            None => dflt,
        },
        None => dflt,
    }
}

/// Reads the capture arguments of a request, rejecting any format but
/// `png` before a capture is attempted.
pub fn capture_request(params: &Json) -> (r: Result<CaptureArgs, Vec<u8>>)
    ensures
        match r {
            Ok(args) => {
                &&& spec_str_or(params@, ("format").spec_bytes(), ("png").spec_bytes()) == (
                "png").spec_bytes()
                &&& args.mode@ == spec_str_or(params@, ("mode").spec_bytes(), ("full").spec_bytes())
                &&& args.format@ == ("png").spec_bytes()
                &&& args.with_cursor == spec_bool_or(params@, ("with_cursor").spec_bytes(), false)
            },
            Err(e) => {
                &&& spec_str_or(params@, ("format").spec_bytes(), ("png").spec_bytes()) != (
                "png").spec_bytes()
                &&& e@ == ("format_not_supported").spec_bytes()
            },
        },
{
    let mode = str_arg_or(params, ("mode").as_bytes_vec().as_slice(), "full");
    let format = str_arg_or(params, ("format").as_bytes_vec().as_slice(), "png");
    let with_cursor = bool_arg_or(params, ("with_cursor").as_bytes_vec().as_slice(), false);
    if !crate::bytes::bytes_eq(format.as_slice(), ("png").as_bytes_vec().as_slice()) {
        return Err(("format_not_supported").as_bytes_vec());
    }
    Ok(CaptureArgs { mode, format, with_cursor })
}

/// Picks the frame to parse: an explicit `raw_path`, or a `frame_id`
/// resolved under the cache directory, in that order.
pub fn resolve_frame_input(cache_dir: &[u8], params: &Json) -> (r: Result<
    (Option<Vec<u8>>, Vec<u8>),
    Vec<u8>,
>)
    ensures
        match r {
            Ok(p) => match spec_as_str(spec_get(params@, ("raw_path").spec_bytes())) {
                Some(rp) => p.0 is None && p.1@ == rp,
                None => match spec_as_str(spec_get(params@, ("frame_id").spec_bytes())) {
                    Some(fid) => (match p.0 {
                        Some(f) => f@ == fid,
                        None => false,
                    }) && p.1@ == spec_artifact_path(cache_dir@, fid, ("_raw.png").spec_bytes()),
                    None => false,
                },
            },
            Err(e) => {
                &&& spec_as_str(spec_get(params@, ("raw_path").spec_bytes())) is None
                &&& spec_as_str(spec_get(params@, ("frame_id").spec_bytes())) is None
                &&& e@ == ("missing frame_id or raw_path").spec_bytes()
            },
        },
{
    if let Some(v) = params.get(("raw_path").as_bytes_vec().as_slice()) {
        if let Some(rp) = v.as_str() {
            return Ok((None, crate::bytes::bytes_clone(rp.as_slice())));
        }
    }
    if let Some(v) = params.get(("frame_id").as_bytes_vec().as_slice()) {
        if let Some(fid) = v.as_str() {
            let path = artifact_path(
                cache_dir,
                fid.as_slice(),
                ("_raw.png").as_bytes_vec().as_slice(),
            );
            return Ok((Some(crate::bytes::bytes_clone(fid.as_slice())), path));
        }
    }
    Err(("missing frame_id or raw_path").as_bytes_vec())
}

/// A capture's metadata, as the pipeline records it.
pub struct CaptureMeta {
    pub frame_id: Vec<u8>,
    pub ts: Vec<u8>,
    pub raw_path: Vec<u8>,
    pub width: u32,
    pub height: u32,
    pub cursor_included: bool,
}

pub open spec fn opt_str_view(o: Option<Vec<u8>>) -> JsonV {
    match o {
        Some(p) => JsonV::Str(p@),
        None => JsonV::Null,
    }
}

fn opt_path_json(o: &Option<Vec<u8>>) -> (r: Json)
    ensures
        r@ == opt_str_view(*o),
{
    match o {
        Some(p) => Json::Str(crate::bytes::bytes_clone(p.as_slice())),
        None => Json::Null,
    }
}

/// What `screen.capture` returns.
pub open spec fn spec_capture_json(c: CaptureMeta) -> JsonV {
    JsonV::Obj(
        seq![
            (("frame_id").spec_bytes(), JsonV::Str(c.frame_id@)),
            (("ts").spec_bytes(), JsonV::Str(c.ts@)),
            (("raw_path").spec_bytes(), JsonV::Str(c.raw_path@)),
            (("width").spec_bytes(), JsonV::Num(c.width as int * 1000)),
            (("height").spec_bytes(), JsonV::Num(c.height as int * 1000)),
            (("cursor_included").spec_bytes(), JsonV::Bool(c.cursor_included)),
        ],
    )
}

pub fn capture_result_json(c: &CaptureMeta) -> (r: Json)
    ensures
        r@ == spec_capture_json(*c),
{
    let mut e: Vec<(Vec<u8>, Json)> = Vec::new();
    e.push((("frame_id").as_bytes_vec(), Json::Str(crate::bytes::bytes_clone(c.frame_id.as_slice()))));
    e.push((("ts").as_bytes_vec(), Json::Str(crate::bytes::bytes_clone(c.ts.as_slice()))));
    e.push((("raw_path").as_bytes_vec(), Json::Str(crate::bytes::bytes_clone(c.raw_path.as_slice()))));
    e.push((("width").as_bytes_vec(), Json::Num((c.width as i64) * 1000)));
    e.push((("height").as_bytes_vec(), Json::Num((c.height as i64) * 1000)));
    e.push((("cursor_included").as_bytes_vec(), Json::Bool(c.cursor_included)));
    proof {
        crate::json::lemma_vobj(e@);
        assert(vobj(e@) =~= spec_capture_json(*c)->Obj_0);
    }
    Json::Obj(e)
}

/// The detected elements of a recognition response: its
/// `parsed_content_list` array, or nothing when absent or of another
/// shape.
pub open spec fn spec_elements(response: JsonV) -> Seq<JsonV> {
    match spec_get(response, ("parsed_content_list").spec_bytes()) {
        Some(JsonV::Arr(a)) => a,
        _ => Seq::empty(),
    }
}

/// The reported latency, or zero when absent or fractional.
pub open spec fn spec_latency(response: JsonV) -> int {
    match crate::json::spec_as_int(spec_get(response, ("latency_ms").spec_bytes())) {
        Some(v) => v,
        None => 0,
    }
}

/// The decoded inline overlay image, when the response carries one that
/// decodes.
pub open spec fn spec_som_decoded(response: JsonV) -> Option<Seq<u8>> {
    match spec_as_str(spec_get(response, ("som_image_base64").spec_bytes())) {
        Some(s) => b64_decoded(spec_b64_payload(s)),
        None => None,
    }
}

/// A parse result, as the pipeline records it.
pub struct ParseMeta {
    pub frame_id: Vec<u8>,
    pub raw_path: Vec<u8>,
    pub elements: Vec<Json>,
    pub latency_ms: i64,
    pub has_text: bool,
    pub has_icon: bool,
    pub som_path: Option<Vec<u8>>,
    pub response: Json,
}

fn clone_elements(v: &Vec<Json>) -> (r: Vec<Json>)
    ensures
        varr(r@) == varr(v@),
{
    let mut out: Vec<Json> = Vec::new();
    let mut i: usize = 0;
    proof {
        crate::json::lemma_varr(v@);
    }
    while i < v.len()
        invariant
            0 <= i <= v@.len(),
            out@.len() == i,
            forall|k: int| 0 <= k < i ==> jview(out@[k]) == jview(v@[k]),
        decreases v@.len() - i,
    {
        let item = crate::json::json_clone(&v[i]);
        out.push(item);
        i = i + 1;
    }
    proof {
        crate::json::lemma_varr(out@);
        crate::json::lemma_varr(v@);
        assert(varr(out@) =~= varr(v@));
    }
    out
}

/// Digests a recognition response: the element list, the latency, the
/// text/icon flags, and the decoded overlay bytes to be persisted, if
/// any. The overlay path is left unset until the caller has written the
/// bytes out.
pub fn parse_outcome(frame_id: Vec<u8>, raw_path: Vec<u8>, response: Json) -> (r: (
    ParseMeta,
    Option<Vec<u8>>,
))
    ensures
        r.0.frame_id@ == frame_id@,
        r.0.raw_path@ == raw_path@,
        varr(r.0.elements@) == spec_elements(response@),
        r.0.latency_ms as int == spec_latency(response@),
        r.0.has_text == crate::elements::spec_any_kind(
            spec_elements(response@),
            ("text").spec_bytes(),
        ),
        r.0.has_icon == crate::elements::spec_any_kind(
            spec_elements(response@),
            ("icon").spec_bytes(),
        ),
        r.0.som_path is None,
        r.0.response@ == response@,
        match r.1 {
            Some(b) => spec_som_decoded(response@) == Some(b@),
            None => spec_som_decoded(response@) is None,
        },
{
    let latency: i64 = match response.get(("latency_ms").as_bytes_vec().as_slice()) {
        Some(v) => match v.as_int() {
            Some(n) => n,
            None => 0,
        },
        None => 0,
    };
    let elements: Vec<Json> = match response.get(("parsed_content_list").as_bytes_vec().as_slice())
    {
        Some(v) => match v {
            Json::Arr(items) => {
                proof {
                    crate::json::lemma_varr(items@);
                }
                clone_elements(items)
            },
            _ => Vec::new(),
        },
        None => Vec::new(),
    };
    proof {
        crate::json::lemma_varr(elements@);
        if elements@.len() == 0 {
            assert(varr(elements@) =~= Seq::<JsonV>::empty());
        }
    }
    let has_text = crate::elements::any_with_kind(&elements, ("text").as_bytes_vec().as_slice());
    let has_icon = crate::elements::any_with_kind(&elements, ("icon").as_bytes_vec().as_slice());
    let som_bytes: Option<Vec<u8>> = match response.get(
        ("som_image_base64").as_bytes_vec().as_slice(),
    ) {
        Some(v) => match v.as_str() {
            Some(s) => match decode_base64_image(s.as_slice()) {
                Ok(b) => Some(b),
                Err(_) => None,
            },
            None => None,
        },
        None => None,
    };
    let meta = ParseMeta {
        frame_id,
        raw_path,
        elements,
        latency_ms: latency,
        has_text,
        has_icon,
        som_path: None,
        response,
    };
    (meta, som_bytes)
}

/// The document persisted beside a parse result.
pub open spec fn spec_parse_doc(m: ParseMeta) -> JsonV {
    JsonV::Obj(
        seq![
            (("frame_id").spec_bytes(), JsonV::Str(m.frame_id@)),
            (("raw_path").spec_bytes(), JsonV::Str(m.raw_path@)),
            (("latency_ms").spec_bytes(), JsonV::Num(m.latency_ms as int * 1000)),
            (("has_text").spec_bytes(), JsonV::Bool(m.has_text)),
            (("has_icon").spec_bytes(), JsonV::Bool(m.has_icon)),
            (("elements").spec_bytes(), JsonV::Arr(varr(m.elements@))),
            (("som_path").spec_bytes(), opt_str_view(m.som_path)),
            (("response").spec_bytes(), m.response@),
        ],
    )
}

pub fn parse_doc_json(m: &ParseMeta) -> (r: Json)
    requires
        -9000000000000000 <= m.latency_ms <= 9000000000000000,
    ensures
        r@ == spec_parse_doc(*m),
{
    let mut e: Vec<(Vec<u8>, Json)> = Vec::new();
    e.push((("frame_id").as_bytes_vec(), Json::Str(crate::bytes::bytes_clone(m.frame_id.as_slice()))));
    e.push((("raw_path").as_bytes_vec(), Json::Str(crate::bytes::bytes_clone(m.raw_path.as_slice()))));
    e.push((("latency_ms").as_bytes_vec(), Json::Num(m.latency_ms * 1000)));
    e.push((("has_text").as_bytes_vec(), Json::Bool(m.has_text)));
    e.push((("has_icon").as_bytes_vec(), Json::Bool(m.has_icon)));
    e.push((("elements").as_bytes_vec(), Json::Arr(clone_elements(&m.elements))));
    e.push((("som_path").as_bytes_vec(), opt_path_json(&m.som_path)));
    e.push((("response").as_bytes_vec(), crate::json::json_clone(&m.response)));
    proof {
        crate::json::lemma_vobj(e@);
        assert(vobj(e@) =~= spec_parse_doc(*m)->Obj_0);
    }
    Json::Obj(e)
}

/// What `screen.parse` returns: the parse document's fields plus where
/// the document was written.
pub open spec fn spec_parse_result(m: ParseMeta, json_path: Seq<u8>) -> JsonV {
    JsonV::Obj(
        seq![
            (("frame_id").spec_bytes(), JsonV::Str(m.frame_id@)),
            (("raw_path").spec_bytes(), JsonV::Str(m.raw_path@)),
            (("elements").spec_bytes(), JsonV::Arr(varr(m.elements@))),
            (("latency_ms").spec_bytes(), JsonV::Num(m.latency_ms as int * 1000)),
            (("has_text").spec_bytes(), JsonV::Bool(m.has_text)),
            (("has_icon").spec_bytes(), JsonV::Bool(m.has_icon)),
            (("som_path").spec_bytes(), opt_str_view(m.som_path)),
            (("json_path").spec_bytes(), JsonV::Str(json_path)),
        ],
    )
}

pub fn parse_result_json(m: &ParseMeta, json_path: &[u8]) -> (r: Json)
    requires
        -9000000000000000 <= m.latency_ms <= 9000000000000000,
    ensures
        r@ == spec_parse_result(*m, json_path@),
{
    let mut e: Vec<(Vec<u8>, Json)> = Vec::new();
    e.push((("frame_id").as_bytes_vec(), Json::Str(crate::bytes::bytes_clone(m.frame_id.as_slice()))));
    e.push((("raw_path").as_bytes_vec(), Json::Str(crate::bytes::bytes_clone(m.raw_path.as_slice()))));
    e.push((("elements").as_bytes_vec(), Json::Arr(clone_elements(&m.elements))));
    e.push((("latency_ms").as_bytes_vec(), Json::Num(m.latency_ms * 1000)));
    e.push((("has_text").as_bytes_vec(), Json::Bool(m.has_text)));
    e.push((("has_icon").as_bytes_vec(), Json::Bool(m.has_icon)));
    e.push((("som_path").as_bytes_vec(), opt_path_json(&m.som_path)));
    e.push((("json_path").as_bytes_vec(), Json::Str(crate::bytes::bytes_clone(json_path))));
    proof {
        crate::json::lemma_vobj(e@);
        assert(vobj(e@) =~= spec_parse_result(*m, json_path@)->Obj_0);
    }
    Json::Obj(e)
}

/// The bundle document: the capture, the parse and the annotation
/// artifacts plus the ambient context snapshot.
pub open spec fn spec_bundle_doc(
    c: CaptureMeta,
    m: ParseMeta,
    annotated_path: Seq<u8>,
    mask_path: Seq<u8>,
    aw_context: JsonV,
) -> JsonV {
    JsonV::Obj(
        seq![
            (("frame_id").spec_bytes(), JsonV::Str(c.frame_id@)),
            (("ts").spec_bytes(), JsonV::Str(c.ts@)),
            (("raw_path").spec_bytes(), JsonV::Str(c.raw_path@)),
            (("annotated_path").spec_bytes(), JsonV::Str(annotated_path)),
            (("mask_path").spec_bytes(), JsonV::Str(mask_path)),
            (("elements").spec_bytes(), JsonV::Arr(varr(m.elements@))),
            (("latency_ms").spec_bytes(), JsonV::Num(m.latency_ms as int * 1000)),
            (("has_text").spec_bytes(), JsonV::Bool(m.has_text)),
            (("has_icon").spec_bytes(), JsonV::Bool(m.has_icon)),
            (("som_path").spec_bytes(), opt_str_view(m.som_path)),
            (("aw_context").spec_bytes(), aw_context),
        ],
    )
}

pub fn bundle_doc_json(
    c: &CaptureMeta,
    m: &ParseMeta,
    annotated_path: &[u8],
    mask_path: &[u8],
    aw_context: Json,
) -> (r: Json)
    requires
        -9000000000000000 <= m.latency_ms <= 9000000000000000,
    ensures
        r@ == spec_bundle_doc(*c, *m, annotated_path@, mask_path@, aw_context@),
{
    let ghost ctxv = aw_context@;
    let mut e: Vec<(Vec<u8>, Json)> = Vec::new();
    e.push((("frame_id").as_bytes_vec(), Json::Str(crate::bytes::bytes_clone(c.frame_id.as_slice()))));
    e.push((("ts").as_bytes_vec(), Json::Str(crate::bytes::bytes_clone(c.ts.as_slice()))));
    e.push((("raw_path").as_bytes_vec(), Json::Str(crate::bytes::bytes_clone(c.raw_path.as_slice()))));
    e.push((("annotated_path").as_bytes_vec(), Json::Str(crate::bytes::bytes_clone(annotated_path))));
    e.push((("mask_path").as_bytes_vec(), Json::Str(crate::bytes::bytes_clone(mask_path))));
    e.push((("elements").as_bytes_vec(), Json::Arr(clone_elements(&m.elements))));
    e.push((("latency_ms").as_bytes_vec(), Json::Num(m.latency_ms * 1000)));
    e.push((("has_text").as_bytes_vec(), Json::Bool(m.has_text)));
    e.push((("has_icon").as_bytes_vec(), Json::Bool(m.has_icon)));
    e.push((("som_path").as_bytes_vec(), opt_path_json(&m.som_path)));
    e.push((("aw_context").as_bytes_vec(), aw_context));
    proof {
        crate::json::lemma_vobj(e@);
        assert(vobj(e@) =~= spec_bundle_doc(*c, *m, annotated_path@, mask_path@, ctxv)->Obj_0);
    }
    Json::Obj(e)
}

/// The bundle response with the three encodings and their lengths
/// inlined; a non-object bundle stays as it is.
pub open spec fn spec_with_b64(
    bundle: JsonV,
    raw_b64: Seq<u8>,
    annotated_b64: Seq<u8>,
    mask_b64: Seq<u8>,
) -> JsonV {
    match bundle {
        JsonV::Obj(e) => JsonV::Obj(
            e + seq![
                (("raw_b64").spec_bytes(), JsonV::Str(raw_b64)),
                (("annotated_b64").spec_bytes(), JsonV::Str(annotated_b64)),
                (("mask_b64").spec_bytes(), JsonV::Str(mask_b64)),
                (("raw_b64_len").spec_bytes(), JsonV::Num(raw_b64.len() as int * 1000)),
                (("annotated_b64_len").spec_bytes(), JsonV::Num(annotated_b64.len() as int * 1000)),
                (("mask_b64_len").spec_bytes(), JsonV::Num(mask_b64.len() as int * 1000)),
            ],
        ),
        _ => bundle,
    }
}

pub fn with_b64(bundle: Json, raw_b64: Vec<u8>, annotated_b64: Vec<u8>, mask_b64: Vec<u8>) -> (r:
    Json)
    requires
        raw_b64@.len() <= MAX_IMAGE_BYTES,
        annotated_b64@.len() <= MAX_IMAGE_BYTES,
        mask_b64@.len() <= MAX_IMAGE_BYTES,
    ensures
        r@ == spec_with_b64(bundle@, raw_b64@, annotated_b64@, mask_b64@),
{
    let ghost bv = bundle@;
    match bundle {
        Json::Obj(entries) => {
            let ghost oldv = vobj(entries@);
            let mut e = entries;
            let rl = raw_b64.len();
            let al = annotated_b64.len();
            let ml = mask_b64.len();
            e.push((("raw_b64").as_bytes_vec(), Json::Str(raw_b64)));
            e.push((("annotated_b64").as_bytes_vec(), Json::Str(annotated_b64)));
            e.push((("mask_b64").as_bytes_vec(), Json::Str(mask_b64)));
            e.push((("raw_b64_len").as_bytes_vec(), Json::Num((rl as i64) * 1000)));
            e.push((("annotated_b64_len").as_bytes_vec(), Json::Num((al as i64) * 1000)));
            e.push((("mask_b64_len").as_bytes_vec(), Json::Num((ml as i64) * 1000)));
            proof {
                crate::json::lemma_vobj(e@);
                crate::json::lemma_vobj(e@.subrange(0, e@.len() - 6));
                assert(e@.subrange(0, e@.len() - 6) =~= entries@);
                assert(vobj(e@) =~= spec_with_b64(bv, raw_b64@, annotated_b64@, mask_b64@)->Obj_0);
            }
            Json::Obj(e)
        },
        other => other,
    }
}

/// The error a bundle call reports when one of its three inline
/// encodings failed: all three are one atomic response, so the whole
/// call fails naming the missing field.
pub open spec fn spec_missing_b64(field: Seq<u8>, detail: Seq<u8>) -> Seq<u8> {
    ("missing_b64: ").spec_bytes() + field + (" (").spec_bytes() + detail + (")").spec_bytes()
}

pub fn missing_b64_error(field: &[u8], detail: &[u8]) -> (r: Vec<u8>)
    ensures
        r@ == spec_missing_b64(field@, detail@),
{
    let mut out = ("missing_b64: ").as_bytes_vec();
    crate::bytes::push_all(&mut out, field);
    let open = (" (").as_bytes_vec();
    crate::bytes::push_all(&mut out, open.as_slice());
    crate::bytes::push_all(&mut out, detail);
    let close = (")").as_bytes_vec();
    crate::bytes::push_all(&mut out, close.as_slice());
    out
}

} // verus!
