//! Health reporting and the ambient-context documents: derivations from
//! the activity and recognition lookups, the protected-environment
//! snapshot comparison, and the now-frame record.
use vstd::prelude::*;
use vstd::string::StrSliceExecFns;
use vstd::string::StringSliceAdditionalSpecFns;

use crate::json::{spec_as_bool, spec_get, vobj, Json, JsonV};

verus! {

/// A lookup outcome as a document: the value, or null when the call
/// failed.
pub open spec fn opt_json_view(o: Option<JsonV>) -> JsonV {
    match o {
        Some(v) => v,
        None => JsonV::Null,
    }
}

fn opt_json(o: Option<Json>) -> (r: Json)
    ensures
        r@ == opt_json_view(
            match o {
                Some(v) => Some(v@),
                None => None,
            },
        ),
{
    match o {
        Some(v) => v,
        None => Json::Null,
    }
}

/// The ambient context attached to a bundle: the activity service's
/// info and buckets, null where a lookup failed.
pub open spec fn spec_aw_context(info: Option<JsonV>, buckets: Option<JsonV>) -> JsonV {
    JsonV::Obj(
        seq![
            (("info").spec_bytes(), opt_json_view(info)),
            (("buckets").spec_bytes(), opt_json_view(buckets)),
        ],
    )
}

pub fn aw_context_json(info: Option<Json>, buckets: Option<Json>) -> (r: Json)
    ensures
        r@ == spec_aw_context(
            match info {
                Some(v) => Some(v@),
                None => None,
            },
            match buckets {
                Some(v) => Some(v@),
                None => None,
            },
        ),
{
    let ghost iv = match info {
        Some(ref v) => Some(v@),
        None => None,
    };
    let ghost bv = match buckets {
        Some(ref v) => Some(v@),
        None => None,
    };
    let mut e: Vec<(Vec<u8>, Json)> = Vec::new();
    e.push((("info").as_bytes_vec(), opt_json(info)));
    e.push((("buckets").as_bytes_vec(), opt_json(buckets)));
    proof {
        crate::json::lemma_vobj(e@);
        assert(vobj(e@) =~= spec_aw_context(iv, bv)->Obj_0);
    }
    Json::Obj(e)
}

/// What `aw.get_state` returns when both lookups succeeded.
pub open spec fn spec_aw_state(info: JsonV, buckets: JsonV) -> JsonV {
    JsonV::Obj(
        seq![
            (("info").spec_bytes(), info),
            (("buckets").spec_bytes(), buckets),
        ],
    )
}

pub fn aw_state_json(info: Json, buckets: Json) -> (r: Json)
    ensures
        r@ == spec_aw_state(info@, buckets@),
{
    let ghost iv = info@;
    let ghost bv = buckets@;
    let mut e: Vec<(Vec<u8>, Json)> = Vec::new();
    e.push((("info").as_bytes_vec(), info));
    e.push((("buckets").as_bytes_vec(), buckets));
    proof {
        crate::json::lemma_vobj(e@);
        assert(vobj(e@) =~= spec_aw_state(iv, bv)->Obj_0);
    }
    Json::Obj(e)
}

/// Whether the probe document carries `ok: true`.
pub open spec fn spec_probe_flag(probe: Option<JsonV>, key: Seq<u8>) -> Option<bool> {
    match probe {
        Some(p) => spec_as_bool(spec_get(p, key)),
        None => None,
    }
}

/// The sidecar readiness the probe reports: its `ok` field, or false.
pub open spec fn spec_sidecar_ready(probe: Option<JsonV>) -> bool {
    match spec_probe_flag(probe, ("ok").spec_bytes()) {
        Some(b) => b,
        None => false,
    }
}

/// The preflight outcome: the probe's `preflight_ok` field when it is
/// present, else the readiness flag.
pub open spec fn spec_preflight_ok(probe: Option<JsonV>) -> bool {
    match spec_probe_flag(probe, ("preflight_ok").spec_bytes()) {
        Some(b) => b,
        None => spec_sidecar_ready(probe),
    }
}

fn probe_flag(probe: &Option<Json>, key: &[u8]) -> (r: Option<bool>)
    ensures
        r == spec_probe_flag(
            match probe {
                Some(p) => Some(p@),
                None => None::<JsonV>,
            },
            key@,
        ),
{
    match probe {
        Some(p) => match p.get(key) {
            Some(v) => v.as_bool(),
            None => None,
        },
        None => None,
    }
}

/// What `system.health` returns, derived from the two collaborators
/// and the protected-environment comparison.
pub open spec fn spec_system_health(
    aw_ok: bool,
    probe: Option<JsonV>,
    protected_ok: bool,
    protected_diff: int,
) -> JsonV {
    JsonV::Obj(
        seq![
            (("aw_ok").spec_bytes(), JsonV::Bool(aw_ok)),
            (("sidecar_probe_status").spec_bytes(), JsonV::Bool(spec_sidecar_ready(probe))),
            (("preflight_ok").spec_bytes(), JsonV::Bool(spec_preflight_ok(probe))),
            (("protected_env_ok").spec_bytes(), JsonV::Bool(protected_ok)),
            (("protected_diff_count").spec_bytes(), JsonV::Num(protected_diff * 1000)),
            (("omni_probe").spec_bytes(), opt_json_view(probe)),
        ],
    )
}

pub fn system_health_json(
    aw_ok: bool,
    probe: Option<Json>,
    protected_ok: bool,
    protected_diff: i64,
) -> (r: Json)
    requires
        -1000000 <= protected_diff <= 1000000,
    ensures
        r@ == spec_system_health(
            aw_ok,
            match probe {
                Some(ref p) => Some(p@),
                None => None,
            },
            protected_ok,
            protected_diff as int,
        ),
{
    let ghost pv = match probe {
        Some(ref p) => Some(p@),
        None => None::<JsonV>,
    };
    let sidecar_ready = match probe_flag(&probe, ("ok").as_bytes_vec().as_slice()) {
        Some(b) => b,
        None => false,
    };
    let preflight_ok = match probe_flag(&probe, ("preflight_ok").as_bytes_vec().as_slice()) {
        Some(b) => b,
        None => sidecar_ready,
    };
    let mut e: Vec<(Vec<u8>, Json)> = Vec::new();
    e.push((("aw_ok").as_bytes_vec(), Json::Bool(aw_ok)));
    e.push((("sidecar_probe_status").as_bytes_vec(), Json::Bool(sidecar_ready)));
    e.push((("preflight_ok").as_bytes_vec(), Json::Bool(preflight_ok)));
    e.push((("protected_env_ok").as_bytes_vec(), Json::Bool(protected_ok)));
    e.push((("protected_diff_count").as_bytes_vec(), Json::Num(protected_diff * 1000)));
    e.push((("omni_probe").as_bytes_vec(), opt_json(probe)));
    proof {
        crate::json::lemma_vobj(e@);
        assert(vobj(e@) =~= spec_system_health(aw_ok, pv, protected_ok, protected_diff as int)->Obj_0);
    }
    Json::Obj(e)
}

/// One side of the health report: `{ok: true, <tag>: value}` on
/// success, `{ok: false, error: message}` on failure.
pub open spec fn spec_outcome_doc(tag: Seq<u8>, outcome: Result<JsonV, Seq<u8>>) -> JsonV {
    match outcome {
        Ok(v) => JsonV::Obj(
            seq![
                (("ok").spec_bytes(), JsonV::Bool(true)),
                (tag, v),
            ],
        ),
        Err(e) => JsonV::Obj(
            seq![
                (("ok").spec_bytes(), JsonV::Bool(false)),
                (("error").spec_bytes(), JsonV::Str(e)),
            ],
        ),
    }
}

fn outcome_doc(tag: Vec<u8>, outcome: Result<Json, Vec<u8>>) -> (r: Json)
    ensures
        r@ == spec_outcome_doc(
            tag@,
            match outcome {
                Ok(v) => Ok(v@),
                Err(e) => Err(e@),
            },
        ),
{
    let ghost tv = tag@;
    match outcome {
        Ok(v) => {
            let ghost vv = v@;
            let mut e: Vec<(Vec<u8>, Json)> = Vec::new();
            e.push((("ok").as_bytes_vec(), Json::Bool(true)));
            e.push((tag, v));
            proof {
                crate::json::lemma_vobj(e@);
                assert(vobj(e@) =~= seq![
                    (("ok").spec_bytes(), JsonV::Bool(true)),
                    (tv, vv),
                ]);
            }
            Json::Obj(e)
        },
        Err(msg) => {
            let ghost mv = msg@;
            let mut e: Vec<(Vec<u8>, Json)> = Vec::new();
            e.push((("ok").as_bytes_vec(), Json::Bool(false)));
            e.push((("error").as_bytes_vec(), Json::Str(msg)));
            proof {
                crate::json::lemma_vobj(e@);
                assert(vobj(e@) =~= seq![
                    (("ok").spec_bytes(), JsonV::Bool(false)),
                    (("error").spec_bytes(), JsonV::Str(mv)),
                ]);
            }
            Json::Obj(e)
        },
    }
}

/// The health-check daemon's report: the wrapped lookup outcomes plus
/// the readiness flags derived from the wrapped probe document itself.
pub open spec fn spec_health_report(
    aw: Result<JsonV, Seq<u8>>,
    omni: Result<JsonV, Seq<u8>>,
    protected_ok: bool,
    protected_diff: int,
) -> JsonV {
    let omni_doc = spec_outcome_doc(("probe").spec_bytes(), omni);
    let sidecar = spec_sidecar_ready(Some(omni_doc));
    let preflight = match spec_probe_flag(
        spec_as_probe(omni_doc),
        ("preflight_ok").spec_bytes(),
    ) {
        Some(b) => b,
        None => sidecar,
    };
    JsonV::Obj(
        seq![
            (("aw").spec_bytes(), spec_outcome_doc(("info").spec_bytes(), aw)),
            (("omni").spec_bytes(), omni_doc),
            (("sidecar_probe_status").spec_bytes(), JsonV::Bool(sidecar)),
            (("preflight_ok").spec_bytes(), JsonV::Bool(preflight)),
            (("protected_env_ok").spec_bytes(), JsonV::Bool(protected_ok)),
            (("protected_diff_count").spec_bytes(), JsonV::Num(protected_diff * 1000)),
        ],
    )
}

/// The wrapped probe value inside an outcome document, if any.
pub open spec fn spec_as_probe(doc: JsonV) -> Option<JsonV> {
    spec_get(doc, ("probe").spec_bytes())
}

pub fn health_report_json(
    aw: Result<Json, Vec<u8>>,
    omni: Result<Json, Vec<u8>>,
    protected_ok: bool,
    protected_diff: i64,
) -> (r: Json)
    requires
        -1000000 <= protected_diff <= 1000000,
    ensures
        r@ == spec_health_report(
            match aw {
                Ok(ref v) => Ok(v@),
                Err(ref e) => Err(e@),
            },
            match omni {
                Ok(ref v) => Ok(v@),
                Err(ref e) => Err(e@),
            },
            protected_ok,
            protected_diff as int,
        ),
{
    let ghost awv: Result<JsonV, Seq<u8>> = match aw {
        Ok(ref v) => Ok(v@),
        Err(ref e) => Err(e@),
    };
    let ghost omv: Result<JsonV, Seq<u8>> = match omni {
        Ok(ref v) => Ok(v@),
        Err(ref e) => Err(e@),
    };
    let aw_doc = outcome_doc(("info").as_bytes_vec(), aw);
    let omni_doc = outcome_doc(("probe").as_bytes_vec(), omni);
    let sidecar = match probe_flag_one(&omni_doc, ("ok").as_bytes_vec().as_slice()) {
        Some(b) => b,
        None => false,
    };
    let preflight = {
        let inner: Option<bool> = match omni_doc.get(("probe").as_bytes_vec().as_slice()) {
            Some(p) => match p.get(("preflight_ok").as_bytes_vec().as_slice()) {
                Some(v) => v.as_bool(),
                None => None,
            },
            None => None,
        };
        match inner {
            Some(b) => b,
            None => sidecar,
        }
    };
    let ghost adv = aw_doc@;
    let ghost odv = omni_doc@;
    let mut e: Vec<(Vec<u8>, Json)> = Vec::new();
    e.push((("aw").as_bytes_vec(), aw_doc));
    e.push((("omni").as_bytes_vec(), omni_doc));
    e.push((("sidecar_probe_status").as_bytes_vec(), Json::Bool(sidecar)));
    e.push((("preflight_ok").as_bytes_vec(), Json::Bool(preflight)));
    e.push((("protected_env_ok").as_bytes_vec(), Json::Bool(protected_ok)));
    e.push((("protected_diff_count").as_bytes_vec(), Json::Num(protected_diff * 1000)));
    proof {
        crate::json::lemma_vobj(e@);
        assert(vobj(e@) =~= spec_health_report(awv, omv, protected_ok, protected_diff as int)->Obj_0);
    }
    Json::Obj(e)
}

fn probe_flag_one(doc: &Json, key: &[u8]) -> (r: Option<bool>)
    ensures
        r == spec_probe_flag(Some(doc@), key@),
{
    match doc.get(key) {
        Some(v) => v.as_bool(),
        None => None,
    }
}

/// The protected-environment keys the snapshot comparison watches.
pub open spec fn spec_protect_diff(pre: JsonV, post: JsonV) -> int {
    ind(pre, post, ("torch_version_cuda").spec_bytes()) + ind(
        pre,
        post,
        ("torch_file").spec_bytes(),
    ) + ind(pre, post, ("cv2_file").spec_bytes()) + ind(
        pre,
        post,
        ("protected_freeze").spec_bytes(),
    )
}

/// One when the two snapshots disagree on `key`, else zero.
pub open spec fn ind(pre: JsonV, post: JsonV, key: Seq<u8>) -> int {
    if spec_get(pre, key) == spec_get(post, key) {
        0
    } else {
        1
    }
}

fn key_differs(pre: &Json, post: &Json, key: &[u8]) -> (r: bool)
    ensures
        r == (ind(pre@, post@, key@) == 1),
{
    let a = pre.get(key);
    let b = post.get(key);
    !crate::json::json_opt_eq(a, b)
}

/// Counts the watched keys on which the two snapshots disagree.
pub fn compare_protect_snapshots(pre: &Json, post: &Json) -> (r: i64)
    ensures
        r as int == spec_protect_diff(pre@, post@),
        0 <= r <= 4,
{
    let mut diff: i64 = 0;
    if key_differs(pre, post, ("torch_version_cuda").as_bytes_vec().as_slice()) {
        diff = diff + 1;
    }
    if key_differs(pre, post, ("torch_file").as_bytes_vec().as_slice()) {
        diff = diff + 1;
    }
    if key_differs(pre, post, ("cv2_file").as_bytes_vec().as_slice()) {
        diff = diff + 1;
    }
    if key_differs(pre, post, ("protected_freeze").as_bytes_vec().as_slice()) {
        diff = diff + 1;
    }
    diff
}

/// The protected-environment outcome: a missing snapshot reads as
/// `(false, -1)`; otherwise all four watched keys must agree.
pub fn protected_env_status(pre: Option<&Json>, post: Option<&Json>) -> (r: (bool, i64))
    ensures
        match (pre, post) {
            (Some(p), Some(q)) => r.0 == (spec_protect_diff(p@, q@) == 0) && r.1 as int
                == spec_protect_diff(p@, q@),
            _ => r == (false, -1i64),
        },
{
    match (pre, post) {
        (Some(p), Some(q)) => {
            let diff = compare_protect_snapshots(p, q);
            (diff == 0, diff)
        },
        _ => (false, -1),
    }
}

/// One now-frame record: a timestamp, the reason it was built, and the
/// collaborator snapshots that were available.
pub struct NowFrame {
    pub timestamp: Vec<u8>,
    pub reason: Vec<u8>,
    pub aw_info: Option<Json>,
    pub aw_buckets: Option<Json>,
    pub omni_probe: Option<Json>,
}

pub open spec fn spec_nowframe_doc(n: NowFrame) -> JsonV {
    JsonV::Obj(
        seq![
            (("timestamp").spec_bytes(), JsonV::Str(n.timestamp@)),
            (("reason").spec_bytes(), JsonV::Str(n.reason@)),
            (("aw_info").spec_bytes(), opt_json_view(opt_view_json(n.aw_info))),
            (("aw_buckets").spec_bytes(), opt_json_view(opt_view_json(n.aw_buckets))),
            (("omni_probe").spec_bytes(), opt_json_view(opt_view_json(n.omni_probe))),
        ],
    )
}

pub open spec fn opt_view_json(o: Option<Json>) -> Option<JsonV> {
    match o {
        Some(v) => Some(v@),
        None => None,
    }
}

/// Builds the record for `nowframe.build`.
pub fn build_nowframe(
    timestamp: Vec<u8>,
    reason: Vec<u8>,
    aw_info: Option<Json>,
    aw_buckets: Option<Json>,
    omni_probe: Option<Json>,
) -> (r: NowFrame)
    ensures
        r.timestamp@ == timestamp@,
        r.reason@ == reason@,
        opt_view_json(r.aw_info) == opt_view_json(aw_info),
        opt_view_json(r.aw_buckets) == opt_view_json(aw_buckets),
        opt_view_json(r.omni_probe) == opt_view_json(omni_probe),
{
    NowFrame { timestamp, reason, aw_info, aw_buckets, omni_probe }
}

/// The record as the document `nowframe.build` returns.
pub fn nowframe_json(n: NowFrame) -> (r: Json)
    ensures
        r@ == spec_nowframe_doc(n),
{
    let ghost nv = n;
    let NowFrame { timestamp, reason, aw_info, aw_buckets, omni_probe } = n;
    let mut e: Vec<(Vec<u8>, Json)> = Vec::new();
    e.push((("timestamp").as_bytes_vec(), Json::Str(timestamp)));
    e.push((("reason").as_bytes_vec(), Json::Str(reason)));
    e.push((("aw_info").as_bytes_vec(), opt_json(aw_info)));
    e.push((("aw_buckets").as_bytes_vec(), opt_json(aw_buckets)));
    e.push((("omni_probe").as_bytes_vec(), opt_json(omni_probe)));
    proof {
        crate::json::lemma_vobj(e@);
        assert(vobj(e@) =~= spec_nowframe_doc(nv)->Obj_0);
    }
    Json::Obj(e)
}

} // verus!
