//! The latest-bundle cache: the one shared pointer to the most recent
//! bundle, its on-disk mirror document, and symbolic resource
//! resolution.
//!
//! Resolution is a pure function of the cache value and the URI, so two
//! reads with no update between them always name the same path.
use vstd::prelude::*;
use vstd::string::StrSliceExecFns;
use vstd::string::StringSliceAdditionalSpecFns;

use crate::json::{spec_as_str, spec_get, vobj, Json, JsonV};

verus! {

/// The most recent bundle, by its artifact paths.
pub struct LatestBundle {
    pub frame_id: Vec<u8>,
    pub ts: Vec<u8>,
    pub raw_path: Vec<u8>,
    pub annotated_path: Option<Vec<u8>>,
    pub mask_path: Option<Vec<u8>>,
    pub json_path: Option<Vec<u8>>,
    pub som_path: Option<Vec<u8>>,
}

/// Where the on-disk mirror lives under the cache directory.
pub fn latest_path(cache_dir: &[u8]) -> (r: Vec<u8>)
    ensures
        r@ == crate::bundle::spec_join_path(cache_dir@, ("latest.json").spec_bytes()),
{
    crate::bundle::join_path(cache_dir, ("latest.json").as_bytes_vec().as_slice())
}

/// The mirror document of a cache value.
pub open spec fn spec_latest_doc(l: LatestBundle) -> JsonV {
    JsonV::Obj(
        seq![
            (("frame_id").spec_bytes(), JsonV::Str(l.frame_id@)),
            (("ts").spec_bytes(), JsonV::Str(l.ts@)),
            (("raw_path").spec_bytes(), JsonV::Str(l.raw_path@)),
            (("annotated_path").spec_bytes(), crate::bundle::opt_str_view(l.annotated_path)),
            (("mask_path").spec_bytes(), crate::bundle::opt_str_view(l.mask_path)),
            (("json_path").spec_bytes(), crate::bundle::opt_str_view(l.json_path)),
            (("som_path").spec_bytes(), crate::bundle::opt_str_view(l.som_path)),
        ],
    )
}

pub fn latest_to_json(l: &LatestBundle) -> (r: Json)
    ensures
        r@ == spec_latest_doc(*l),
{
    let mut e: Vec<(Vec<u8>, Json)> = Vec::new();
    e.push((("frame_id").as_bytes_vec(), Json::Str(crate::bytes::bytes_clone(l.frame_id.as_slice()))));
    e.push((("ts").as_bytes_vec(), Json::Str(crate::bytes::bytes_clone(l.ts.as_slice()))));
    e.push((("raw_path").as_bytes_vec(), Json::Str(crate::bytes::bytes_clone(l.raw_path.as_slice()))));
    e.push((("annotated_path").as_bytes_vec(), opt_path(&l.annotated_path)));
    e.push((("mask_path").as_bytes_vec(), opt_path(&l.mask_path)));
    e.push((("json_path").as_bytes_vec(), opt_path(&l.json_path)));
    e.push((("som_path").as_bytes_vec(), opt_path(&l.som_path)));
    proof {
        crate::json::lemma_vobj(e@);
        assert(vobj(e@) =~= spec_latest_doc(*l)->Obj_0);
    }
    Json::Obj(e)
}

fn opt_path(o: &Option<Vec<u8>>) -> (r: Json)
    ensures
        r@ == crate::bundle::opt_str_view(*o),
{
    match o {
        Some(p) => Json::Str(crate::bytes::bytes_clone(p.as_slice())),
        None => Json::Null,
    }
}

/// A required string field of the mirror document.
pub open spec fn spec_req_str(j: JsonV, key: Seq<u8>) -> Option<Seq<u8>> {
    spec_as_str(spec_get(j, key))
}

/// An optional string field: absent and null read as nothing, a string
/// reads as itself, anything else spoils the document.
pub open spec fn spec_opt_str(j: JsonV, key: Seq<u8>) -> Option<Option<Seq<u8>>> {
    match spec_get(j, key) {
        None => Some(None),
        Some(JsonV::Null) => Some(None),
        Some(JsonV::Str(s)) => Some(Some(s)),
        Some(_) => None,
    }
}

/// Whether a document reads back as a cache value.
pub open spec fn spec_latest_ok(j: JsonV) -> bool {
    &&& spec_req_str(j, ("frame_id").spec_bytes()) is Some
    &&& spec_req_str(j, ("ts").spec_bytes()) is Some
    &&& spec_req_str(j, ("raw_path").spec_bytes()) is Some
    &&& spec_opt_str(j, ("annotated_path").spec_bytes()) is Some
    &&& spec_opt_str(j, ("mask_path").spec_bytes()) is Some
    &&& spec_opt_str(j, ("json_path").spec_bytes()) is Some
    &&& spec_opt_str(j, ("som_path").spec_bytes()) is Some
}

fn req_str(j: &Json, key: &[u8]) -> (r: Option<Vec<u8>>)
    ensures
        match r {
            Some(v) => spec_req_str(j@, key@) == Some(v@),
            None => spec_req_str(j@, key@) is None,
        },
{
    match j.get(key) {
        Some(v) => match v.as_str() {
            Some(s) => Some(crate::bytes::bytes_clone(s.as_slice())),
            None => None,
        },
        None => None,
    }
}

fn opt_str(j: &Json, key: &[u8]) -> (r: Option<Option<Vec<u8>>>)
    ensures
        match r {
            Some(None) => spec_opt_str(j@, key@) == Some(None::<Seq<u8>>),
            Some(Some(v)) => spec_opt_str(j@, key@) == Some(Some(v@)),
            None => spec_opt_str(j@, key@) is None,
        },
{
    match j.get(key) {
        None => Some(None),
        Some(v) => match v {
            Json::Null => Some(None),
            Json::Str(s) => Some(Some(crate::bytes::bytes_clone(s.as_slice()))),
            _ => None,
        },
    }
}

/// The view of an optional path.
pub open spec fn opt_view(o: Option<Vec<u8>>) -> Option<Seq<u8>> {
    match o {
        Some(p) => Some(p@),
        None => None,
    }
}

/// Reads the mirror document back, when it has the right shape.
pub fn latest_from_json(j: &Json) -> (r: Option<LatestBundle>)
    ensures
        match r {
            Some(l) => {
                &&& spec_latest_ok(j@)
                &&& Some(l.frame_id@) == spec_req_str(j@, ("frame_id").spec_bytes())
                &&& Some(l.ts@) == spec_req_str(j@, ("ts").spec_bytes())
                &&& Some(l.raw_path@) == spec_req_str(j@, ("raw_path").spec_bytes())
                &&& Some(opt_view(l.annotated_path)) == spec_opt_str(
                    j@,
                    ("annotated_path").spec_bytes(),
                )
                &&& Some(opt_view(l.mask_path)) == spec_opt_str(j@, ("mask_path").spec_bytes())
                &&& Some(opt_view(l.json_path)) == spec_opt_str(j@, ("json_path").spec_bytes())
                &&& Some(opt_view(l.som_path)) == spec_opt_str(j@, ("som_path").spec_bytes())
            },
            None => !spec_latest_ok(j@),
        },
{
    let frame_id = match req_str(j, ("frame_id").as_bytes_vec().as_slice()) {
        Some(v) => v,
        None => {
            return None;
        },
    };
    let ts = match req_str(j, ("ts").as_bytes_vec().as_slice()) {
        Some(v) => v,
        None => {
            return None;
        },
    };
    let raw_path = match req_str(j, ("raw_path").as_bytes_vec().as_slice()) {
        Some(v) => v,
        None => {
            return None;
        },
    };
    let annotated_path = match opt_str(j, ("annotated_path").as_bytes_vec().as_slice()) {
        Some(v) => v,
        None => {
            return None;
        },
    };
    let mask_path = match opt_str(j, ("mask_path").as_bytes_vec().as_slice()) {
        Some(v) => v,
        None => {
            return None;
        },
    };
    let json_path = match opt_str(j, ("json_path").as_bytes_vec().as_slice()) {
        Some(v) => v,
        None => {
            return None;
        },
    };
    let som_path = match opt_str(j, ("som_path").as_bytes_vec().as_slice()) {
        Some(v) => v,
        None => {
            return None;
        },
    };
    Some(LatestBundle { frame_id, ts, raw_path, annotated_path, mask_path, json_path, som_path })
}

/// What resolving a URI against a cache value yields.
pub open spec fn spec_resolve(l: LatestBundle, uri: Seq<u8>) -> Result<Seq<u8>, Seq<u8>> {
    if uri == ("screen://latest/raw").spec_bytes() {
        Ok(l.raw_path@)
    } else if uri == ("screen://latest/annotated").spec_bytes() {
        match l.annotated_path {
            Some(p) => Ok(p@),
            None => Err(("annotated image not available").spec_bytes()),
        }
    } else if uri == ("screen://latest/mask").spec_bytes() {
        match l.mask_path {
            Some(p) => Ok(p@),
            None => Err(("mask image not available").spec_bytes()),
        }
    } else {
        Err(("unknown resource uri: ").spec_bytes() + uri)
    }
}

/// Resolves a symbolic resource URI to the artifact path it names.
pub fn resolve_uri(l: &LatestBundle, uri: &[u8]) -> (r: Result<Vec<u8>, Vec<u8>>)
    ensures
        match r {
            Ok(p) => spec_resolve(*l, uri@) == Ok::<Seq<u8>, Seq<u8>>(p@),
            Err(e) => spec_resolve(*l, uri@) == Err::<Seq<u8>, Seq<u8>>(e@),
        },
{
    if crate::bytes::bytes_eq(uri, ("screen://latest/raw").as_bytes_vec().as_slice()) {
        Ok(crate::bytes::bytes_clone(l.raw_path.as_slice()))
    } else if crate::bytes::bytes_eq(uri, ("screen://latest/annotated").as_bytes_vec().as_slice()) {
        match &l.annotated_path {
            Some(p) => Ok(crate::bytes::bytes_clone(p.as_slice())),
            None => Err(("annotated image not available").as_bytes_vec()),
        }
    } else if crate::bytes::bytes_eq(uri, ("screen://latest/mask").as_bytes_vec().as_slice()) {
        match &l.mask_path {
            Some(p) => Ok(crate::bytes::bytes_clone(p.as_slice())),
            None => Err(("mask image not available").as_bytes_vec()),
        }
    } else {
        let mut msg = ("unknown resource uri: ").as_bytes_vec();
        crate::bytes::push_all(&mut msg, uri);
        Err(msg)
    }
}

/// Law: resolution reads nothing but the three artifact paths of the
/// cache value it is given — no hidden state, no other field. With
/// `resolve_uri` taking the cache by shared reference, two reads of the
/// same resource with no update between them therefore return the same
/// path both times.
pub proof fn lemma_resolve_reads_only_the_paths(l: LatestBundle, uri: Seq<u8>)
    ensures
        forall|l2: LatestBundle|
            l2.raw_path@ == l.raw_path@ && opt_view(l2.annotated_path) == opt_view(
                l.annotated_path,
            ) && opt_view(l2.mask_path) == opt_view(l.mask_path) ==> #[trigger] spec_resolve(
                l2,
                uri,
            ) == spec_resolve(l, uri),
{
}

/// What `resources/read` returns for a resolved resource.
pub open spec fn spec_resource_result(uri: Seq<u8>, blob: Seq<u8>) -> JsonV {
    JsonV::Obj(
        seq![
            (
                ("contents").spec_bytes(),
                JsonV::Arr(
                    seq![
                        JsonV::Obj(
                            seq![
                                (("uri").spec_bytes(), JsonV::Str(uri)),
                                (("mimeType").spec_bytes(), JsonV::Str(("image/png").spec_bytes())),
                                (("blob").spec_bytes(), JsonV::Str(blob)),
                            ],
                        ),
                    ],
                ),
            ),
        ],
    )
}

pub fn resource_result_json(uri: &[u8], blob: Vec<u8>) -> (r: Json)
    ensures
        r@ == spec_resource_result(uri@, blob@),
{
    let ghost blobv = blob@;
    let mut item: Vec<(Vec<u8>, Json)> = Vec::new();
    item.push((("uri").as_bytes_vec(), Json::Str(crate::bytes::bytes_clone(uri))));
    item.push((("mimeType").as_bytes_vec(), Json::Str(("image/png").as_bytes_vec())));
    item.push((("blob").as_bytes_vec(), Json::Str(blob)));
    proof {
        crate::json::lemma_vobj(item@);
        assert(vobj(item@) =~= seq![
            (("uri").spec_bytes(), JsonV::Str(uri@)),
            (("mimeType").spec_bytes(), JsonV::Str(("image/png").spec_bytes())),
            (("blob").spec_bytes(), JsonV::Str(blobv)),
        ]);
    }
    let inner = Json::Obj(item);
    let ghost innerv = inner@;
    let mut arr: Vec<Json> = Vec::new();
    arr.push(inner);
    proof {
        crate::json::lemma_varr(arr@);
        assert(crate::json::varr(arr@) =~= seq![innerv]);
    }
    let mut top: Vec<(Vec<u8>, Json)> = Vec::new();
    top.push((("contents").as_bytes_vec(), Json::Arr(arr)));
    proof {
        crate::json::lemma_vobj(top@);
        assert(vobj(top@) =~= spec_resource_result(uri@, blobv)->Obj_0);
    }
    Json::Obj(top)
}

/// The owned cache component: created at startup, written by every
/// successful bundle build, read by resource resolution.
pub struct BundleCache {
    pub latest: Option<LatestBundle>,
}

impl BundleCache {
    /// An empty cache; resolution falls back to the on-disk mirror
    /// until the first bundle of this process.
    pub fn new() -> (r: Self)
        ensures
            r.latest is None,
    {
        BundleCache { latest: None }
    }

    /// Overwrites the pointer with the newest bundle. The caller must
    /// have committed the on-disk mirror first: a failed mirror write
    /// is not a committed state, and this must not be called then.
    pub fn update(&mut self, l: LatestBundle)
        ensures
            final(self).latest == Some(l),
    {
        self.latest = Some(l);
    }
}

/// The seven mirror keys are pairwise distinct where a lookup could
/// confuse them.
proof fn lemma_mirror_keys()
    ensures
        ("frame_id").spec_bytes() != ("ts").spec_bytes(),
        ("frame_id").spec_bytes() != ("raw_path").spec_bytes(),
        ("frame_id").spec_bytes() != ("annotated_path").spec_bytes(),
        ("frame_id").spec_bytes() != ("mask_path").spec_bytes(),
        ("frame_id").spec_bytes() != ("json_path").spec_bytes(),
        ("frame_id").spec_bytes() != ("som_path").spec_bytes(),
        ("ts").spec_bytes() != ("raw_path").spec_bytes(),
        ("ts").spec_bytes() != ("annotated_path").spec_bytes(),
        ("ts").spec_bytes() != ("mask_path").spec_bytes(),
        ("ts").spec_bytes() != ("json_path").spec_bytes(),
        ("ts").spec_bytes() != ("som_path").spec_bytes(),
        ("raw_path").spec_bytes() != ("annotated_path").spec_bytes(),
        ("raw_path").spec_bytes() != ("mask_path").spec_bytes(),
        ("raw_path").spec_bytes() != ("json_path").spec_bytes(),
        ("raw_path").spec_bytes() != ("som_path").spec_bytes(),
        ("annotated_path").spec_bytes() != ("mask_path").spec_bytes(),
        ("annotated_path").spec_bytes() != ("json_path").spec_bytes(),
        ("annotated_path").spec_bytes() != ("som_path").spec_bytes(),
        ("mask_path").spec_bytes() != ("json_path").spec_bytes(),
        ("mask_path").spec_bytes() != ("som_path").spec_bytes(),
        ("json_path").spec_bytes() != ("som_path").spec_bytes(),
{
    reveal_strlit("frame_id");
    reveal_strlit("ts");
    reveal_strlit("raw_path");
    reveal_strlit("annotated_path");
    reveal_strlit("mask_path");
    reveal_strlit("json_path");
    reveal_strlit("som_path");
    assert(vstd::utf8::is_ascii_chars(("frame_id")@));
    assert(vstd::utf8::is_ascii_chars(("ts")@));
    assert(vstd::utf8::is_ascii_chars(("raw_path")@));
    assert(vstd::utf8::is_ascii_chars(("annotated_path")@));
    assert(vstd::utf8::is_ascii_chars(("mask_path")@));
    assert(vstd::utf8::is_ascii_chars(("json_path")@));
    assert(vstd::utf8::is_ascii_chars(("som_path")@));
    vstd::utf8::is_ascii_chars_encode_utf8(("frame_id")@);
    vstd::utf8::is_ascii_chars_encode_utf8(("ts")@);
    vstd::utf8::is_ascii_chars_encode_utf8(("raw_path")@);
    vstd::utf8::is_ascii_chars_encode_utf8(("annotated_path")@);
    vstd::utf8::is_ascii_chars_encode_utf8(("mask_path")@);
    vstd::utf8::is_ascii_chars_encode_utf8(("json_path")@);
    vstd::utf8::is_ascii_chars_encode_utf8(("som_path")@);
    // the same-length pairs differ in their first byte
    assert(("frame_id").spec_bytes()[0] == ('f' as u8));
    assert(("raw_path").spec_bytes()[0] == ('r' as u8));
    assert(("som_path").spec_bytes()[0] == ('s' as u8));
    assert(("mask_path").spec_bytes()[0] == ('m' as u8));
    assert(("json_path").spec_bytes()[0] == ('j' as u8));
}

/// Law: the on-disk mirror written for a cache value reads back as
/// exactly that value, so the pointer survives a process restart
/// through its mirror record.
pub proof fn lemma_mirror_round_trip(l: LatestBundle)
    ensures
        spec_latest_ok(spec_latest_doc(l)),
        spec_req_str(spec_latest_doc(l), ("frame_id").spec_bytes()) == Some(l.frame_id@),
        spec_req_str(spec_latest_doc(l), ("ts").spec_bytes()) == Some(l.ts@),
        spec_req_str(spec_latest_doc(l), ("raw_path").spec_bytes()) == Some(l.raw_path@),
        spec_opt_str(spec_latest_doc(l), ("annotated_path").spec_bytes()) == Some(
            opt_view(l.annotated_path),
        ),
        spec_opt_str(spec_latest_doc(l), ("mask_path").spec_bytes()) == Some(opt_view(l.mask_path)),
        spec_opt_str(spec_latest_doc(l), ("json_path").spec_bytes()) == Some(opt_view(l.json_path)),
        spec_opt_str(spec_latest_doc(l), ("som_path").spec_bytes()) == Some(opt_view(l.som_path)),
{
    lemma_mirror_keys();
    let e0 = spec_latest_doc(l)->Obj_0;
    let e1 = e0.subrange(1, 7);
    let e2 = e0.subrange(2, 7);
    let e3 = e0.subrange(3, 7);
    let e4 = e0.subrange(4, 7);
    let e5 = e0.subrange(5, 7);
    let e6 = e0.subrange(6, 7);
    assert(e1.subrange(1, 6) =~= e2);
    assert(e2.subrange(1, 5) =~= e3);
    assert(e3.subrange(1, 4) =~= e4);
    assert(e4.subrange(1, 3) =~= e5);
    assert(e5.subrange(1, 2) =~= e6);
    assert(e1[0] == e0[1] && e2[0] == e0[2] && e3[0] == e0[3] && e4[0] == e0[4] && e5[0] == e0[5]
        && e6[0] == e0[6]);
    assert(crate::json::entries_get(e0, ("ts").spec_bytes()) == crate::json::entries_get(
        e1,
        ("ts").spec_bytes(),
    ));
    assert(crate::json::entries_get(e0, ("raw_path").spec_bytes()) == crate::json::entries_get(
        e1,
        ("raw_path").spec_bytes(),
    ));
    assert(crate::json::entries_get(e1, ("raw_path").spec_bytes()) == crate::json::entries_get(
        e2,
        ("raw_path").spec_bytes(),
    ));
    assert(crate::json::entries_get(e0, ("annotated_path").spec_bytes())
        == crate::json::entries_get(e1, ("annotated_path").spec_bytes()));
    assert(crate::json::entries_get(e1, ("annotated_path").spec_bytes())
        == crate::json::entries_get(e2, ("annotated_path").spec_bytes()));
    assert(crate::json::entries_get(e2, ("annotated_path").spec_bytes())
        == crate::json::entries_get(e3, ("annotated_path").spec_bytes()));
    assert(crate::json::entries_get(e0, ("mask_path").spec_bytes()) == crate::json::entries_get(
        e1,
        ("mask_path").spec_bytes(),
    ));
    assert(crate::json::entries_get(e1, ("mask_path").spec_bytes()) == crate::json::entries_get(
        e2,
        ("mask_path").spec_bytes(),
    ));
    assert(crate::json::entries_get(e2, ("mask_path").spec_bytes()) == crate::json::entries_get(
        e3,
        ("mask_path").spec_bytes(),
    ));
    assert(crate::json::entries_get(e3, ("mask_path").spec_bytes()) == crate::json::entries_get(
        e4,
        ("mask_path").spec_bytes(),
    ));
    assert(crate::json::entries_get(e0, ("json_path").spec_bytes()) == crate::json::entries_get(
        e1,
        ("json_path").spec_bytes(),
    ));
    assert(crate::json::entries_get(e1, ("json_path").spec_bytes()) == crate::json::entries_get(
        e2,
        ("json_path").spec_bytes(),
    ));
    assert(crate::json::entries_get(e2, ("json_path").spec_bytes()) == crate::json::entries_get(
        e3,
        ("json_path").spec_bytes(),
    ));
    assert(crate::json::entries_get(e3, ("json_path").spec_bytes()) == crate::json::entries_get(
        e4,
        ("json_path").spec_bytes(),
    ));
    assert(crate::json::entries_get(e4, ("json_path").spec_bytes()) == crate::json::entries_get(
        e5,
        ("json_path").spec_bytes(),
    ));
    assert(crate::json::entries_get(e0, ("som_path").spec_bytes()) == crate::json::entries_get(
        e1,
        ("som_path").spec_bytes(),
    ));
    assert(crate::json::entries_get(e1, ("som_path").spec_bytes()) == crate::json::entries_get(
        e2,
        ("som_path").spec_bytes(),
    ));
    assert(crate::json::entries_get(e2, ("som_path").spec_bytes()) == crate::json::entries_get(
        e3,
        ("som_path").spec_bytes(),
    ));
    assert(crate::json::entries_get(e3, ("som_path").spec_bytes()) == crate::json::entries_get(
        e4,
        ("som_path").spec_bytes(),
    ));
    assert(crate::json::entries_get(e4, ("som_path").spec_bytes()) == crate::json::entries_get(
        e5,
        ("som_path").spec_bytes(),
    ));
    assert(crate::json::entries_get(e5, ("som_path").spec_bytes()) == crate::json::entries_get(
        e6,
        ("som_path").spec_bytes(),
    ));
    match l.annotated_path {
        Some(_) => {},
        None => {},
    }
    match l.mask_path {
        Some(_) => {},
        None => {},
    }
    match l.json_path {
        Some(_) => {},
        None => {},
    }
    match l.som_path {
        Some(_) => {},
        None => {},
    }
}

} // verus!
