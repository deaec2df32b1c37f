//! The two HTTP collaborators, by their computable halves: endpoint
//! construction and request payloads. The application shell performs the
//! actual GET and POST calls and hands the response bodies back as
//! bytes.
use vstd::prelude::*;
use vstd::string::StrSliceExecFns;
use vstd::string::StringSliceAdditionalSpecFns;

use crate::json::{vobj, Json, JsonV};

verus! {

/// Index after the last byte once trailing slashes are dropped.
pub open spec fn slash_suffix_start(s: Seq<u8>, j: int) -> int
    decreases j,
{
    if 0 < j <= s.len() && s[j - 1] == ('/' as u8) {
        slash_suffix_start(s, j - 1)
    } else {
        j
    }
}

/// The base URL without its trailing slashes, as `trim_end_matches('/')`
/// leaves it.
pub open spec fn spec_trim_slashes(s: Seq<u8>) -> Seq<u8> {
    s.subrange(0, slash_suffix_start(s, s.len() as int))
}

/// An endpoint under a base URL.
pub open spec fn spec_endpoint(base: Seq<u8>, path: Seq<u8>) -> Seq<u8> {
    spec_trim_slashes(base) + path
}

fn endpoint(base: &[u8], path: &[u8]) -> (r: Vec<u8>)
    ensures
        r@ == spec_endpoint(base@, path@),
{
    let mut j = base.len();
    while j > 0 && base[j - 1] == ('/' as u8)
        invariant
            0 <= j <= base@.len(),
            slash_suffix_start(base@, base@.len() as int) == slash_suffix_start(base@, j as int),
        decreases j,
    {
        j = j - 1;
    }
    let mut out = crate::bytes::copy_range(base, 0, j);
    crate::bytes::push_all(&mut out, path);
    out
}

/// The activity-data client: holds the configured base URL and builds
/// the endpoints its two lookups use.
pub struct AwClient {
    base_url: Vec<u8>,
}

impl AwClient {
    pub closed spec fn base(&self) -> Seq<u8> {
        self.base_url@
    }

    pub fn new(base_url: String) -> (r: Self)
        ensures
            r.base() == vstd::utf8::encode_utf8(base_url@),
    {
        AwClient { base_url: base_url.as_str().as_bytes_vec() }
    }

    /// The endpoint of the instance information lookup.
    pub fn info_url(&self) -> (r: Vec<u8>)
        ensures
            r@ == spec_endpoint(self.base(), ("/api/0/info").spec_bytes()),
    {
        endpoint(self.base_url.as_slice(), ("/api/0/info").as_bytes_vec().as_slice())
    }

    /// The endpoint of the bucket listing.
    pub fn buckets_url(&self) -> (r: Vec<u8>)
        ensures
            r@ == spec_endpoint(self.base(), ("/api/0/buckets").spec_bytes()),
    {
        endpoint(self.base_url.as_slice(), ("/api/0/buckets").as_bytes_vec().as_slice())
    }
}

/// The recognition client: holds the configured base URL, builds the
/// probe and parse endpoints with their trailing-slash retry twins, and
/// assembles the parse request body.
pub struct OmniClient {
    base_url: Vec<u8>,
}

impl OmniClient {
    pub closed spec fn base(&self) -> Seq<u8> {
        self.base_url@
    }

    pub fn new(base_url: String) -> (r: Self)
        ensures
            r.base() == vstd::utf8::encode_utf8(base_url@),
    {
        OmniClient { base_url: base_url.as_str().as_bytes_vec() }
    }

    /// The probe endpoint and its trailing-slash fallback, tried in
    /// that order.
    pub fn probe_urls(&self) -> (r: (Vec<u8>, Vec<u8>))
        ensures
            r.0@ == spec_endpoint(self.base(), ("/probe").spec_bytes()),
            r.1@ == spec_endpoint(self.base(), ("/probe/").spec_bytes()),
    {
        (
            endpoint(self.base_url.as_slice(), ("/probe").as_bytes_vec().as_slice()),
            endpoint(self.base_url.as_slice(), ("/probe/").as_bytes_vec().as_slice()),
        )
    }

    /// The parse endpoint and its trailing-slash fallback.
    pub fn parse_urls(&self) -> (r: (Vec<u8>, Vec<u8>))
        ensures
            r.0@ == spec_endpoint(self.base(), ("/parse").spec_bytes()),
            r.1@ == spec_endpoint(self.base(), ("/parse/").spec_bytes()),
    {
        (
            endpoint(self.base_url.as_slice(), ("/parse").as_bytes_vec().as_slice()),
            endpoint(self.base_url.as_slice(), ("/parse/").as_bytes_vec().as_slice()),
        )
    }
}

/// The body of a parse request: the encoded image, and the options
/// when any non-null ones were given.
pub open spec fn spec_parse_payload(b64_image: Seq<u8>, options: Option<JsonV>) -> JsonV {
    let base = seq![(("base64_image").spec_bytes(), JsonV::Str(b64_image))];
    match options {
        Some(o) => if o == JsonV::Null {
            JsonV::Obj(base)
        } else {
            JsonV::Obj(base.push((("parse_options").spec_bytes(), o)))
        },
        None => JsonV::Obj(base),
    }
}

pub fn parse_payload(b64_image: Vec<u8>, options: Option<&Json>) -> (r: Json)
    ensures
        r@ == spec_parse_payload(
            b64_image@,
            match options {
                Some(o) => Some(o@),
                None => None,
            },
        ),
{
    let ghost bv = b64_image@;
    let mut e: Vec<(Vec<u8>, Json)> = Vec::new();
    e.push((("base64_image").as_bytes_vec(), Json::Str(b64_image)));
    proof {
        crate::json::lemma_vobj(e@);
        assert(vobj(e@) =~= seq![(("base64_image").spec_bytes(), JsonV::Str(bv))]);
    }
    match options {
        Some(o) => {
            let is_null = match o {
                Json::Null => true,
                _ => false,
            };
            if is_null {
                Json::Obj(e)
            } else {
                let oc = crate::json::json_clone(o);
                let ghost ov = oc@;
                e.push((("parse_options").as_bytes_vec(), oc));
                proof {
                    crate::json::lemma_vobj(e@);
                    assert(vobj(e@) =~= seq![(("base64_image").spec_bytes(), JsonV::Str(bv))].push(
                        (("parse_options").spec_bytes(), ov),
                    ));
                }
                Json::Obj(e)
            }
        },
        None => Json::Obj(e),
    }
}

} // verus!
