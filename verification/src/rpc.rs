//! The request dispatcher: envelopes, authentication and routing.
//!
//! `spec_dispatch` is the whole per-message contract: given a parsed
//! message and the configured shared secret, it says whether the server
//! answers at once, stays silent, or must run a handler first — and with
//! which reply envelope. The laws at the end of the module state the
//! request/notification discipline: a notification never produces output,
//! a request is answered exactly once under its own id, and a message
//! that fails authentication never reaches a handler.
use vstd::prelude::*;
use vstd::string::StrSliceExecFns;
use vstd::string::StringSliceAdditionalSpecFns;

use crate::json::{spec_as_str, spec_get, Json, JsonV};

verus! {

/// The shared secret the process was configured with, if any. A token
/// that is empty after trimming counts as absent.
pub struct AuthCfg {
    pub token: Option<Vec<u8>>,
}

pub open spec fn spec_auth_required(token: Option<Vec<u8>>) -> bool {
    match token {
        Some(t) => crate::bytes::trim(t@).len() != 0,
        None => false,
    }
}

/// The token a message carries: at top level, or inside `params`.
pub open spec fn spec_provided_token(m: JsonV) -> Option<Seq<u8>> {
    match spec_as_str(spec_get(m, ("auth_token").spec_bytes())) {
        Some(s) => Some(s),
        None => match spec_get(m, ("params").spec_bytes()) {
            Some(p) => spec_as_str(spec_get(p, ("auth_token").spec_bytes())),
            None => None,
        },
    }
}

/// A message passes when no secret is configured, or when it carries
/// exactly the configured bytes.
pub open spec fn spec_auth_ok(m: JsonV, token: Option<Vec<u8>>) -> bool {
    !spec_auth_required(token) || (match token {
        Some(t) => spec_provided_token(m) == Some(t@),
        None => false,
    })
}

/// All-whitespace and empty-after-trimming agree.
pub proof fn lemma_trim_empty(s: Seq<u8>)
    ensures
        (crate::bytes::trim(s).len() == 0) == crate::bytes::all_ws(s),
{
    crate::bytes::lemma_ws_prefix(s, 0);
    crate::bytes::lemma_ws_suffix_start(s, s.len() as int);
    let a = crate::bytes::ws_prefix(s, 0);
    let b = crate::bytes::ws_suffix_start(s, s.len() as int);
    if crate::bytes::all_ws(s) {
        if a < s.len() {
            assert(crate::bytes::is_ws(s[a]));
        }
        assert(a == s.len());
        if b > 0 {
            assert(!crate::bytes::is_ws(s[b - 1]));
        }
        assert(b == 0);
        if s.len() == 0 {
            assert(crate::bytes::trim(s).len() == 0);
        }
    } else {
        let k = choose|k: int| 0 <= k < s.len() && !crate::bytes::is_ws(s[k]);
        assert(a <= k && k < b);
        assert(crate::bytes::trim(s).len() == b - a > 0);
    }
}

/// Checks the shared secret of a message against the configuration.
pub fn validate_auth(msg: &Json, auth: &AuthCfg) -> (r: bool)
    ensures
        r == spec_auth_ok(msg@, auth.token),
{
    let expected = match &auth.token {
        None => {
            return true;
        },
        Some(t) => t,
    };
    if crate::bytes::is_all_ws(expected.as_slice()) {
        proof {
            lemma_trim_empty(expected@);
        }
        return true;
    }
    proof {
        lemma_trim_empty(expected@);
    }
    let provided: Option<&Vec<u8>> = match msg.get(("auth_token").as_bytes_vec().as_slice()) {
        Some(v) => match v.as_str() {
            Some(s) => Some(s),
            None => params_token(msg),
        },
        None => params_token(msg),
    };
    match provided {
        Some(p) => crate::bytes::bytes_eq(p.as_slice(), expected.as_slice()),
        None => false,
    }
}

fn params_token(msg: &Json) -> (r: Option<&Vec<u8>>)
    ensures
        match r {
            Some(s) => (match spec_get(msg@, ("params").spec_bytes()) {
                Some(p) => spec_as_str(spec_get(p, ("auth_token").spec_bytes())),
                None => None,
            }) == Some(s@),
            None => (match spec_get(msg@, ("params").spec_bytes()) {
                Some(p) => spec_as_str(spec_get(p, ("auth_token").spec_bytes())),
                None => None,
            }) is None,
        },
{
    match msg.get(("params").as_bytes_vec().as_slice()) {
        Some(p) => match p.get(("auth_token").as_bytes_vec().as_slice()) {
            Some(v) => v.as_str(),
            None => None,
        },
        None => None,
    }
}

/// A JSON-RPC error envelope.
pub open spec fn spec_error_response(id: JsonV, code: int, msg: Seq<u8>) -> JsonV {
    JsonV::Obj(
        seq![
            (("jsonrpc").spec_bytes(), JsonV::Str(("2.0").spec_bytes())),
            (("id").spec_bytes(), id),
            (
                ("error").spec_bytes(),
                JsonV::Obj(
                    seq![
                        (("code").spec_bytes(), JsonV::Num(code * 1000)),
                        (("message").spec_bytes(), JsonV::Str(msg)),
                    ],
                ),
            ),
        ],
    )
}

/// A JSON-RPC success envelope.
pub open spec fn spec_result_response(id: JsonV, result: JsonV) -> JsonV {
    JsonV::Obj(
        seq![
            (("jsonrpc").spec_bytes(), JsonV::Str(("2.0").spec_bytes())),
            (("id").spec_bytes(), id),
            (("result").spec_bytes(), result),
        ],
    )
}

pub fn error_response(id: Json, code: i64, message: Vec<u8>) -> (r: Json)
    requires
        -1000000 <= code <= 1000000,
    ensures
        r@ == spec_error_response(id@, code as int, message@),
{
    let ghost idv = id@;
    let ghost mv = message@;
    let mut inner: Vec<(Vec<u8>, Json)> = Vec::new();
    inner.push((("code").as_bytes_vec(), Json::Num(code * 1000)));
    inner.push((("message").as_bytes_vec(), Json::Str(message)));
    proof {
        crate::json::lemma_vobj(inner@);
        assert(crate::json::vobj(inner@) =~= seq![
            (("code").spec_bytes(), JsonV::Num(code as int * 1000)),
            (("message").spec_bytes(), JsonV::Str(mv)),
        ]);
    }
    let error = Json::Obj(inner);
    let ghost errv = error@;
    let mut outer: Vec<(Vec<u8>, Json)> = Vec::new();
    outer.push((("jsonrpc").as_bytes_vec(), Json::Str(("2.0").as_bytes_vec())));
    outer.push((("id").as_bytes_vec(), id));
    outer.push((("error").as_bytes_vec(), error));
    proof {
        crate::json::lemma_vobj(outer@);
        assert(crate::json::vobj(outer@) =~= seq![
            (("jsonrpc").spec_bytes(), JsonV::Str(("2.0").spec_bytes())),
            (("id").spec_bytes(), idv),
            (("error").spec_bytes(), errv),
        ]);
        assert(crate::json::vobj(outer@) =~= spec_error_response(idv, code as int, mv)->Obj_0);
    }
    Json::Obj(outer)
}

pub fn result_response(id: Json, result: Json) -> (r: Json)
    ensures
        r@ == spec_result_response(id@, result@),
{
    let ghost idv = id@;
    let ghost resv = result@;
    let mut outer: Vec<(Vec<u8>, Json)> = Vec::new();
    outer.push((("jsonrpc").as_bytes_vec(), Json::Str(("2.0").as_bytes_vec())));
    outer.push((("id").as_bytes_vec(), id));
    outer.push((("result").as_bytes_vec(), result));
    proof {
        crate::json::lemma_vobj(outer@);
        assert(crate::json::vobj(outer@) =~= seq![
            (("jsonrpc").spec_bytes(), JsonV::Str(("2.0").spec_bytes())),
            (("id").spec_bytes(), idv),
            (("result").spec_bytes(), resv),
        ]);
        assert(crate::json::vobj(outer@) =~= spec_result_response(idv, resv)->Obj_0);
    }
    Json::Obj(outer)
}

/// The reply sent when a frame does not parse as JSON at all.
pub fn parse_error_response() -> (r: Json)
    ensures
        r@ == spec_error_response(
            JsonV::Null,
            -32700,
            ("parse error: invalid payload").spec_bytes(),
        ),
{
    error_response(Json::Null, -32700, ("parse error: invalid payload").as_bytes_vec())
}

pub open spec fn spec_msg_id(m: JsonV) -> Option<JsonV> {
    spec_get(m, ("id").spec_bytes())
}

pub open spec fn spec_id_or_null(m: JsonV) -> JsonV {
    match spec_msg_id(m) {
        Some(v) => v,
        None => JsonV::Null,
    }
}

/// A message without an `id` is a notification.
pub open spec fn spec_is_notification(m: JsonV) -> bool {
    spec_msg_id(m) is None
}

/// The method name, or empty when absent or not a string.
pub open spec fn spec_method(m: JsonV) -> Seq<u8> {
    match spec_as_str(spec_get(m, ("method").spec_bytes())) {
        Some(s) => s,
        None => Seq::empty(),
    }
}

pub open spec fn spec_params(m: JsonV) -> JsonV {
    match spec_get(m, ("params").spec_bytes()) {
        Some(p) => p,
        None => JsonV::Null,
    }
}

/// What `initialize` reports.
pub open spec fn spec_initialize_result() -> JsonV {
    JsonV::Obj(
        seq![
            (("protocolVersion").spec_bytes(), JsonV::Str(("2024-11-05").spec_bytes())),
            (
                ("serverInfo").spec_bytes(),
                JsonV::Obj(
                    seq![
                        (("name").spec_bytes(), JsonV::Str(("aw_omni_mcp").spec_bytes())),
                        (("version").spec_bytes(), JsonV::Str(("0.1.0").spec_bytes())),
                    ],
                ),
            ),
            (
                ("capabilities").spec_bytes(),
                JsonV::Obj(
                    seq![
                        (
                            ("tools").spec_bytes(),
                            JsonV::Obj(
                                seq![(("listChanged").spec_bytes(), JsonV::Bool(false))],
                            ),
                        ),
                        (
                            ("resources").spec_bytes(),
                            JsonV::Obj(
                                seq![(("listChanged").spec_bytes(), JsonV::Bool(false))],
                            ),
                        ),
                    ],
                ),
            ),
        ],
    )
}

/// A property of the tool schema: a bare type tag.
pub open spec fn spec_type_prop(t: Seq<u8>) -> JsonV {
    JsonV::Obj(seq![(("type").spec_bytes(), JsonV::Str(t))])
}

/// The one advertised tool.
pub open spec fn spec_tool_definition() -> JsonV {
    JsonV::Obj(
        seq![
            (("name").spec_bytes(), JsonV::Str(("screen.bundle").spec_bytes())),
            (
                ("description").spec_bytes(),
                JsonV::Str(("Capture, parse, and annotate the screen").spec_bytes()),
            ),
            (
                ("inputSchema").spec_bytes(),
                JsonV::Obj(
                    seq![
                        (("type").spec_bytes(), JsonV::Str(("object").spec_bytes())),
                        (
                            ("properties").spec_bytes(),
                            JsonV::Obj(
                                seq![
                                    (("mode").spec_bytes(), spec_type_prop(
                                        ("string").spec_bytes(),
                                    )),
                                    (
                                        ("format").spec_bytes(),
                                        JsonV::Obj(
                                            seq![
                                                (
                                                    ("type").spec_bytes(),
                                                    JsonV::Str(("string").spec_bytes()),
                                                ),
                                                (
                                                    ("enum").spec_bytes(),
                                                    JsonV::Arr(
                                                        seq![JsonV::Str(("png").spec_bytes())],
                                                    ),
                                                ),
                                            ],
                                        ),
                                    ),
                                    (("with_cursor").spec_bytes(), spec_type_prop(
                                        ("boolean").spec_bytes(),
                                    )),
                                    (("include_b64").spec_bytes(), spec_type_prop(
                                        ("boolean").spec_bytes(),
                                    )),
                                ],
                            ),
                        ),
                        (("required").spec_bytes(), JsonV::Arr(Seq::empty())),
                    ],
                ),
            ),
        ],
    )
}

pub open spec fn spec_tools_list_result() -> JsonV {
    JsonV::Obj(seq![(("tools").spec_bytes(), JsonV::Arr(seq![spec_tool_definition()]))])
}

fn type_prop(t: Vec<u8>) -> (r: Json)
    ensures
        r@ == spec_type_prop(t@),
{
    let ghost tv = t@;
    let mut e: Vec<(Vec<u8>, Json)> = Vec::new();
    e.push((("type").as_bytes_vec(), Json::Str(t)));
    proof {
        crate::json::lemma_vobj(e@);
        assert(crate::json::vobj(e@) =~= seq![(("type").spec_bytes(), JsonV::Str(tv))]);
    }
    Json::Obj(e)
}

/// The advertised tool, as `tools/list` returns it.
pub fn tool_definition() -> (r: Json)
    ensures
        r@ == spec_tool_definition(),
{
    let mut fmt: Vec<(Vec<u8>, Json)> = Vec::new();
    fmt.push((("type").as_bytes_vec(), Json::Str(("string").as_bytes_vec())));
    let mut png: Vec<Json> = Vec::new();
    png.push(Json::Str(("png").as_bytes_vec()));
    proof {
        crate::json::lemma_varr(png@);
        assert(crate::json::varr(png@) =~= seq![JsonV::Str(("png").spec_bytes())]);
    }
    fmt.push((("enum").as_bytes_vec(), Json::Arr(png)));
    proof {
        crate::json::lemma_vobj(fmt@);
        assert(crate::json::vobj(fmt@) =~= seq![
            (("type").spec_bytes(), JsonV::Str(("string").spec_bytes())),
            (("enum").spec_bytes(), JsonV::Arr(seq![JsonV::Str(("png").spec_bytes())])),
        ]);
    }
    let format = Json::Obj(fmt);
    let ghost formatv = format@;

    let mut props: Vec<(Vec<u8>, Json)> = Vec::new();
    props.push((("mode").as_bytes_vec(), type_prop(("string").as_bytes_vec())));
    props.push((("format").as_bytes_vec(), format));
    props.push((("with_cursor").as_bytes_vec(), type_prop(("boolean").as_bytes_vec())));
    props.push((("include_b64").as_bytes_vec(), type_prop(("boolean").as_bytes_vec())));
    proof {
        crate::json::lemma_vobj(props@);
        assert(crate::json::vobj(props@) =~= seq![
            (("mode").spec_bytes(), spec_type_prop(("string").spec_bytes())),
            (("format").spec_bytes(), formatv),
            (("with_cursor").spec_bytes(), spec_type_prop(("boolean").spec_bytes())),
            (("include_b64").spec_bytes(), spec_type_prop(("boolean").spec_bytes())),
        ]);
    }
    let properties = Json::Obj(props);
    let ghost propsv = properties@;

    let mut schema: Vec<(Vec<u8>, Json)> = Vec::new();
    schema.push((("type").as_bytes_vec(), Json::Str(("object").as_bytes_vec())));
    schema.push((("properties").as_bytes_vec(), properties));
    let empty_req: Vec<Json> = Vec::new();
    proof {
        crate::json::lemma_varr(empty_req@);
        assert(crate::json::varr(empty_req@) =~= Seq::<JsonV>::empty());
    }
    schema.push((("required").as_bytes_vec(), Json::Arr(empty_req)));
    proof {
        crate::json::lemma_vobj(schema@);
        assert(crate::json::vobj(schema@) =~= seq![
            (("type").spec_bytes(), JsonV::Str(("object").spec_bytes())),
            (("properties").spec_bytes(), propsv),
            (("required").spec_bytes(), JsonV::Arr(Seq::<JsonV>::empty())),
        ]);
    }
    let input_schema = Json::Obj(schema);
    let ghost schemav = input_schema@;

    let mut top: Vec<(Vec<u8>, Json)> = Vec::new();
    top.push((("name").as_bytes_vec(), Json::Str(("screen.bundle").as_bytes_vec())));
    top.push(
        (
            ("description").as_bytes_vec(),
            Json::Str(("Capture, parse, and annotate the screen").as_bytes_vec()),
        ),
    );
    top.push((("inputSchema").as_bytes_vec(), input_schema));
    proof {
        crate::json::lemma_vobj(top@);
        assert(formatv == spec_tool_definition()->Obj_0[2].1->Obj_0[1].1->Obj_0[1].1);
        assert(propsv == spec_tool_definition()->Obj_0[2].1->Obj_0[1].1);
        assert(schemav == spec_tool_definition()->Obj_0[2].1);
        assert(crate::json::vobj(top@) =~= spec_tool_definition()->Obj_0);
    }
    Json::Obj(top)
}

pub fn initialize_result() -> (r: Json)
    ensures
        r@ == spec_initialize_result(),
{
    let mut info: Vec<(Vec<u8>, Json)> = Vec::new();
    info.push((("name").as_bytes_vec(), Json::Str(("aw_omni_mcp").as_bytes_vec())));
    info.push((("version").as_bytes_vec(), Json::Str(("0.1.0").as_bytes_vec())));
    proof {
        crate::json::lemma_vobj(info@);
        assert(crate::json::vobj(info@) =~= seq![
            (("name").spec_bytes(), JsonV::Str(("aw_omni_mcp").spec_bytes())),
            (("version").spec_bytes(), JsonV::Str(("0.1.0").spec_bytes())),
        ]);
    }
    let server_info = Json::Obj(info);
    let ghost infov = server_info@;

    let mut tools: Vec<(Vec<u8>, Json)> = Vec::new();
    tools.push((("listChanged").as_bytes_vec(), Json::Bool(false)));
    proof {
        crate::json::lemma_vobj(tools@);
        assert(crate::json::vobj(tools@) =~= seq![
            (("listChanged").spec_bytes(), JsonV::Bool(false)),
        ]);
    }
    let tools_cap = Json::Obj(tools);
    let ghost toolsv = tools_cap@;
    let mut res: Vec<(Vec<u8>, Json)> = Vec::new();
    res.push((("listChanged").as_bytes_vec(), Json::Bool(false)));
    proof {
        crate::json::lemma_vobj(res@);
        assert(crate::json::vobj(res@) =~= seq![
            (("listChanged").spec_bytes(), JsonV::Bool(false)),
        ]);
    }
    let res_cap = Json::Obj(res);
    let ghost resv = res_cap@;

    let mut caps: Vec<(Vec<u8>, Json)> = Vec::new();
    caps.push((("tools").as_bytes_vec(), tools_cap));
    caps.push((("resources").as_bytes_vec(), res_cap));
    proof {
        crate::json::lemma_vobj(caps@);
        assert(crate::json::vobj(caps@) =~= seq![
            (("tools").spec_bytes(), toolsv),
            (("resources").spec_bytes(), resv),
        ]);
    }
    let capabilities = Json::Obj(caps);
    let ghost capsv = capabilities@;

    let mut top: Vec<(Vec<u8>, Json)> = Vec::new();
    top.push((("protocolVersion").as_bytes_vec(), Json::Str(("2024-11-05").as_bytes_vec())));
    top.push((("serverInfo").as_bytes_vec(), server_info));
    top.push((("capabilities").as_bytes_vec(), capabilities));
    proof {
        crate::json::lemma_vobj(top@);
        assert(infov == spec_initialize_result()->Obj_0[1].1);
        assert(toolsv == spec_initialize_result()->Obj_0[2].1->Obj_0[0].1);
        assert(resv == spec_initialize_result()->Obj_0[2].1->Obj_0[1].1);
        assert(capsv == spec_initialize_result()->Obj_0[2].1);
        assert(crate::json::vobj(top@) =~= spec_initialize_result()->Obj_0);
    }
    Json::Obj(top)
}

pub fn tools_list_result() -> (r: Json)
    ensures
        r@ == spec_tools_list_result(),
{
    let def = tool_definition();
    let ghost defv = def@;
    let mut arr: Vec<Json> = Vec::new();
    arr.push(def);
    proof {
        crate::json::lemma_varr(arr@);
        assert(crate::json::varr(arr@) =~= seq![defv]);
    }
    let mut top: Vec<(Vec<u8>, Json)> = Vec::new();
    top.push((("tools").as_bytes_vec(), Json::Arr(arr)));
    proof {
        crate::json::lemma_vobj(top@);
        assert(crate::json::vobj(top@) =~= seq![
            (("tools").spec_bytes(), JsonV::Arr(seq![defv])),
        ]);
    }
    Json::Obj(top)
}

/// The handlers that need outside work before the server can answer.
#[derive(Clone, Copy, Debug, PartialEq, Eq, Structural)]
pub enum HandlerKind {
    AwGetState,
    NowframeBuild,
    SystemHealth,
    ScreenCapture,
    ScreenParse,
    ScreenBundle,
    ToolsCallBundle,
    ResourceRead,
}

/// What one message leads to, mathematically.
pub enum OutcomeV {
    /// No bytes leave the server.
    Silent,
    /// This response is written at once.
    Reply(JsonV),
    /// A handler must run on `params`; a reply is owed exactly when
    /// `reply_to` carries the request id.
    Invoke { kind: HandlerKind, params: JsonV, reply_to: Option<JsonV> },
}

pub enum Outcome {
    Silent,
    Reply(Json),
    Invoke { kind: HandlerKind, params: Json, reply_to: Option<Json> },
}

impl View for Outcome {
    type V = OutcomeV;

    open spec fn view(&self) -> OutcomeV {
        match self {
            Outcome::Silent => OutcomeV::Silent,
            Outcome::Reply(j) => OutcomeV::Reply(j@),
            Outcome::Invoke { kind, params, reply_to } => OutcomeV::Invoke {
                kind: *kind,
                params: params@,
                reply_to: match reply_to {
                    Some(j) => Some(j@),
                    None => None,
                },
            },
        }
    }
}

/// One dispatched message: its outcome and the lifecycle flags it set.
pub struct Step {
    pub outcome: Outcome,
    pub shutdown: bool,
    pub exit: bool,
}

pub open spec fn spec_unknown_method_msg(method: Seq<u8>) -> Seq<u8> {
    ("unknown method: ").spec_bytes() + method
}

/// The whole routing table: what `dispatch` does with a parsed message.
pub open spec fn spec_dispatch(m: JsonV, token: Option<Vec<u8>>) -> (OutcomeV, bool, bool) {
    let id = spec_id_or_null(m);
    let notif = spec_is_notification(m);
    if !spec_auth_ok(m, token) {
        if notif {
            (OutcomeV::Silent, false, false)
        } else {
            (
                OutcomeV::Reply(
                    spec_error_response(id, -32001, ("unauthorized").spec_bytes()),
                ),
                false,
                false,
            )
        }
    } else {
        let method = spec_method(m);
        let params = spec_params(m);
        if method == ("notifications/initialized").spec_bytes() {
            (OutcomeV::Silent, false, false)
        } else if method == ("ping").spec_bytes() {
            if notif {
                (OutcomeV::Silent, false, false)
            } else {
                (OutcomeV::Reply(spec_result_response(id, JsonV::Obj(Seq::empty()))), false, false)
            }
        } else if method == ("initialize").spec_bytes() {
            if notif {
                (OutcomeV::Silent, false, false)
            } else {
                (OutcomeV::Reply(spec_result_response(id, spec_initialize_result())), false, false)
            }
        } else if method == ("shutdown").spec_bytes() {
            if notif {
                (OutcomeV::Silent, true, false)
            } else {
                (OutcomeV::Reply(spec_result_response(id, JsonV::Null)), true, false)
            }
        } else if method == ("exit").spec_bytes() {
            if notif {
                (OutcomeV::Silent, false, true)
            } else {
                (OutcomeV::Reply(spec_result_response(id, JsonV::Null)), false, true)
            }
        } else if method == ("tools/list").spec_bytes() {
            if notif {
                (OutcomeV::Silent, false, false)
            } else {
                (OutcomeV::Reply(spec_result_response(id, spec_tools_list_result())), false, false)
            }
        } else if method == ("tools/call").spec_bytes() {
            if notif {
                (OutcomeV::Silent, false, false)
            } else {
                let name = match spec_as_str(spec_get(params, ("name").spec_bytes())) {
                    Some(s) => s,
                    None => Seq::empty(),
                };
                let args = match spec_get(params, ("arguments").spec_bytes()) {
                    Some(a) => a,
                    None => JsonV::Null,
                };
                if name != ("screen.bundle").spec_bytes() {
                    (
                        OutcomeV::Reply(
                            spec_error_response(id, -32601, ("unknown tool").spec_bytes()),
                        ),
                        false,
                        false,
                    )
                } else {
                    (
                        OutcomeV::Invoke {
                            kind: HandlerKind::ToolsCallBundle,
                            params: args,
                            reply_to: Some(id),
                        },
                        false,
                        false,
                    )
                }
            }
        } else if method == ("resources/read").spec_bytes() || method == (
        "resource.read").spec_bytes() {
            if notif {
                (OutcomeV::Silent, false, false)
            } else {
                (
                    OutcomeV::Invoke {
                        kind: HandlerKind::ResourceRead,
                        params: params,
                        reply_to: Some(id),
                    },
                    false,
                    false,
                )
            }
        } else if method == ("aw.get_state").spec_bytes() {
            (spec_invoke(HandlerKind::AwGetState, params, notif, id), false, false)
        } else if method == ("nowframe.build").spec_bytes() {
            (spec_invoke(HandlerKind::NowframeBuild, params, notif, id), false, false)
        } else if method == ("system.health").spec_bytes() {
            (spec_invoke(HandlerKind::SystemHealth, params, notif, id), false, false)
        } else if method == ("screen.capture").spec_bytes() {
            (spec_invoke(HandlerKind::ScreenCapture, params, notif, id), false, false)
        } else if method == ("screen.parse").spec_bytes() {
            (spec_invoke(HandlerKind::ScreenParse, params, notif, id), false, false)
        } else if method == ("screen.bundle").spec_bytes() {
            (spec_invoke(HandlerKind::ScreenBundle, params, notif, id), false, false)
        } else {
            if notif {
                (OutcomeV::Silent, false, false)
            } else {
                (
                    OutcomeV::Reply(
                        spec_error_response(id, -32601, spec_unknown_method_msg(method)),
                    ),
                    false,
                    false,
                )
            }
        }
    }
}

/// A legacy handler runs even for a notification; only the reply is
/// withheld then.
pub open spec fn spec_invoke(kind: HandlerKind, params: JsonV, notif: bool, id: JsonV) -> OutcomeV {
    OutcomeV::Invoke {
        kind: kind,
        params: params,
        reply_to: if notif {
            None
        } else {
            Some(id)
        },
    }
}

/// Routes one authenticated-or-not message, as `spec_dispatch` says.
pub fn dispatch(msg: &Json, auth: &AuthCfg) -> (r: Step)
    ensures
        (r.outcome@, r.shutdown, r.exit) == spec_dispatch(msg@, auth.token),
{
    let notif = msg.get(("id").as_bytes_vec().as_slice()).is_none();
    let id: Json = match msg.get(("id").as_bytes_vec().as_slice()) {
        Some(v) => crate::json::json_clone(v),
        None => Json::Null,
    };
    if !validate_auth(msg, auth) {
        if notif {
            return Step { outcome: Outcome::Silent, shutdown: false, exit: false };
        }
        let reply = error_response(id, -32001, ("unauthorized").as_bytes_vec());
        return Step { outcome: Outcome::Reply(reply), shutdown: false, exit: false };
    }
    let method: Vec<u8> = match msg.get(("method").as_bytes_vec().as_slice()) {
        Some(v) => match v.as_str() {
            Some(s) => crate::bytes::bytes_clone(s.as_slice()),
            None => Vec::new(),
        },
        None => Vec::new(),
    };
    proof {
        assert(method@ == spec_method(msg@));
    }
    let params: Json = match msg.get(("params").as_bytes_vec().as_slice()) {
        Some(p) => crate::json::json_clone(p),
        None => Json::Null,
    };
    let mb = method.as_slice();
    if crate::bytes::bytes_eq(mb, ("notifications/initialized").as_bytes_vec().as_slice()) {
        Step { outcome: Outcome::Silent, shutdown: false, exit: false }
    } else if crate::bytes::bytes_eq(mb, ("ping").as_bytes_vec().as_slice()) {
        if notif {
            Step { outcome: Outcome::Silent, shutdown: false, exit: false }
        } else {
            let empty: Vec<(Vec<u8>, Json)> = Vec::new();
            proof {
                crate::json::lemma_vobj(empty@);
                assert(crate::json::vobj(empty@) =~= Seq::<(Seq<u8>, JsonV)>::empty());
            }
            let reply = result_response(id, Json::Obj(empty));
            Step { outcome: Outcome::Reply(reply), shutdown: false, exit: false }
        }
    } else if crate::bytes::bytes_eq(mb, ("initialize").as_bytes_vec().as_slice()) {
        if notif {
            Step { outcome: Outcome::Silent, shutdown: false, exit: false }
        } else {
            let reply = result_response(id, initialize_result());
            Step { outcome: Outcome::Reply(reply), shutdown: false, exit: false }
        }
    } else if crate::bytes::bytes_eq(mb, ("shutdown").as_bytes_vec().as_slice()) {
        if notif {
            Step { outcome: Outcome::Silent, shutdown: true, exit: false }
        } else {
            let reply = result_response(id, Json::Null);
            Step { outcome: Outcome::Reply(reply), shutdown: true, exit: false }
        }
    } else if crate::bytes::bytes_eq(mb, ("exit").as_bytes_vec().as_slice()) {
        if notif {
            Step { outcome: Outcome::Silent, shutdown: false, exit: true }
        } else {
            let reply = result_response(id, Json::Null);
            Step { outcome: Outcome::Reply(reply), shutdown: false, exit: true }
        }
    } else if crate::bytes::bytes_eq(mb, ("tools/list").as_bytes_vec().as_slice()) {
        if notif {
            Step { outcome: Outcome::Silent, shutdown: false, exit: false }
        } else {
            let reply = result_response(id, tools_list_result());
            Step { outcome: Outcome::Reply(reply), shutdown: false, exit: false }
        }
    } else if crate::bytes::bytes_eq(mb, ("tools/call").as_bytes_vec().as_slice()) {
        if notif {
            Step { outcome: Outcome::Silent, shutdown: false, exit: false }
        } else {
            let name: Vec<u8> = match params.get(("name").as_bytes_vec().as_slice()) {
                Some(v) => match v.as_str() {
                    Some(s) => crate::bytes::bytes_clone(s.as_slice()),
                    None => Vec::new(),
                },
                None => Vec::new(),
            };
            let args: Json = match params.get(("arguments").as_bytes_vec().as_slice()) {
                Some(a) => crate::json::json_clone(a),
                None => Json::Null,
            };
            if !crate::bytes::bytes_eq(
                name.as_slice(),
                ("screen.bundle").as_bytes_vec().as_slice(),
            ) {
                let reply = error_response(id, -32601, ("unknown tool").as_bytes_vec());
                Step { outcome: Outcome::Reply(reply), shutdown: false, exit: false }
            } else {
                Step {
                    outcome: Outcome::Invoke {
                        kind: HandlerKind::ToolsCallBundle,
                        params: args,
                        reply_to: Some(id),
                    },
                    shutdown: false,
                    exit: false,
                }
            }
        }
    } else if crate::bytes::bytes_eq(mb, ("resources/read").as_bytes_vec().as_slice())
        || crate::bytes::bytes_eq(mb, ("resource.read").as_bytes_vec().as_slice()) {
        if notif {
            Step { outcome: Outcome::Silent, shutdown: false, exit: false }
        } else {
            Step {
                outcome: Outcome::Invoke {
                    kind: HandlerKind::ResourceRead,
                    params: params,
                    reply_to: Some(id),
                },
                shutdown: false,
                exit: false,
            }
        }
    } else if crate::bytes::bytes_eq(mb, ("aw.get_state").as_bytes_vec().as_slice()) {
        Step { outcome: invoke(HandlerKind::AwGetState, params, notif, id), shutdown: false, exit: false }
    } else if crate::bytes::bytes_eq(mb, ("nowframe.build").as_bytes_vec().as_slice()) {
        Step { outcome: invoke(HandlerKind::NowframeBuild, params, notif, id), shutdown: false, exit: false }
    } else if crate::bytes::bytes_eq(mb, ("system.health").as_bytes_vec().as_slice()) {
        Step { outcome: invoke(HandlerKind::SystemHealth, params, notif, id), shutdown: false, exit: false }
    } else if crate::bytes::bytes_eq(mb, ("screen.capture").as_bytes_vec().as_slice()) {
        Step { outcome: invoke(HandlerKind::ScreenCapture, params, notif, id), shutdown: false, exit: false }
    } else if crate::bytes::bytes_eq(mb, ("screen.parse").as_bytes_vec().as_slice()) {
        Step { outcome: invoke(HandlerKind::ScreenParse, params, notif, id), shutdown: false, exit: false }
    } else if crate::bytes::bytes_eq(mb, ("screen.bundle").as_bytes_vec().as_slice()) {
        Step { outcome: invoke(HandlerKind::ScreenBundle, params, notif, id), shutdown: false, exit: false }
    } else {
        if notif {
            Step { outcome: Outcome::Silent, shutdown: false, exit: false }
        } else {
            let mut text = ("unknown method: ").as_bytes_vec();
            crate::bytes::push_all(&mut text, method.as_slice());
            let reply = error_response(id, -32601, text);
            Step { outcome: Outcome::Reply(reply), shutdown: false, exit: false }
        }
    }
}

fn invoke(kind: HandlerKind, params: Json, notif: bool, id: Json) -> (r: Outcome)
    ensures
        r@ == spec_invoke(kind, params@, notif, id@),
{
    Outcome::Invoke {
        kind: kind,
        params: params,
        reply_to: if notif {
            None
        } else {
            Some(id)
        },
    }
}

/// The envelope owed once a handler has run.
pub open spec fn spec_finish(kind: HandlerKind, id: JsonV, result: Result<JsonV, Seq<u8>>) -> JsonV {
    match result {
        Err(e) => spec_error_response(id, -32000, e),
        Ok(v) => if kind == HandlerKind::ToolsCallBundle {
            spec_result_response(
                id,
                JsonV::Obj(
                    seq![
                        (
                            ("content").spec_bytes(),
                            JsonV::Arr(
                                seq![
                                    JsonV::Obj(
                                        seq![
                                            (
                                                ("type").spec_bytes(),
                                                JsonV::Str(("text").spec_bytes()),
                                            ),
                                            (
                                                ("text").spec_bytes(),
                                                JsonV::Str(crate::ser::jser(v)),
                                            ),
                                        ],
                                    ),
                                ],
                            ),
                        ),
                        (("isError").spec_bytes(), JsonV::Bool(false)),
                    ],
                ),
            )
        } else {
            spec_result_response(id, v)
        },
    }
}

/// Wraps a handler's outcome for the request it answers.
pub fn finish_handler(kind: HandlerKind, id: Json, result: Result<Json, Vec<u8>>) -> (r: Json)
    ensures
        r@ == spec_finish(
            kind,
            id@,
            match result {
                Ok(v) => Ok(v@),
                Err(e) => Err(e@),
            },
        ),
{
    match result {
        Err(e) => error_response(id, -32000, e),
        Ok(v) => {
            if kind == HandlerKind::ToolsCallBundle {
                let ghost vv = v@;
                let text = crate::ser::json_to_bytes(&v);
                let mut item: Vec<(Vec<u8>, Json)> = Vec::new();
                item.push((("type").as_bytes_vec(), Json::Str(("text").as_bytes_vec())));
                item.push((("text").as_bytes_vec(), Json::Str(text)));
                proof {
                    crate::json::lemma_vobj(item@);
                    assert(crate::json::vobj(item@) =~= seq![
                        (("type").spec_bytes(), JsonV::Str(("text").spec_bytes())),
                        (("text").spec_bytes(), JsonV::Str(crate::ser::jser(vv))),
                    ]);
                }
                let obj = Json::Obj(item);
                let ghost objv = obj@;
                let mut arr: Vec<Json> = Vec::new();
                arr.push(obj);
                proof {
                    crate::json::lemma_varr(arr@);
                    assert(crate::json::varr(arr@) =~= seq![objv]);
                }
                let mut wrap: Vec<(Vec<u8>, Json)> = Vec::new();
                wrap.push((("content").as_bytes_vec(), Json::Arr(arr)));
                wrap.push((("isError").as_bytes_vec(), Json::Bool(false)));
                proof {
                    crate::json::lemma_vobj(wrap@);
                    assert(crate::json::vobj(wrap@) =~= seq![
                        (("content").spec_bytes(), JsonV::Arr(seq![objv])),
                        (("isError").spec_bytes(), JsonV::Bool(false)),
                    ]);
                }
                result_response(id, Json::Obj(wrap))
            } else {
                result_response(id, v)
            }
        },
    }
}

/// The envelope keys differ from each other, so looking an id up in a
/// response steps past the version field.
pub proof fn lemma_envelope_keys()
    ensures
        ("jsonrpc").spec_bytes() != ("id").spec_bytes(),
        ("jsonrpc").spec_bytes() != ("result").spec_bytes(),
        ("jsonrpc").spec_bytes() != ("error").spec_bytes(),
{
    reveal_strlit("jsonrpc");
    reveal_strlit("id");
    reveal_strlit("result");
    reveal_strlit("error");
    assert(vstd::utf8::is_ascii_chars(("jsonrpc")@));
    assert(vstd::utf8::is_ascii_chars(("id")@));
    assert(vstd::utf8::is_ascii_chars(("result")@));
    assert(vstd::utf8::is_ascii_chars(("error")@));
    vstd::utf8::is_ascii_chars_encode_utf8(("jsonrpc")@);
    vstd::utf8::is_ascii_chars_encode_utf8(("id")@);
    vstd::utf8::is_ascii_chars_encode_utf8(("result")@);
    vstd::utf8::is_ascii_chars_encode_utf8(("error")@);
    assert(("jsonrpc").spec_bytes().len() == 7);
    assert(("id").spec_bytes().len() == 2);
    assert(("result").spec_bytes().len() == 6);
    assert(("error").spec_bytes().len() == 5);
}

/// An error envelope carries the id it was built with.
pub broadcast proof fn lemma_error_response_id(id: JsonV, code: int, msg: Seq<u8>)
    ensures
        spec_get(#[trigger] spec_error_response(id, code, msg), ("id").spec_bytes()) == Some(id),
{
    lemma_envelope_keys();
    let e = spec_error_response(id, code, msg)->Obj_0;
    assert(e.subrange(1, 3)[0] == e[1]);
    assert(crate::json::entries_get(e, ("id").spec_bytes()) == crate::json::entries_get(
        e.subrange(1, 3),
        ("id").spec_bytes(),
    ));
}

/// A success envelope carries the id it was built with.
pub broadcast proof fn lemma_result_response_id(id: JsonV, result: JsonV)
    ensures
        spec_get(#[trigger] spec_result_response(id, result), ("id").spec_bytes()) == Some(id),
{
    lemma_envelope_keys();
    let r = spec_result_response(id, result)->Obj_0;
    assert(r.subrange(1, 3)[0] == r[1]);
    assert(crate::json::entries_get(r, ("id").spec_bytes()) == crate::json::entries_get(
        r.subrange(1, 3),
        ("id").spec_bytes(),
    ));
}

/// Law: a notification — a message without an id — never produces a
/// response, whatever its method does, succeeds at, or fails at: the
/// dispatcher either stays silent or runs the handler with no reply
/// owed.
pub proof fn lemma_notification_silent(m: JsonV, token: Option<Vec<u8>>)
    requires
        spec_is_notification(m),
    ensures
        match spec_dispatch(m, token).0 {
            OutcomeV::Silent => true,
            OutcomeV::Invoke { reply_to, .. } => reply_to is None,
            OutcomeV::Reply(_) => false,
        },
{
}

/// Law: a request — a message with an id — is answered exactly once,
/// and under its own id: either the dispatcher replies at once with an
/// envelope carrying that id, or it owes the handler's reply to that id
/// and `spec_finish` then carries it, whatever the handler returned.
/// The one fire-and-forget method, `notifications/initialized`, is the
/// only request the server never answers.
#[verifier::rlimit(50)]
pub proof fn lemma_request_answered_once(m: JsonV, token: Option<Vec<u8>>, id: JsonV)
    requires
        spec_msg_id(m) == Some(id),
    ensures
        match spec_dispatch(m, token).0 {
            OutcomeV::Silent => spec_method(m) == ("notifications/initialized").spec_bytes(),
            OutcomeV::Reply(r) => spec_get(r, ("id").spec_bytes()) == Some(id),
            OutcomeV::Invoke { kind, reply_to, .. } => reply_to == Some(id) && forall|
                result: Result<JsonV, Seq<u8>>,
            |
                spec_get(#[trigger] spec_finish(kind, id, result), ("id").spec_bytes()) == Some(
                    id,
                ),
        },
{
    broadcast use lemma_error_response_id, lemma_result_response_id;

}

/// Law: with the shared secret set, a message that lacks or mismatches
/// the token is answered with the unauthorized error (for a request,
/// under its id) or dropped (for a notification) — and no handler is
/// ever invoked, so nothing it guards can change.
pub proof fn lemma_auth_gate(m: JsonV, token: Option<Vec<u8>>)
    requires
        spec_auth_required(token),
        !spec_auth_ok(m, token),
    ensures
        !(spec_dispatch(m, token).0 is Invoke),
        spec_dispatch(m, token).1 == false && spec_dispatch(m, token).2 == false,
        spec_is_notification(m) ==> spec_dispatch(m, token).0 == OutcomeV::Silent,
        !spec_is_notification(m) ==> spec_dispatch(m, token).0 == OutcomeV::Reply(
            spec_error_response(spec_id_or_null(m), -32001, ("unauthorized").spec_bytes()),
        ),
{
}

/// Law: an unknown method on a request is answered with code -32601 and
/// a message that carries the offending method name; the same method on
/// a notification produces no output.
pub proof fn lemma_unknown_method(m: JsonV, token: Option<Vec<u8>>)
    requires
        spec_auth_ok(m, token),
        spec_method(m) != ("notifications/initialized").spec_bytes(),
        spec_method(m) != ("ping").spec_bytes(),
        spec_method(m) != ("initialize").spec_bytes(),
        spec_method(m) != ("shutdown").spec_bytes(),
        spec_method(m) != ("exit").spec_bytes(),
        spec_method(m) != ("tools/list").spec_bytes(),
        spec_method(m) != ("tools/call").spec_bytes(),
        spec_method(m) != ("resources/read").spec_bytes(),
        spec_method(m) != ("resource.read").spec_bytes(),
        spec_method(m) != ("aw.get_state").spec_bytes(),
        spec_method(m) != ("nowframe.build").spec_bytes(),
        spec_method(m) != ("system.health").spec_bytes(),
        spec_method(m) != ("screen.capture").spec_bytes(),
        spec_method(m) != ("screen.parse").spec_bytes(),
        spec_method(m) != ("screen.bundle").spec_bytes(),
    ensures
        spec_is_notification(m) ==> spec_dispatch(m, token).0 == OutcomeV::Silent,
        !spec_is_notification(m) ==> spec_dispatch(m, token).0 == OutcomeV::Reply(
            spec_error_response(
                spec_id_or_null(m),
                -32601,
                spec_unknown_method_msg(spec_method(m)),
            ),
        ),
{
}

} // verus!
