use aw_omni_mcp::codec::{read_frame, write_frame, write_response, WireMode};
use aw_omni_mcp::json::Json;
use aw_omni_mcp::parse::parse_json;
use aw_omni_mcp::rpc::{
    dispatch, finish_handler, parse_error_response, AuthCfg, HandlerKind, Outcome,
};
use aw_omni_mcp::ser::json_to_bytes;

fn b(x: &str) -> Vec<u8> {
    x.as_bytes().to_vec()
}

fn jstr(x: &str) -> Json {
    Json::Str(b(x))
}

fn obj(entries: Vec<(&str, Json)>) -> Json {
    Json::Obj(entries.into_iter().map(|(k, v)| (b(k), v)).collect())
}

fn get<'a>(j: &'a Json, key: &str) -> Option<&'a Json> {
    j.get(key.as_bytes())
}

fn no_auth() -> AuthCfg {
    AuthCfg { token: None }
}

fn request(id: i64, method: &str) -> Json {
    obj(vec![
        ("jsonrpc", jstr("2.0")),
        ("id", Json::Num(id * 1000)),
        ("method", jstr(method)),
    ])
}

fn notification(method: &str) -> Json {
    obj(vec![("jsonrpc", jstr("2.0")), ("method", jstr(method))])
}

fn error_code(response: &Json) -> i64 {
    match get(get(response, "error").expect("error member"), "code").expect("code member") {
        Json::Num(m) => m / 1000,
        _ => panic!("code is not a number"),
    }
}

fn error_message(response: &Json) -> Vec<u8> {
    match get(get(response, "error").expect("error member"), "message").expect("message member") {
        Json::Str(s) => s.clone(),
        _ => panic!("message is not a string"),
    }
}

#[test]
fn header_frame_round_trips_byte_identical() {
    let payload = br#"{"jsonrpc":"2.0","id":1,"method":"ping"}"#.to_vec();
    let framed = write_frame(&payload, WireMode::ContentLength);
    let (got, mode, end) = read_frame(&framed, 0).expect("a frame");
    assert_eq!(got, payload);
    assert_eq!(mode, WireMode::ContentLength);
    assert_eq!(end, framed.len());
}

#[test]
fn header_frame_round_trips_binary_payload() {
    let payload: Vec<u8> = vec![0, 1, 2, 10, 13, 255, 128, 10, 10];
    let framed = write_frame(&payload, WireMode::ContentLength);
    let (got, mode, _) = read_frame(&framed, 0).expect("a frame");
    assert_eq!(got, payload);
    assert_eq!(mode, WireMode::ContentLength);
}

#[test]
fn line_frame_round_trips_with_only_a_newline_added() {
    let payload = br#"{"id":null,"method":"x"}"#.to_vec();
    let framed = write_frame(&payload, WireMode::LineJson);
    assert_eq!(framed.len(), payload.len() + 1);
    assert_eq!(framed[framed.len() - 1], b'\n');
    let (got, mode, end) = read_frame(&framed, 0).expect("a frame");
    assert_eq!(got, payload);
    assert_eq!(mode, WireMode::LineJson);
    assert_eq!(end, framed.len());
}

#[test]
fn reader_skips_unrecognized_lines() {
    let input = b"hello there\n\n{\"a\":1}\n".to_vec();
    let (got, mode, _) = read_frame(&input, 0).expect("a frame");
    assert_eq!(got, b"{\"a\":1}".to_vec());
    assert_eq!(mode, WireMode::LineJson);
}

#[test]
fn reader_accepts_headers_case_insensitively() {
    let input = b"content-LENGTH: 5\r\n\r\nhello".to_vec();
    let (got, mode, _) = read_frame(&input, 0).expect("a frame");
    assert_eq!(got, b"hello".to_vec());
    assert_eq!(mode, WireMode::ContentLength);
}

#[test]
fn reader_discards_header_block_without_length() {
    let input = b"Content-Type: application/json\r\n\r\n{\"a\":1}\n".to_vec();
    let (got, mode, _) = read_frame(&input, 0).expect("a frame");
    assert_eq!(got, b"{\"a\":1}".to_vec());
    assert_eq!(mode, WireMode::LineJson);
}

#[test]
fn reader_reports_end_of_stream() {
    assert!(read_frame(&Vec::new(), 0).is_none());
    let truncated = b"Content-Length: 10\r\n\r\nabc".to_vec();
    assert!(read_frame(&truncated, 0).is_none());
    let eof_in_headers = b"Content-Length: 3\r\n".to_vec();
    assert!(read_frame(&eof_in_headers, 0).is_none());
}

#[test]
fn reader_takes_the_last_parsable_length() {
    let input = b"Content-Length: zzz\r\nContent-Length: 2\r\n\r\nhi".to_vec();
    let (got, _, _) = read_frame(&input, 0).expect("a frame");
    assert_eq!(got, b"hi".to_vec());
}

#[test]
fn write_response_frames_the_serialized_document() {
    let response = obj(vec![("jsonrpc", jstr("2.0"))]);
    let bytes = write_response(&response, WireMode::ContentLength);
    let text = String::from_utf8(bytes).expect("utf8");
    assert_eq!(text, "Content-Length: 17\r\n\r\n{\"jsonrpc\":\"2.0\"}");
}

#[test]
fn ping_request_gets_an_empty_result_under_its_id() {
    let step = dispatch(&request(1, "ping"), &no_auth());
    assert!(!step.shutdown && !step.exit);
    match step.outcome {
        Outcome::Reply(r) => {
            assert!(matches!(get(&r, "id"), Some(Json::Num(1000))));
            assert!(matches!(get(&r, "result"), Some(Json::Obj(e)) if e.is_empty()));
        },
        _ => panic!("expected an immediate reply"),
    }
}

#[test]
fn notifications_never_produce_output() {
    for method in ["ping", "initialize", "tools/list", "tools/call", "resources/read", "nope"] {
        let step = dispatch(&notification(method), &no_auth());
        assert!(matches!(step.outcome, Outcome::Silent), "method {method}");
    }
    // a legacy handler still runs for a notification, but owes no reply
    let step = dispatch(&notification("aw.get_state"), &no_auth());
    match step.outcome {
        Outcome::Invoke { reply_to, kind, .. } => {
            assert!(reply_to.is_none());
            assert_eq!(kind, HandlerKind::AwGetState);
        },
        _ => panic!("expected the handler to run"),
    }
}

#[test]
fn initialized_notification_is_fire_and_forget_even_with_id() {
    let step = dispatch(&request(5, "notifications/initialized"), &no_auth());
    assert!(matches!(step.outcome, Outcome::Silent));
}

#[test]
fn unknown_method_names_the_offender() {
    let step = dispatch(&request(7, "bogus/method"), &no_auth());
    match step.outcome {
        Outcome::Reply(r) => {
            assert!(matches!(get(&r, "id"), Some(Json::Num(7000))));
            assert_eq!(error_code(&r), -32601);
            assert_eq!(error_message(&r), b"unknown method: bogus/method".to_vec());
        },
        _ => panic!("expected an error reply"),
    }
    let silent = dispatch(&notification("bogus/method"), &no_auth());
    assert!(matches!(silent.outcome, Outcome::Silent));
}

#[test]
fn auth_gate_rejects_before_any_handler() {
    let auth = AuthCfg { token: Some(b("secret")) };
    // a request without the token is refused with -32001
    let step = dispatch(&request(3, "screen.bundle"), &auth);
    match step.outcome {
        Outcome::Reply(r) => {
            assert_eq!(error_code(&r), -32001);
            assert_eq!(error_message(&r), b"unauthorized".to_vec());
            assert!(matches!(get(&r, "id"), Some(Json::Num(3000))));
        },
        Outcome::Invoke { .. } => panic!("the handler must never be invoked"),
        Outcome::Silent => panic!("a request must be answered"),
    }
    // a mismatching token fares no better
    let mut msg = request(3, "screen.bundle");
    if let Json::Obj(ref mut e) = msg {
        e.push((b("auth_token"), jstr("wrong")));
    }
    let step = dispatch(&msg, &auth);
    assert!(matches!(step.outcome, Outcome::Reply(_)));
    // an unauthenticated notification is dropped silently
    let step = dispatch(&notification("screen.bundle"), &auth);
    assert!(matches!(step.outcome, Outcome::Silent));
}

#[test]
fn auth_accepts_the_token_at_top_level_or_in_params() {
    let auth = AuthCfg { token: Some(b("secret")) };
    let mut msg = request(4, "ping");
    if let Json::Obj(ref mut e) = msg {
        e.push((b("auth_token"), jstr("secret")));
    }
    assert!(matches!(dispatch(&msg, &auth).outcome, Outcome::Reply(_)));

    let msg = obj(vec![
        ("id", Json::Num(4000)),
        ("method", jstr("ping")),
        ("params", obj(vec![("auth_token", jstr("secret"))])),
    ]);
    let step = dispatch(&msg, &auth);
    match step.outcome {
        Outcome::Reply(r) => assert!(get(&r, "result").is_some()),
        _ => panic!("expected a reply"),
    }
}

#[test]
fn blank_configured_token_disables_the_gate() {
    let auth = AuthCfg { token: Some(b("   ")) };
    assert!(matches!(dispatch(&request(1, "ping"), &auth).outcome, Outcome::Reply(_)));
}

#[test]
fn shutdown_and_exit_set_their_flags() {
    let step = dispatch(&request(1, "shutdown"), &no_auth());
    assert!(step.shutdown && !step.exit);
    assert!(matches!(step.outcome, Outcome::Reply(_)));
    let step = dispatch(&request(2, "exit"), &no_auth());
    assert!(!step.shutdown && step.exit);
    let step = dispatch(&notification("exit"), &no_auth());
    assert!(step.exit);
    assert!(matches!(step.outcome, Outcome::Silent));
}

#[test]
fn tools_list_advertises_the_bundle_tool() {
    let step = dispatch(&request(1, "tools/list"), &no_auth());
    match step.outcome {
        Outcome::Reply(r) => {
            let tools = get(get(&r, "result").unwrap(), "tools").unwrap();
            match tools {
                Json::Arr(items) => {
                    assert_eq!(items.len(), 1);
                    assert!(matches!(get(&items[0], "name"), Some(Json::Str(s)) if s == b"screen.bundle"));
                },
                _ => panic!("tools is not an array"),
            }
        },
        _ => panic!("expected a reply"),
    }
}

#[test]
fn tools_call_routes_only_the_known_tool() {
    let msg = obj(vec![
        ("id", Json::Num(9000)),
        ("method", jstr("tools/call")),
        ("params", obj(vec![("name", jstr("other.tool"))])),
    ]);
    let step = dispatch(&msg, &no_auth());
    match step.outcome {
        Outcome::Reply(r) => {
            assert_eq!(error_code(&r), -32601);
            assert_eq!(error_message(&r), b"unknown tool".to_vec());
        },
        _ => panic!("expected an error reply"),
    }
    let msg = obj(vec![
        ("id", Json::Num(9000)),
        ("method", jstr("tools/call")),
        (
            "params",
            obj(vec![
                ("name", jstr("screen.bundle")),
                ("arguments", obj(vec![("mode", jstr("full"))])),
            ]),
        ),
    ]);
    let step = dispatch(&msg, &no_auth());
    match step.outcome {
        Outcome::Invoke { kind, params, reply_to } => {
            assert_eq!(kind, HandlerKind::ToolsCallBundle);
            assert!(matches!(get(&params, "mode"), Some(Json::Str(s)) if s == b"full"));
            assert!(matches!(reply_to, Some(Json::Num(9000))));
        },
        _ => panic!("expected a handler invocation"),
    }
}

#[test]
fn legacy_methods_invoke_their_handlers() {
    let cases = [
        ("aw.get_state", HandlerKind::AwGetState),
        ("nowframe.build", HandlerKind::NowframeBuild),
        ("system.health", HandlerKind::SystemHealth),
        ("screen.capture", HandlerKind::ScreenCapture),
        ("screen.parse", HandlerKind::ScreenParse),
        ("screen.bundle", HandlerKind::ScreenBundle),
    ];
    for (method, kind) in cases {
        let step = dispatch(&request(2, method), &no_auth());
        match step.outcome {
            Outcome::Invoke { kind: k, reply_to, .. } => {
                assert_eq!(k, kind, "method {method}");
                assert!(matches!(reply_to, Some(Json::Num(2000))));
            },
            _ => panic!("expected a handler invocation for {method}"),
        }
    }
}

#[test]
fn finish_wraps_tool_results_as_text_content() {
    let r = finish_handler(HandlerKind::ToolsCallBundle, Json::Num(1000), Ok(Json::Num(2000)));
    let result = get(&r, "result").expect("result member");
    assert!(matches!(get(result, "isError"), Some(Json::Bool(false))));
    let content = match get(result, "content").expect("content") {
        Json::Arr(items) => items,
        _ => panic!("content is not an array"),
    };
    assert!(matches!(get(&content[0], "type"), Some(Json::Str(s)) if s == b"text"));
    assert!(matches!(get(&content[0], "text"), Some(Json::Str(s)) if s == b"2"));
}

#[test]
fn finish_reports_handler_failures_as_32000() {
    let r = finish_handler(HandlerKind::ScreenBundle, Json::Num(5000), Err(b("boom")));
    assert_eq!(error_code(&r), -32000);
    assert_eq!(error_message(&r), b"boom".to_vec());
    assert!(matches!(get(&r, "id"), Some(Json::Num(5000))));
}

#[test]
fn finish_passes_plain_results_through() {
    let r = finish_handler(HandlerKind::SystemHealth, Json::Null, Ok(Json::Bool(true)));
    assert!(matches!(get(&r, "result"), Some(Json::Bool(true))));
    assert!(matches!(get(&r, "id"), Some(Json::Null)));
}

#[test]
fn parse_errors_answer_with_32700() {
    let r = parse_error_response();
    assert_eq!(error_code(&r), -32700);
    assert!(matches!(get(&r, "id"), Some(Json::Null)));
}

#[test]
fn a_null_id_still_marks_a_request() {
    let msg = obj(vec![("id", Json::Null), ("method", jstr("ping"))]);
    let step = dispatch(&msg, &no_auth());
    match step.outcome {
        Outcome::Reply(r) => assert!(matches!(get(&r, "id"), Some(Json::Null))),
        _ => panic!("a null id is still an id"),
    }
}

#[test]
fn a_full_request_cycle_over_the_wire() {
    // frame a request, read it back, dispatch it, and frame the reply
    let request_doc = request(42, "ping");
    let framed = write_frame(&json_to_bytes(&request_doc), WireMode::ContentLength);
    let (payload, mode, _) = read_frame(&framed, 0).expect("a frame");
    let reread = parse_json(&payload).expect("the payload parses");
    let step = dispatch(&reread, &no_auth());
    let reply = match step.outcome {
        Outcome::Reply(r) => r,
        _ => panic!("ping must be answered"),
    };
    let out = write_response(&reply, mode);
    let text = String::from_utf8(out).expect("utf8");
    assert_eq!(
        text,
        "Content-Length: 37\r\n\r\n{\"jsonrpc\":\"2.0\",\"id\":42,\"result\":{}}"
    );
}
