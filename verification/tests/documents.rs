use base64::Engine;

use aw_omni_mcp::bundle::{
    capture_request, decode_base64_image, encode_base64_with_limit, missing_b64_error,
    new_frame_id, parse_outcome, resolve_frame_input, with_b64,
};
use aw_omni_mcp::cache::{latest_from_json, latest_path, latest_to_json, resolve_uri, BundleCache,
    LatestBundle};
use aw_omni_mcp::clients::{parse_payload, AwClient, OmniClient};
use aw_omni_mcp::elements::{
    annotation_plan, element_color, element_has_kind, extract_bbox, Rect, Rgba,
};
use aw_omni_mcp::health::{
    build_nowframe, compare_protect_snapshots, health_report_json, nowframe_json,
    protected_env_status, system_health_json,
};
use aw_omni_mcp::json::{json_eq, Json};
use aw_omni_mcp::parse::parse_json;
use aw_omni_mcp::ser::json_to_bytes;

fn b(x: &str) -> Vec<u8> {
    x.as_bytes().to_vec()
}

fn jstr(x: &str) -> Json {
    Json::Str(b(x))
}

fn obj(entries: Vec<(&str, Json)>) -> Json {
    Json::Obj(entries.into_iter().map(|(k, v)| (b(k), v)).collect())
}

fn num(milli: i64) -> Json {
    Json::Num(milli)
}

fn get<'a>(j: &'a Json, key: &str) -> Option<&'a Json> {
    j.get(key.as_bytes())
}

#[test]
fn parser_reads_a_small_document() {
    let j = parse_json(br#" {"a": 1, "b": [true, null, "x"]} "#).expect("a document");
    assert!(matches!(get(&j, "a"), Some(Json::Num(1000))));
    match get(&j, "b") {
        Some(Json::Arr(items)) => {
            assert_eq!(items.len(), 3);
            assert!(matches!(items[0], Json::Bool(true)));
            assert!(matches!(items[1], Json::Null));
            assert!(matches!(&items[2], Json::Str(s) if s == b"x"));
        },
        _ => panic!("b is not an array"),
    }
}

#[test]
fn parser_reads_numbers_in_thousandths() {
    let j = parse_json(br#"[0.5, -1.25, 2, 0.0015]"#).expect("a document");
    match j {
        Json::Arr(items) => {
            assert!(matches!(items[0], Json::Num(500)));
            assert!(matches!(items[1], Json::Num(-1250)));
            assert!(matches!(items[2], Json::Num(2000)));
            // the fourth fractional digit is dropped
            assert!(matches!(items[3], Json::Num(1)));
        },
        _ => panic!("not an array"),
    }
    assert_eq!(num(2000).as_int(), Some(2));
    assert_eq!(num(-5000).as_int(), Some(-5));
    assert_eq!(num(1500).as_int(), None);
}

#[test]
fn parser_rejects_what_the_grammar_excludes() {
    assert!(parse_json(b"1e5").is_none());
    assert!(parse_json(b"{}x").is_none());
    assert!(parse_json(b"-").is_none());
    assert!(parse_json(b"1.").is_none());
    assert!(parse_json(b"\"\\q\"").is_none());
    assert!(parse_json(b"[1,]").is_none());
    assert!(parse_json(b"").is_none());
}

#[test]
fn parser_decodes_string_escapes() {
    let j = parse_json(br#""a\nb\t\"\\\u0041""#).expect("a string");
    assert!(matches!(&j, Json::Str(s) if s == b"a\nb\t\"\\A"));
    let j = parse_json(br#""\uD83D\uDE00""#).expect("a string");
    assert!(matches!(&j, Json::Str(s) if s == &vec![0xf0u8, 0x9f, 0x98, 0x80]));
    assert!(parse_json(br#""\uD83D""#).is_none());
}

#[test]
fn serializer_prints_the_canonical_bytes() {
    let doc = obj(vec![
        ("a", num(1000)),
        ("b", jstr("x\"y")),
        ("c", Json::Arr(vec![Json::Bool(false), Json::Null, num(-500)])),
    ]);
    let bytes = json_to_bytes(&doc);
    assert_eq!(
        String::from_utf8(bytes).unwrap(),
        r#"{"a":1,"b":"x\"y","c":[false,null,-0.5]}"#
    );
}

#[test]
fn serializer_escapes_control_bytes() {
    let doc = Json::Str(vec![0x01, b'\n', b'\\']);
    assert_eq!(String::from_utf8(json_to_bytes(&doc)).unwrap(), r#""\u0001\n\\""#);
}

#[test]
fn documents_survive_a_serialize_parse_cycle() {
    let doc = obj(vec![
        ("x", Json::Arr(vec![num(1500), jstr("hi"), Json::Null])),
        ("y", obj(vec![("nested", Json::Bool(true))])),
    ]);
    let reread = parse_json(&json_to_bytes(&doc)).expect("parses back");
    assert!(json_eq(&doc, &reread));
}

#[test]
fn normalized_bbox_scales_with_the_image() {
    let el = obj(vec![(
        "bbox",
        Json::Arr(vec![num(100), num(100), num(500), num(500)]),
    )]);
    let rect = extract_bbox(&el, 1000, 1000).expect("a rectangle");
    assert_eq!(rect, Rect { x: 100, y: 100, w: 400, h: 400 });
}

#[test]
fn pixel_bbox_stays_as_given() {
    let el = obj(vec![(
        "bbox",
        Json::Arr(vec![num(100000), num(100000), num(500000), num(500000)]),
    )]);
    let rect = extract_bbox(&el, 1000, 1000).expect("a rectangle");
    assert_eq!(rect, Rect { x: 100, y: 100, w: 400, h: 400 });
}

#[test]
fn degenerate_and_missing_bboxes() {
    let el = obj(vec![(
        "bbox",
        Json::Arr(vec![num(200000), num(200000), num(200000), num(200000)]),
    )]);
    let rect = extract_bbox(&el, 1000, 1000).expect("a rectangle");
    assert_eq!((rect.w, rect.h), (1, 1));

    assert!(extract_bbox(&obj(vec![]), 1000, 1000).is_none());
    let short = obj(vec![("bbox", Json::Arr(vec![num(1), num(2)]))]);
    assert!(extract_bbox(&short, 1000, 1000).is_none());
    // coordinates clamp into the image
    let wild = obj(vec![(
        "bbox",
        Json::Arr(vec![num(-5000000), num(0), num(9000000), num(2000)]),
    )]);
    let rect = extract_bbox(&wild, 100, 100).expect("a rectangle");
    assert_eq!(rect, Rect { x: 0, y: 0, w: 100, h: 2 });
}

#[test]
fn element_kinds_follow_the_sniffing_rules() {
    let typed = obj(vec![("type", jstr("TEXT"))]);
    assert!(element_has_kind(&typed, b"text"));
    let category = obj(vec![("category", jstr("Big Icons"))]);
    assert!(element_has_kind(&category, b"icon"));
    assert!(!element_has_kind(&category, b"text"));
    let content = obj(vec![("content", jstr("hello"))]);
    assert!(element_has_kind(&content, b"text"));
    let blank = obj(vec![("content", jstr("   "))]);
    assert!(!element_has_kind(&blank, b"text"));

    assert_eq!(element_color(&typed), Rgba { r: 0, g: 200, b: 0, a: 255 });
    assert_eq!(element_color(&category), Rgba { r: 200, g: 0, b: 0, a: 255 });
    assert_eq!(element_color(&obj(vec![])), Rgba { r: 200, g: 200, b: 0, a: 255 });
}

#[test]
fn annotation_plan_keeps_order_and_skips_boxless_elements() {
    let els = vec![
        obj(vec![
            ("type", jstr("text")),
            ("bbox", Json::Arr(vec![num(0), num(0), num(500), num(500)])),
        ]),
        obj(vec![("type", jstr("icon"))]),
        obj(vec![
            ("type", jstr("icon")),
            ("bbox", Json::Arr(vec![num(500), num(500), num(1000), num(1000)])),
        ]),
    ];
    let plan = annotation_plan(&els, 100, 100);
    assert_eq!(plan.len(), 2);
    assert_eq!(plan[0].1, Rgba { r: 0, g: 200, b: 0, a: 255 });
    assert_eq!(plan[1].1, Rgba { r: 200, g: 0, b: 0, a: 255 });
    assert_eq!(plan[1].0, Rect { x: 50, y: 50, w: 50, h: 50 });
}

#[test]
fn encoder_matches_the_engine_below_the_ceiling() {
    let encoded = encode_base64_with_limit(b"hello").expect("small input encodes");
    let reference = base64::engine::general_purpose::STANDARD.encode(b"hello");
    assert_eq!(encoded, reference.into_bytes());
}

#[test]
fn encoder_rejects_oversized_input_with_the_exact_error() {
    let big = vec![0u8; 4718593];
    let err = encode_base64_with_limit(&big).expect_err("must fail");
    assert_eq!(err, b"image too large for base64 limit (> 4718592 raw bytes)".to_vec());
    // the largest admissible input still encodes within the ceiling
    let edge = vec![0u8; 4718592];
    let ok = encode_base64_with_limit(&edge).expect("edge input encodes");
    assert_eq!(ok.len(), 6291456);
}

#[test]
fn inline_images_decode_with_or_without_data_prefix() {
    assert_eq!(decode_base64_image(b"aGVsbG8=").unwrap(), b"hello".to_vec());
    assert_eq!(
        decode_base64_image(b"data:image/png;base64,aGVsbG8=").unwrap(),
        b"hello".to_vec()
    );
    assert_eq!(decode_base64_image(b"!!!").unwrap_err(), b"decode base64 failed".to_vec());
}

fn sample_latest() -> LatestBundle {
    LatestBundle {
        frame_id: b("frame_1"),
        ts: b("2024-01-01T00:00:00Z"),
        raw_path: b("cache/frame_1_raw.png"),
        annotated_path: Some(b("cache/frame_1_annotated.png")),
        mask_path: None,
        json_path: Some(b("cache/frame_1_bundle.json")),
        som_path: None,
    }
}

#[test]
fn resource_resolution_is_idempotent() {
    let latest = sample_latest();
    let first = resolve_uri(&latest, b"screen://latest/raw").expect("resolves");
    let second = resolve_uri(&latest, b"screen://latest/raw").expect("resolves");
    assert_eq!(first, second);
    assert_eq!(first, b"cache/frame_1_raw.png".to_vec());
}

#[test]
fn resource_resolution_names_what_is_missing() {
    let latest = sample_latest();
    assert_eq!(
        resolve_uri(&latest, b"screen://latest/annotated").unwrap(),
        b"cache/frame_1_annotated.png".to_vec()
    );
    assert_eq!(
        resolve_uri(&latest, b"screen://latest/mask").unwrap_err(),
        b"mask image not available".to_vec()
    );
    assert_eq!(
        resolve_uri(&latest, b"screen://other").unwrap_err(),
        b"unknown resource uri: screen://other".to_vec()
    );
}

#[test]
fn latest_bundle_mirror_round_trips() {
    let latest = sample_latest();
    let doc = latest_to_json(&latest);
    let back = latest_from_json(&doc).expect("reads back");
    assert_eq!(back.frame_id, latest.frame_id);
    assert_eq!(back.ts, latest.ts);
    assert_eq!(back.raw_path, latest.raw_path);
    assert_eq!(back.annotated_path, latest.annotated_path);
    assert_eq!(back.mask_path, latest.mask_path);
    assert_eq!(back.json_path, latest.json_path);
    assert_eq!(back.som_path, latest.som_path);

    assert!(latest_from_json(&obj(vec![("frame_id", num(1000))])).is_none());
}

#[test]
fn cache_component_updates_in_place() {
    let mut cache = BundleCache::new();
    assert!(cache.latest.is_none());
    cache.update(sample_latest());
    assert_eq!(cache.latest.as_ref().unwrap().frame_id, b("frame_1"));
    assert_eq!(latest_path(b"cache"), b"cache/latest.json".to_vec());
    assert_eq!(latest_path(b"cache/"), b"cache/latest.json".to_vec());
}

#[test]
fn frame_ids_carry_timestamp_and_counter() {
    assert_eq!(
        new_frame_id(b"20250102_030405", 7),
        b"frame_20250102_030405_7".to_vec()
    );
    assert_eq!(new_frame_id(b"t", 120), b"frame_t_120".to_vec());
}

#[test]
fn endpoints_drop_trailing_slashes_once() {
    let aw = AwClient::new("http://localhost:5600/".to_string());
    assert_eq!(aw.info_url(), b"http://localhost:5600/api/0/info".to_vec());
    assert_eq!(aw.buckets_url(), b"http://localhost:5600/api/0/buckets".to_vec());
    let omni = OmniClient::new("http://localhost:8000".to_string());
    let (probe, probe_retry) = omni.probe_urls();
    assert_eq!(probe, b"http://localhost:8000/probe".to_vec());
    assert_eq!(probe_retry, b"http://localhost:8000/probe/".to_vec());
}

#[test]
fn parse_payload_includes_options_only_when_real() {
    let bare = parse_payload(b("QUJD"), None);
    assert!(get(&bare, "parse_options").is_none());
    let with_null = parse_payload(b("QUJD"), Some(&Json::Null));
    assert!(get(&with_null, "parse_options").is_none());
    let opts = obj(vec![("ocr", Json::Bool(true))]);
    let with_opts = parse_payload(b("QUJD"), Some(&opts));
    assert!(matches!(get(&with_opts, "base64_image"), Some(Json::Str(s)) if s == b"QUJD"));
    assert!(get(&with_opts, "parse_options").is_some());
}

#[test]
fn protected_snapshots_count_their_disagreements() {
    let pre = obj(vec![
        ("torch_version_cuda", jstr("12.1")),
        ("torch_file", jstr("a")),
        ("cv2_file", jstr("b")),
        ("protected_freeze", jstr("c")),
    ]);
    let same = obj(vec![
        ("torch_version_cuda", jstr("12.1")),
        ("torch_file", jstr("a")),
        ("cv2_file", jstr("b")),
        ("protected_freeze", jstr("c")),
    ]);
    assert_eq!(compare_protect_snapshots(&pre, &same), 0);
    assert_eq!(protected_env_status(Some(&pre), Some(&same)), (true, 0));
    let changed = obj(vec![
        ("torch_version_cuda", jstr("12.4")),
        ("torch_file", jstr("a")),
        ("cv2_file", jstr("b")),
    ]);
    assert_eq!(compare_protect_snapshots(&pre, &changed), 2);
    assert_eq!(protected_env_status(Some(&pre), Some(&changed)), (false, 2));
    assert_eq!(protected_env_status(None, Some(&pre)), (false, -1));
}

#[test]
fn system_health_derives_the_probe_flags() {
    let probe = obj(vec![("ok", Json::Bool(true))]);
    let doc = system_health_json(true, Some(probe), true, 0);
    assert!(matches!(get(&doc, "sidecar_probe_status"), Some(Json::Bool(true))));
    // preflight falls back to the readiness flag when absent
    assert!(matches!(get(&doc, "preflight_ok"), Some(Json::Bool(true))));
    let probe = obj(vec![("ok", Json::Bool(true)), ("preflight_ok", Json::Bool(false))]);
    let doc = system_health_json(false, Some(probe), false, 2);
    assert!(matches!(get(&doc, "preflight_ok"), Some(Json::Bool(false))));
    assert!(matches!(get(&doc, "aw_ok"), Some(Json::Bool(false))));
    let doc = system_health_json(false, None, false, -1);
    assert!(matches!(get(&doc, "sidecar_probe_status"), Some(Json::Bool(false))));
    assert!(matches!(get(&doc, "omni_probe"), Some(Json::Null)));
}

#[test]
fn health_report_wraps_both_outcomes() {
    let doc = health_report_json(
        Ok(obj(vec![("hostname", jstr("box"))])),
        Err(b("connection refused")),
        true,
        0,
    );
    let aw = get(&doc, "aw").unwrap();
    assert!(matches!(get(aw, "ok"), Some(Json::Bool(true))));
    let omni = get(&doc, "omni").unwrap();
    assert!(matches!(get(omni, "ok"), Some(Json::Bool(false))));
    assert!(matches!(get(omni, "error"), Some(Json::Str(s)) if s == b"connection refused"));
    assert!(matches!(get(&doc, "sidecar_probe_status"), Some(Json::Bool(false))));
}

#[test]
fn parse_outcome_digests_a_recognition_response() {
    let response = obj(vec![
        ("latency_ms", num(12000)),
        (
            "parsed_content_list",
            Json::Arr(vec![
                obj(vec![("type", jstr("text")), ("content", jstr("hi"))]),
                obj(vec![("category", jstr("small icon"))]),
            ]),
        ),
        ("som_image_base64", jstr("aGVsbG8=")),
    ]);
    let (meta, som) = parse_outcome(b("frame_9"), b("cache/frame_9_raw.png"), response);
    assert_eq!(meta.latency_ms, 12);
    assert_eq!(meta.elements.len(), 2);
    assert!(meta.has_text);
    assert!(meta.has_icon);
    assert!(meta.som_path.is_none());
    assert_eq!(som.unwrap(), b"hello".to_vec());
}

#[test]
fn capture_request_rejects_other_formats_first() {
    let params = obj(vec![("format", jstr("jpeg"))]);
    assert_eq!(capture_request(&params).unwrap_err(), b"format_not_supported".to_vec());
    let args = capture_request(&obj(vec![])).expect("defaults pass");
    assert_eq!(args.mode, b"full".to_vec());
    assert_eq!(args.format, b"png".to_vec());
    assert!(!args.with_cursor);
    let args = capture_request(&obj(vec![
        ("mode", jstr("active")),
        ("with_cursor", Json::Bool(true)),
    ]))
    .expect("explicit args pass");
    assert_eq!(args.mode, b"active".to_vec());
    assert!(args.with_cursor);
}

#[test]
fn frame_input_prefers_an_explicit_path() {
    let by_path = obj(vec![("raw_path", jstr("elsewhere/shot.png")), ("frame_id", jstr("f1"))]);
    let (fid, path) = resolve_frame_input(b"cache", &by_path).unwrap();
    assert!(fid.is_none());
    assert_eq!(path, b"elsewhere/shot.png".to_vec());
    let by_id = obj(vec![("frame_id", jstr("f1"))]);
    let (fid, path) = resolve_frame_input(b"cache", &by_id).unwrap();
    assert_eq!(fid.unwrap(), b"f1".to_vec());
    assert_eq!(path, b"cache/f1_raw.png".to_vec());
    assert_eq!(
        resolve_frame_input(b"cache", &obj(vec![])).unwrap_err(),
        b"missing frame_id or raw_path".to_vec()
    );
}

#[test]
fn bundle_b64_fields_append_with_their_lengths() {
    let bundle = obj(vec![("frame_id", jstr("f"))]);
    let augmented = with_b64(bundle, b("AAAA"), b("BBBB"), b("CC=="));
    assert!(matches!(get(&augmented, "raw_b64"), Some(Json::Str(s)) if s == b"AAAA"));
    assert!(matches!(get(&augmented, "raw_b64_len"), Some(Json::Num(4000))));
    assert!(matches!(get(&augmented, "mask_b64_len"), Some(Json::Num(4000))));
    assert_eq!(
        missing_b64_error(b"raw_b64", b"too big"),
        b"missing_b64: raw_b64 (too big)".to_vec()
    );
}

#[test]
fn nowframe_records_what_was_available() {
    let nf = build_nowframe(
        b("2024-01-01T00:00:00+00:00"),
        b("mcp"),
        Some(obj(vec![("hostname", jstr("box"))])),
        None,
        None,
    );
    let doc = nowframe_json(nf);
    assert!(matches!(get(&doc, "reason"), Some(Json::Str(s)) if s == b"mcp"));
    assert!(get(&doc, "aw_info").is_some());
    assert!(matches!(get(&doc, "aw_buckets"), Some(Json::Null)));
}
