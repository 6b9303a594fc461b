use edman::dispatch::{Action, Config, Dispatcher, Pending};
use edman::frame::{decode_frame, encode_frame, DecodeOutcome};
use edman::json::{parse_json, to_json_bytes, Json};
use edman::protocol::{
    encode_response, parse_request, ReqErrorKind, Request, Response,
};

fn test_config() -> Config {
    Config {
        download_directory: b"/tmp/d".to_vec(),
        download_subdirectory: b"edman".to_vec(),
        save_file_directory: b"/tmp/s".to_vec(),
        allowed_origins: vec![b"chrome-extension://abc/".to_vec()],
        allowed_extensions: vec![],
    }
}

// --- frame codec ---

#[test]
fn frame_round_trip() {
    let payload = b"hello frame".to_vec();
    let framed = encode_frame(&payload).expect("within the cap");
    assert_eq!(framed.len(), 4 + payload.len());
    assert_eq!(&framed[..4], &[11, 0, 0, 0]);
    match decode_frame(&framed) {
        DecodeOutcome::Frame { payload: got, consumed } => {
            assert_eq!(got, payload);
            assert_eq!(consumed, framed.len());
        }
        _ => panic!("expected a whole frame"),
    }
}

#[test]
fn frame_decode_waits_for_missing_bytes() {
    let payload = b"abcdef".to_vec();
    let framed = encode_frame(&payload).unwrap();
    for cut in 0..framed.len() {
        let partial = framed[..cut].to_vec();
        assert!(
            matches!(decode_frame(&partial), DecodeOutcome::Incomplete),
            "cut at {} must wait",
            cut
        );
    }
}

#[test]
fn frame_decode_keeps_trailing_bytes() {
    let payload = b"xy".to_vec();
    let mut framed = encode_frame(&payload).unwrap();
    framed.extend_from_slice(b"rest");
    match decode_frame(&framed) {
        DecodeOutcome::Frame { payload: got, consumed } => {
            assert_eq!(got, b"xy".to_vec());
            assert_eq!(consumed, 6);
        }
        _ => panic!("expected a whole frame"),
    }
}

#[test]
fn frame_rejects_oversized_declaration() {
    // 0x04000001 little-endian: one byte over the cap.
    let buf = vec![0x01, 0x00, 0x00, 0x04];
    assert!(matches!(decode_frame(&buf), DecodeOutcome::Oversized));
}

#[test]
fn frame_rejects_oversized_payload() {
    let payload = vec![0u8; 0x4000001];
    assert!(encode_frame(&payload).is_none());
}

// --- JSON ---

#[test]
fn json_parses_document() {
    let doc = b" {\"a\": [1, true, null, \"x\"] } ".to_vec();
    let v = parse_json(&doc).expect("valid document");
    match v {
        Json::Obj(fields) => {
            assert_eq!(fields.len(), 1);
            assert_eq!(fields[0].0, b"a".to_vec());
            match &fields[0].1 {
                Json::Arr(items) => {
                    assert_eq!(items.len(), 4);
                    assert!(matches!(items[0], Json::Int(1)));
                    assert!(matches!(items[1], Json::Bool(true)));
                    assert!(matches!(items[2], Json::Null));
                    assert!(matches!(&items[3], Json::Str(s) if s == &b"x".to_vec()));
                }
                _ => panic!("expected an array"),
            }
        }
        _ => panic!("expected an object"),
    }
}

#[test]
fn json_serializes_canonically() {
    let v = Json::Obj(vec![
        (b"n".to_vec(), Json::Int(-12)),
        (b"s".to_vec(), Json::Str(b"a\"b\\c\nd".to_vec())),
    ]);
    let out = to_json_bytes(&v);
    assert_eq!(out, b"{\"n\":-12,\"s\":\"a\\\"b\\\\c\\nd\"}".to_vec());
}

#[test]
fn json_round_trips_escapes() {
    let v = Json::Str(vec![0x22, 0x5c, 0x08, 0x09, 0x0a, 0x0c, 0x0d, 0x01, 0x7f, 0xc3, 0xa9]);
    let text = to_json_bytes(&v);
    let back = parse_json(&text).expect("own output parses");
    match back {
        Json::Str(s) => assert_eq!(
            s,
            vec![0x22, 0x5c, 0x08, 0x09, 0x0a, 0x0c, 0x0d, 0x01, 0x7f, 0xc3, 0xa9]
        ),
        _ => panic!("expected a string"),
    }
}

#[test]
fn json_accepts_unicode_escape_for_ascii() {
    let doc = b"\"\\u0041\\u005A\"".to_vec();
    match parse_json(&doc) {
        Some(Json::Str(s)) => assert_eq!(s, b"AZ".to_vec()),
        _ => panic!("expected a string"),
    }
}

#[test]
fn json_int_limits() {
    let doc = b"[-9223372036854775808,9223372036854775807]".to_vec();
    match parse_json(&doc) {
        Some(Json::Arr(items)) => {
            assert!(matches!(items[0], Json::Int(i64::MIN)));
            assert!(matches!(items[1], Json::Int(i64::MAX)));
        }
        _ => panic!("expected an array"),
    }
    let over = b"9223372036854775808".to_vec();
    assert!(parse_json(&over).is_none());
}

#[test]
fn json_rejects_malformed_documents() {
    for bad in [
        &b"{"[..],
        b"tru",
        b"01",
        b"1.5",
        b"1e3",
        b"{}x",
        b"{\"a\":}",
        b"[1,]",
        b"\"ab",
        b"\"\\q\"",
        b"",
        b"nan",
    ] {
        assert!(parse_json(&bad.to_vec()).is_none(), "{:?} must be rejected", bad);
    }
}

#[test]
fn json_output_is_valid_for_serde() {
    let v = Json::Obj(vec![
        (b"type".to_vec(), Json::Str(b"err".to_vec())),
        (b"data".to_vec(), Json::Str(b"tab\there".to_vec())),
    ]);
    let out = to_json_bytes(&v);
    let parsed: serde_json::Value = serde_json::from_slice(&out).expect("serde accepts it");
    assert_eq!(parsed["type"].as_str(), Some("err"));
    assert_eq!(parsed["data"].as_str(), Some("tab\there"));
}

// --- protocol ---

#[test]
fn parse_register() {
    let input_str = "{\"type\":\"register_file\",\"data\":{\"downloadPath\":\"a\",\"savePath\":[\"b\",\"d\"],\"key\":\"c\"}}";
    let parsed = parse_request(&input_str.as_bytes().to_vec()).unwrap();

    assert!(parsed.id.is_none());
    match parsed.req {
        Request::RegisterFile { download_path, save_path, key } => {
            assert_eq!(download_path, b"a".to_vec());
            assert_eq!(save_path, vec![b"b".to_vec(), b"d".to_vec()]);
            assert_eq!(key, b"c".to_vec());
        }
        _ => panic!("expected a register_file request"),
    }
}

#[test]
fn parse_request_reads_id_and_field_order() {
    let doc = b"{\"id\":\"q1\",\"data\":{\"query\":[\"k\"]},\"type\":\"fetch_file_states\"}"
        .to_vec();
    let env = parse_request(&doc).unwrap();
    assert_eq!(env.id, Some(b"q1".to_vec()));
    match env.req {
        Request::FetchFileStates { query } => assert_eq!(query, vec![b"k".to_vec()]),
        _ => panic!("expected a fetch_file_states request"),
    }
}

#[test]
fn parse_request_rejections() {
    let unknown = b"{\"type\":\"frobnicate\",\"data\":{}}".to_vec();
    let e = parse_request(&unknown).unwrap_err();
    assert_eq!(e.kind, ReqErrorKind::UnknownType);

    let unknown_with_id = b"{\"type\":\"frobnicate\",\"id\":\"7\"}".to_vec();
    let e = parse_request(&unknown_with_id).unwrap_err();
    assert_eq!(e.kind, ReqErrorKind::UnknownType);
    assert_eq!(e.id, Some(b"7".to_vec()));

    for bad in [
        &b"not json"[..],
        b"[]",
        b"{\"data\":{}}",
        b"{\"type\":5}",
        b"{\"type\":\"fetch_file_states\",\"data\":{}}",
        b"{\"type\":\"fetch_file_states\",\"data\":{\"query\":[5]}}",
        b"{\"type\":\"register_file\",\"data\":{\"downloadPath\":\"a\",\"key\":\"c\"}}",
        b"{\"type\":\"config\",\"id\":5}",
    ] {
        let e = parse_request(&bad.to_vec()).unwrap_err();
        assert_eq!(e.kind, ReqErrorKind::Malformed, "{:?}", bad);
    }
}

#[test]
fn encode_response_shapes() {
    let out = encode_response(
        &None,
        &Response::Config { download_subdirectory: b"edman".to_vec() },
    );
    assert_eq!(
        out,
        b"{\"type\":\"config\",\"data\":{\"downloadSubdirectory\":\"edman\"}}".to_vec()
    );

    let out = encode_response(
        &None,
        &Response::FetchFileStates { result: vec![true, false] },
    );
    assert_eq!(
        out,
        b"{\"type\":\"fetch_file_states\",\"data\":{\"result\":[true,false]}}".to_vec()
    );

    let out = encode_response(&Some(b"i9".to_vec()), &Response::RegisterFile { id: 31 });
    assert_eq!(
        out,
        b"{\"type\":\"register_file\",\"data\":{\"id\":31},\"id\":\"i9\"}".to_vec()
    );

    let out = encode_response(&None, &Response::Failure { message: b"boom".to_vec() });
    assert_eq!(out, b"{\"type\":\"err\",\"data\":\"boom\"}".to_vec());
}

// --- dispatch ---

#[test]
fn unknown_type_costs_one_err_and_connection_survives() {
    let d = Dispatcher::new(test_config());

    let (p, a) = d.on_frame(&b"{\"type\":\"bogus\",\"data\":{}}".to_vec());
    assert!(matches!(p, Pending::Done));
    match a {
        Action::Reply { payload } => {
            assert_eq!(payload, b"{\"type\":\"err\",\"data\":\"unknown message type\"}".to_vec());
        }
        _ => panic!("an unknown type must be answered, not routed"),
    }

    // The same dispatcher still serves the next frame on the connection.
    let (p, a) = d.on_frame(&b"{\"type\":\"fetch_file_states\",\"data\":{\"query\":[]}}".to_vec());
    assert!(matches!(p, Pending::AwaitingStates { .. }));
    assert!(matches!(a, Action::GetFileStates { .. }));
}

#[test]
fn malformed_frame_costs_one_err() {
    let d = Dispatcher::new(test_config());
    let (p, a) = d.on_frame(&b"}{ not json".to_vec());
    assert!(matches!(p, Pending::Done));
    match a {
        Action::Reply { payload } => {
            assert_eq!(payload, b"{\"type\":\"err\",\"data\":\"malformed message\"}".to_vec());
        }
        _ => panic!("a malformed frame must be answered"),
    }
}

#[test]
fn fetch_file_states_empty_query_end_to_end() {
    let d = Dispatcher::new(test_config());
    let (p, a) = d.on_frame(&b"{\"type\":\"fetch_file_states\",\"data\":{\"query\":[]}}".to_vec());
    let keys = match a {
        Action::GetFileStates { keys } => keys,
        _ => panic!("expected a backend query"),
    };
    assert!(keys.is_empty());
    let states = edman::backend::file_states(&vec![], &keys);
    let (p2, a2) = d.on_file_states(p, states);
    assert!(matches!(p2, Pending::Done));
    match a2 {
        Action::Reply { payload } => assert_eq!(
            payload,
            b"{\"type\":\"fetch_file_states\",\"data\":{\"result\":[]}}".to_vec()
        ),
        _ => panic!("expected the reply"),
    }
}

#[test]
fn register_file_end_to_end() {
    let d = Dispatcher::new(test_config());
    let frame = b"{\"type\":\"register_file\",\"data\":{\"downloadPath\":\"a\",\"savePath\":[\"b\",\"d\"],\"key\":\"c\"}}".to_vec();
    let (p, a) = d.on_frame(&frame);
    match &a {
        Action::MoveFile { source, dest_dir, dest } => {
            assert_eq!(source, &b"/tmp/d/a".to_vec());
            assert_eq!(dest_dir, &b"/tmp/s/b".to_vec());
            assert_eq!(dest, &b"/tmp/s/b/d".to_vec());
        }
        _ => panic!("expected the move"),
    }
    let (p2, a2) = d.on_moved(p);
    match &a2 {
        Action::RegisterFile { path, key } => {
            assert_eq!(path, &b"b/d".to_vec());
            assert_eq!(key, &b"c".to_vec());
        }
        _ => panic!("expected the registration"),
    }
    let (p3, a3) = d.on_registered(p2, 5);
    assert!(matches!(p3, Pending::Done));
    match a3 {
        Action::Reply { payload } => assert_eq!(
            payload,
            b"{\"type\":\"register_file\",\"data\":{\"id\":5}}".to_vec()
        ),
        _ => panic!("expected the reply"),
    }
}

#[test]
fn register_file_rejects_illegal_save_paths_before_any_action() {
    let d = Dispatcher::new(test_config());
    let expect = b"{\"type\":\"err\",\"data\":\"savePath must not contain slashes or dots.\"}"
        .to_vec();
    for frame in [
        &b"{\"type\":\"register_file\",\"data\":{\"downloadPath\":\"a\",\"savePath\":[\"..\",\"x\"],\"key\":\"c\"}}"[..],
        b"{\"type\":\"register_file\",\"data\":{\"downloadPath\":\"a\",\"savePath\":[\"a/b\"],\"key\":\"c\"}}",
        b"{\"type\":\"register_file\",\"data\":{\"downloadPath\":\"a\",\"savePath\":[\"a\\\\b\"],\"key\":\"c\"}}",
        b"{\"type\":\"register_file\",\"data\":{\"downloadPath\":\"a\",\"savePath\":[],\"key\":\"c\"}}",
    ] {
        let (p, a) = d.on_frame(&frame.to_vec());
        assert!(matches!(p, Pending::Done));
        match a {
            Action::Reply { payload } => assert_eq!(payload, expect),
            _ => panic!("validation must answer before any filesystem action"),
        }
    }
}

#[test]
fn config_request_round_trip() {
    let d = Dispatcher::new(test_config());
    let (p, a) = d.on_frame(&b"{\"type\":\"config\",\"id\":\"c1\"}".to_vec());
    assert!(matches!(a, Action::GetConfig));
    let (p2, a2) = d.on_config(p, &b"edman".to_vec());
    assert!(matches!(p2, Pending::Done));
    match a2 {
        Action::Reply { payload } => assert_eq!(
            payload,
            b"{\"type\":\"config\",\"data\":{\"downloadSubdirectory\":\"edman\"},\"id\":\"c1\"}"
                .to_vec()
        ),
        _ => panic!("expected the reply"),
    }
}

#[test]
fn backend_failure_is_per_request() {
    let d = Dispatcher::new(test_config());
    let (p, _) = d.on_frame(&b"{\"type\":\"fetch_file_states\",\"data\":{\"query\":[\"k\"]},\"id\":\"x\"}".to_vec());
    let (p2, a2) = d.on_step_failed(p, b"Database timeout".to_vec());
    assert!(matches!(p2, Pending::Done));
    match a2 {
        Action::Reply { payload } => assert_eq!(
            payload,
            b"{\"type\":\"err\",\"data\":\"Database timeout\",\"id\":\"x\"}".to_vec()
        ),
        _ => panic!("expected the error reply"),
    }
}

#[test]
fn file_states_is_index_aligned() {
    let known = vec![b"a".to_vec()];
    let query = vec![b"a".to_vec(), b"a".to_vec(), b"b".to_vec()];
    let states = edman::backend::file_states(&known, &query);
    assert_eq!(states, vec![true, true, false]);
    assert_eq!(states.len(), query.len());
}

#[test]
fn origin_check() {
    let cfg = test_config();
    assert!(edman::dispatch::origin_allowed(
        &cfg,
        &b"chrome-extension://abc/".to_vec()
    ));
    assert!(!edman::dispatch::origin_allowed(
        &cfg,
        &b"chrome-extension://evil/".to_vec()
    ));
}

#[test]
fn utf8_validation() {
    assert!(edman::utf8::check_utf8(&b"plain ascii".to_vec()));
    assert!(edman::utf8::check_utf8(&vec![0xc3, 0xa9]));
    assert!(edman::utf8::check_utf8(&vec![0xe2, 0x82, 0xac]));
    assert!(edman::utf8::check_utf8(&vec![0xf0, 0x9f, 0x98, 0x80]));
    // Truncated, overlong, surrogate, out of range.
    assert!(!edman::utf8::check_utf8(&vec![0xc3]));
    assert!(!edman::utf8::check_utf8(&vec![0xc0, 0xaf]));
    assert!(!edman::utf8::check_utf8(&vec![0xed, 0xa0, 0x80]));
    assert!(!edman::utf8::check_utf8(&vec![0xf5, 0x80, 0x80, 0x80]));
    assert!(!edman::utf8::check_utf8(&vec![0x80]));
    // A query key that is not UTF-8 rejects the request.
    let mut doc = b"{\"type\":\"fetch_file_states\",\"data\":{\"query\":[\"".to_vec();
    doc.push(0xff);
    doc.extend_from_slice(b"\"]}}");
    assert!(parse_request(&doc).is_err());
}
