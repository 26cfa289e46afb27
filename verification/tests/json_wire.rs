use chix::frame::FrameStep;
use chix::frame::encode_frame;
use chix::frame::take_frame;
use chix::json::Json;
use chix::json::json_to_text;
use chix::jparse::parse_json_text;
use chix::wire::WireStep;
use chix::wire::encode_message;
use chix::wire::take_message;

fn sample_value() -> Json {
    Json::Obj(vec![
        ("jsonrpc".to_string(), Json::Str("2.0".to_string())),
        ("id".to_string(), Json::Int(7)),
        (
            "params".to_string(),
            Json::Obj(vec![
                ("text".to_string(), Json::Str("a \"quoted\" line\nwith\\escapes".to_string())),
                ("items".to_string(), Json::Arr(vec![
                    Json::Null,
                    Json::Bool(true),
                    Json::Bool(false),
                    Json::Int(-42),
                    Json::Int(9_007_199_254_740_993),
                    Json::Str("π and 🦀".to_string()),
                ])),
                ("empty".to_string(), Json::Obj(vec![])),
            ]),
        ),
    ])
}

#[test]
fn json_serializer_exact_text() {
    let v = Json::Obj(vec![
        ("a".to_string(), Json::Int(-5)),
        ("b".to_string(), Json::Arr(vec![Json::Int(1), Json::Null])),
    ]);
    assert_eq!(json_to_text(&v), "{\"a\":-5,\"b\":[1,null]}");
}

#[test]
fn json_escapes_controls_and_quotes() {
    let v = Json::Str("a\"b\\c\nd\u{1}".to_string());
    assert_eq!(json_to_text(&v), "\"a\\\"b\\\\c\\u000ad\\u0001\"");
}

#[test]
fn json_round_trip_identity() {
    let v = sample_value();
    let text = json_to_text(&v);
    let back = parse_json_text(&text).unwrap();
    assert_eq!(back, v);
}

#[test]
fn json_parser_accepts_whitespace_and_short_escapes() {
    let text = " { \"k\" : [ 1 , \"a\\tb\" , { } ] , \"u\" : \"\\u0041\" } ";
    let v = parse_json_text(text).unwrap();
    assert_eq!(
        v,
        Json::Obj(vec![
            (
                "k".to_string(),
                Json::Arr(vec![
                    Json::Int(1),
                    Json::Str("a\tb".to_string()),
                    Json::Obj(vec![]),
                ])
            ),
            ("u".to_string(), Json::Str("A".to_string())),
        ])
    );
}

#[test]
fn json_parser_combines_surrogate_pairs() {
    let v = parse_json_text("\"\\ud83e\\udd80\"").unwrap();
    assert_eq!(v, Json::Str("🦀".to_string()));
}

#[test]
fn json_parser_rejects_malformed_text() {
    assert!(parse_json_text("").is_none());
    assert!(parse_json_text("{").is_none());
    assert!(parse_json_text("[1,]").is_none());
    assert!(parse_json_text("\"unterminated").is_none());
    assert!(parse_json_text("1.5").is_none());
    assert!(parse_json_text("nul").is_none());
    assert!(parse_json_text("{\"a\":1} trailing").is_none());
    assert!(parse_json_text("\"\\ud800\"").is_none());
}

#[test]
fn frame_encodes_length_header() {
    let body: Vec<u8> = b"{\"x\":1}".to_vec();
    let framed = encode_frame(&body);
    let expected: Vec<u8> = b"Content-Length: 7\r\n\r\n{\"x\":1}".to_vec();
    assert_eq!(framed, expected);
}

#[test]
fn frame_round_trip_with_trailing_bytes() {
    let body: Vec<u8> = b"{\"id\":1,\"result\":null}".to_vec();
    let mut bytes = encode_frame(&body);
    bytes.extend_from_slice(b"Content-Le");
    match take_frame(&bytes, 0) {
        FrameStep::Frame(got, consumed) => {
            assert_eq!(got, body);
            assert_eq!(consumed, bytes.len() - 10);
        }
        _ => panic!("expected a complete frame"),
    }
}

#[test]
fn frame_reports_incomplete_and_malformed() {
    let body: Vec<u8> = b"{}".to_vec();
    let bytes = encode_frame(&body);
    assert!(matches!(take_frame(&bytes, 0), FrameStep::Frame(_, _)));
    assert!(matches!(
        take_frame(&bytes[..bytes.len() - 1].to_vec(), 0),
        FrameStep::Incomplete
    ));
    let junk: Vec<u8> = b"Content-Length: x\r\n\r\n{}".to_vec();
    assert!(matches!(take_frame(&junk, 0), FrameStep::Malformed));
    let nolen: Vec<u8> = b"Other: 1\r\n\r\n{}".to_vec();
    assert!(matches!(take_frame(&nolen, 0), FrameStep::Malformed));
}

#[test]
fn frame_tolerates_extra_header_lines() {
    let bytes: Vec<u8> = b"Content-Type: application/json\r\nContent-Length: 4\r\n\r\nnull rest"
        .to_vec();
    match take_frame(&bytes, 0) {
        FrameStep::Frame(got, consumed) => {
            assert_eq!(got, b"null".to_vec());
            assert_eq!(&bytes[consumed..], b" rest");
        }
        _ => panic!("expected a complete frame"),
    }
}

#[test]
fn transport_round_trip_for_all_sample_values() {
    // writing a value through the transport and reading it back yields it
    // unchanged, whatever bytes follow the frame
    let values = vec![
        Json::Null,
        Json::Bool(true),
        Json::Int(i64::MIN),
        Json::Int(i64::MAX),
        Json::Str(String::new()),
        Json::Str("héllo\tworld\u{0}".to_string()),
        Json::Arr(vec![]),
        sample_value(),
    ];
    for v in values {
        let mut bytes = encode_message(&v);
        let expected_len = bytes.len();
        bytes.extend_from_slice(b"garbage after the frame");
        match take_message(&bytes, 0) {
            WireStep::Message(m, consumed) => {
                assert_eq!(m, v);
                assert_eq!(consumed, expected_len);
            }
            _ => panic!("expected a decoded message"),
        }
    }
}
