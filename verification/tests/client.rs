use chix::client::ClientCore;
use chix::client::DiagnosticsCache;
use chix::client::PumpStep;
use chix::client::REQUEST_TIMEOUT_SECS;
use chix::client::deadline_passed;
use chix::client::handle_notification;
use chix::client::make_notification;
use chix::client::make_request;
use chix::client::on_message;
use chix::json::Json;
use chix::json::json_to_text;
use chix::tools::diagnostic_info_of;
use chix::wire::encode_message;

fn obj(fields: Vec<(&str, Json)>) -> Json {
    Json::Obj(fields.into_iter().map(|(k, v)| (k.to_string(), v)).collect())
}

fn response_with_result(id: i64, result: Json) -> Json {
    obj(vec![
        ("jsonrpc", Json::Str("2.0".to_string())),
        ("id", Json::Int(id)),
        ("result", result),
    ])
}

fn publish_diagnostics(uri: &str, diags: Vec<Json>) -> Json {
    obj(vec![
        ("jsonrpc", Json::Str("2.0".to_string())),
        ("method", Json::Str("textDocument/publishDiagnostics".to_string())),
        (
            "params",
            obj(vec![
                ("uri", Json::Str(uri.to_string())),
                ("diagnostics", Json::Arr(diags)),
            ]),
        ),
    ])
}

fn one_diagnostic(line: i64, severity: i64, message: &str) -> Json {
    obj(vec![
        (
            "range",
            obj(vec![
                ("start", obj(vec![("line", Json::Int(line)), ("character", Json::Int(0))])),
                ("end", obj(vec![("line", Json::Int(line)), ("character", Json::Int(5))])),
            ]),
        ),
        ("severity", Json::Int(severity)),
        ("message", Json::Str(message.to_string())),
    ])
}

#[test]
fn request_envelope_has_expected_text() {
    let req = make_request(3, "textDocument/hover", obj(vec![("x", Json::Int(1))]));
    assert_eq!(
        json_to_text(&req),
        "{\"jsonrpc\":\"2.0\",\"id\":3,\"method\":\"textDocument/hover\",\"params\":{\"x\":1}}"
    );
    let note = make_notification("initialized", Json::Obj(vec![]));
    assert_eq!(
        json_to_text(&note),
        "{\"jsonrpc\":\"2.0\",\"method\":\"initialized\",\"params\":{}}"
    );
}

#[test]
fn only_matching_id_unblocks() {
    let mut cache = DiagnosticsCache::new();
    // a response for another request is ignored for this wait
    let other = response_with_result(2, Json::Str("other".to_string()));
    assert!(on_message(&other, 1, &mut cache).is_none());
    // a notification does not resolve the wait either
    let note = publish_diagnostics("file:///a.nix", vec![]);
    assert!(on_message(&note, 1, &mut cache).is_none());
    // the exact id resolves it
    let mine = response_with_result(1, Json::Str("mine".to_string()));
    match on_message(&mine, 1, &mut cache) {
        Some(Ok(v)) => assert_eq!(v, Json::Str("mine".to_string())),
        _ => panic!("expected the matching response"),
    }
}

#[test]
fn error_response_carries_server_message() {
    let mut cache = DiagnosticsCache::new();
    let failure = obj(vec![
        ("jsonrpc", Json::Str("2.0".to_string())),
        ("id", Json::Int(4)),
        ("error", obj(vec![("code", Json::Int(-32601)), ("message", Json::Str("no such method".to_string()))])),
    ]);
    match on_message(&failure, 4, &mut cache) {
        Some(Err(m)) => assert_eq!(m, "no such method"),
        _ => panic!("expected the server error"),
    }
    let bare = obj(vec![
        ("jsonrpc", Json::Str("2.0".to_string())),
        ("id", Json::Int(5)),
        ("error", Json::Obj(vec![])),
    ]);
    match on_message(&bare, 5, &mut cache) {
        Some(Err(m)) => assert_eq!(m, "Unknown error"),
        _ => panic!("expected the fallback error text"),
    }
}

#[test]
fn missing_result_field_resolves_to_null() {
    let mut cache = DiagnosticsCache::new();
    let bare = obj(vec![("jsonrpc", Json::Str("2.0".to_string())), ("id", Json::Int(9))]);
    match on_message(&bare, 9, &mut cache) {
        Some(Ok(v)) => assert_eq!(v, Json::Null),
        _ => panic!("expected a null result"),
    }
}

#[test]
fn interleaved_notification_feeds_cache_then_response_resolves() {
    let mut cache = DiagnosticsCache::new();
    let note = publish_diagnostics("file:///a.nix", vec![one_diagnostic(3, 2, "w")]);
    assert!(on_message(&note, 8, &mut cache).is_none());
    let resp = response_with_result(8, Json::Bool(true));
    match on_message(&resp, 8, &mut cache) {
        Some(Ok(v)) => assert_eq!(v, Json::Bool(true)),
        _ => panic!("expected the response"),
    }
    // the notification's effect was applied while waiting
    let cached = cache.lookup("file:///a.nix");
    assert_eq!(cached.len(), 1);
    assert_eq!(cached[0].message, "w");
    assert_eq!(cached[0].range.start.line, 3);
}

#[test]
fn cache_holds_only_latest_publish_per_uri() {
    let mut cache = DiagnosticsCache::new();
    let first = publish_diagnostics("file:///u.nix", vec![one_diagnostic(0, 1, "d1")]);
    handle_notification(&first, &mut cache);
    let second = publish_diagnostics("file:///u.nix", vec![one_diagnostic(7, 2, "d2")]);
    handle_notification(&second, &mut cache);
    let cached = cache.lookup("file:///u.nix");
    assert_eq!(cached.len(), 1);
    assert_eq!(cached[0].message, "d2");
    assert_eq!(cached[0].range.start.line, 7);
}

#[test]
fn unrecognized_notifications_are_ignored() {
    let mut cache = DiagnosticsCache::new();
    let other = obj(vec![
        ("jsonrpc", Json::Str("2.0".to_string())),
        ("method", Json::Str("window/logMessage".to_string())),
        ("params", obj(vec![("message", Json::Str("hi".to_string()))])),
    ]);
    handle_notification(&other, &mut cache);
    assert_eq!(cache.lookup("file:///u.nix").len(), 0);
}

#[test]
fn deadline_is_thirty_seconds() {
    assert_eq!(REQUEST_TIMEOUT_SECS, 30);
    assert!(!deadline_passed(0));
    assert!(!deadline_passed(29_999));
    assert!(deadline_passed(30_000));
    assert!(deadline_passed(30_001));
}

#[test]
fn end_to_end_initialize_open_diagnostics() {
    let mut core = ClientCore::new();

    // initialize: the request is written, the stub answers `{}`
    let params = chix::capability::initialize_params(4242, Some("file:///proj"));
    let (id, request_bytes) = core.fresh_request("initialize", params);
    assert_eq!(id, 1);
    assert!(!request_bytes.is_empty());
    let reply = encode_message(&response_with_result(id, Json::Obj(vec![])));
    core.feed(&reply);
    let msg = match core.poll_message() {
        PumpStep::Msg(m) => m,
        _ => panic!("expected the initialize response"),
    };
    match on_message(&msg, id, &mut core.cache) {
        Some(Ok(v)) => assert_eq!(v, Json::Obj(vec![])),
        _ => panic!("initialize failed"),
    }

    // initialized + didOpen notifications are framed for the wire
    let _ = core.notification_bytes("initialized", Json::Obj(vec![]));
    let open = chix::capability::did_open_params("file:///proj/a.nix", "{ }");
    let _ = core.notification_bytes("textDocument/didOpen", open);

    // the stub publishes one diagnostic for the opened document
    let publish = publish_diagnostics("file:///proj/a.nix", vec![one_diagnostic(0, 1, "boom")]);
    core.feed(&encode_message(&publish));
    let msg = match core.poll_message() {
        PumpStep::Msg(m) => m,
        _ => panic!("expected the publish notification"),
    };
    assert!(on_message(&msg, 99, &mut core.cache).is_none());

    // reading diagnostics yields exactly that one, severity named `error`
    let diags = core.cache.lookup("file:///proj/a.nix");
    assert_eq!(diags.len(), 1);
    let info = diagnostic_info_of(&diags[0]);
    assert_eq!(info.severity, "error");
    assert_eq!(info.line, 0);
    assert_eq!(info.message, "boom");

    // nothing more is buffered
    assert!(matches!(core.poll_message(), PumpStep::NeedMore));
}
