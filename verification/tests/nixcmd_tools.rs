use chix::json::Json;
use chix::nixcmd::NixError;
use chix::nixcmd::parse_json_store_paths;
use chix::nixcmd::parse_store_paths;
use chix::nixcmd::store_paths_of_json;
use chix::server::McpMethod;
use chix::server::Server;
use chix::tools::page_bounds;
use chix::tools::page_slice;
use chix::tools::valid_hash_type;

fn obj(fields: Vec<(&str, Json)>) -> Json {
    Json::Obj(fields.into_iter().map(|(k, v)| (k.to_string(), v)).collect())
}

#[test]
fn store_paths_are_the_store_lines() {
    let out = "warning: something\n/nix/store/aaaa-x\nnot a path\n/nix/store/bbbb-y";
    let paths = parse_store_paths(out);
    assert_eq!(paths, vec!["/nix/store/aaaa-x".to_string(), "/nix/store/bbbb-y".to_string()]);
    assert_eq!(parse_store_paths("").len(), 0);
}

#[test]
fn json_store_paths_read_outputs_out() {
    let report = Json::Arr(vec![
        obj(vec![(
            "outputs",
            obj(vec![("out", Json::Str("/nix/store/cccc-z".to_string()))]),
        )]),
        obj(vec![("outputs", obj(vec![("doc", Json::Str("/nix/store/dddd-d".to_string()))]))]),
        obj(vec![("drvPath", Json::Str("/nix/store/e.drv".to_string()))]),
    ]);
    let paths = store_paths_of_json(&report);
    assert_eq!(paths, vec!["/nix/store/cccc-z".to_string()]);

    let text = "[{\"outputs\":{\"out\":\"/nix/store/ffff-f\"}}]";
    assert_eq!(parse_json_store_paths(text), vec!["/nix/store/ffff-f".to_string()]);
    assert_eq!(parse_json_store_paths("not json").len(), 0);
}

#[test]
fn nix_error_messages() {
    assert_eq!(
        NixError::CommandFailed("boom".to_string()).message(),
        "nix command failed: boom"
    );
    assert_eq!(NixError::Timeout(300).message(), "nix command timed out");
    assert_eq!(NixError::Io("pipe".to_string()).message(), "io error: pipe");
}

#[test]
fn hash_types_accepted() {
    assert!(valid_hash_type("sha256"));
    assert!(valid_hash_type("sha512"));
    assert!(valid_hash_type("sha1"));
    assert!(valid_hash_type("md5"));
    assert!(!valid_hash_type("crc32"));
    assert!(!valid_hash_type(""));
}

#[test]
fn page_bounds_and_slice() {
    let (start, end, meta) = page_bounds(5, Some(2), Some(2));
    assert_eq!((start, end), (2, 4));
    let meta = meta.unwrap();
    assert_eq!(meta.offset, 2);
    assert_eq!(meta.limit, 2);
    assert_eq!(meta.total, 5);
    assert!(meta.has_more);

    let (start, end, meta) = page_bounds(3, None, None);
    assert_eq!((start, end), (0, 3));
    assert!(meta.is_none());

    let (start, end, meta) = page_bounds(3, Some(9), Some(2));
    assert_eq!((start, end), (3, 3));
    assert!(!meta.unwrap().has_more);

    let items = vec![10u32, 11, 12, 13, 14];
    assert_eq!(page_slice(items, 2, 4), vec![12u32, 13]);
}

#[test]
fn server_routes_methods() {
    let server = Server::new();
    assert_eq!(server.route_method("initialize"), McpMethod::Initialize);
    assert_eq!(server.route_method("notifications/initialized"), McpMethod::Initialized);
    assert_eq!(server.route_method("tools/list"), McpMethod::ToolsList);
    assert_eq!(server.route_method("tools/call"), McpMethod::ToolsCall);
    assert_eq!(server.route_method("resources/list"), McpMethod::ResourcesList);
    assert_eq!(server.route_method("resources/read"), McpMethod::ResourcesRead);
    assert_eq!(server.route_method("anything/else"), McpMethod::Unknown);
}

#[test]
fn response_envelopes_have_expected_text() {
    let ok = chix::server::response_ok(Json::Int(1), Json::Obj(vec![]));
    assert_eq!(
        chix::json::json_to_text(&ok),
        "{\"jsonrpc\":\"2.0\",\"id\":1,\"result\":{}}"
    );
    let err = chix::server::response_err(Json::Null, chix::server::METHOD_NOT_FOUND_CODE, "nope");
    assert_eq!(
        chix::json::json_to_text(&err),
        "{\"jsonrpc\":\"2.0\",\"id\":null,\"error\":{\"code\":-32601,\"message\":\"nope\"}}"
    );
}

#[test]
fn entries_sort_by_key() {
    let entries = vec![
        ("zeta".to_string(), Json::Int(1)),
        ("alpha".to_string(), Json::Int(2)),
        ("mid".to_string(), Json::Int(3)),
        ("alpha2".to_string(), Json::Int(4)),
    ];
    let sorted = chix::kvsort::sort_entries_by_key(entries);
    let keys: Vec<&str> = sorted.iter().map(|(k, _)| k.as_str()).collect();
    assert_eq!(keys, vec!["alpha", "alpha2", "mid", "zeta"]);
    assert_eq!(sorted[0].1, Json::Int(2));
    assert_eq!(sorted[3].1, Json::Int(1));
}

#[test]
fn derivation_summary_fields() {
    let drv = obj(vec![
        ("name", Json::Str("hello-2.12".to_string())),
        (
            "outputs",
            obj(vec![("out", obj(vec![])), ("dev", obj(vec![]))]),
        ),
        (
            "inputDrvs",
            obj(vec![("a.drv", obj(vec![])), ("b.drv", obj(vec![])), ("c.drv", obj(vec![]))]),
        ),
    ]);
    let s = chix::tools::extract_derivation_summary("/nix/store/x.drv", &drv);
    assert_eq!(s.path, "/nix/store/x.drv");
    assert_eq!(s.name, Some("hello-2.12".to_string()));
    assert_eq!(s.outputs, vec!["out".to_string(), "dev".to_string()]);
    assert_eq!(s.input_count, 3);

    let bare = obj(vec![]);
    let s = chix::tools::extract_derivation_summary("/nix/store/y.drv", &bare);
    assert_eq!(s.name, None);
    assert!(s.outputs.is_empty());
    assert_eq!(s.input_count, 0);
}

#[test]
fn eval_args_selection() {
    let inst = "nixpkgs#hello".to_string();
    let expr = "1 + 1".to_string();
    let apply = "x: x".to_string();
    let args = chix::tools::eval_args(Some(&inst), None, None).unwrap();
    assert_eq!(args, vec!["eval", "--json", "nixpkgs#hello"]);
    let args = chix::tools::eval_args(None, Some(&expr), Some(&apply)).unwrap();
    assert_eq!(args, vec!["eval", "--json", "--expr", "1 + 1", "--apply", "x: x"]);
    assert!(chix::tools::eval_args(None, None, Some(&apply)).is_err());
}

#[test]
fn command_display_joins_with_spaces() {
    let cmd = "echo".to_string();
    let args = vec!["hello".to_string(), "world".to_string()];
    assert_eq!(chix::tools::command_display(&cmd, &args), "echo hello world");
    assert_eq!(chix::tools::command_display(&cmd, &vec![]), "echo");
}
