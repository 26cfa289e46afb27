use chix::capability::completion_kind_to_string;
use chix::capability::file_to_uri;
use chix::capability::get_root_uri;
use chix::json::Json;
use chix::lsp::DiagnosticSeverity;
use chix::lsp::normalize_completion;
use chix::lsp::normalize_definition;
use chix::lsp::normalize_hover;
use chix::lsp::parse_diagnostic;

fn obj(fields: Vec<(&str, Json)>) -> Json {
    Json::Obj(fields.into_iter().map(|(k, v)| (k.to_string(), v)).collect())
}

fn location(uri: &str, line: i64) -> Json {
    obj(vec![
        ("uri", Json::Str(uri.to_string())),
        (
            "range",
            obj(vec![
                ("start", obj(vec![("line", Json::Int(line)), ("character", Json::Int(0))])),
                ("end", obj(vec![("line", Json::Int(line)), ("character", Json::Int(1))])),
            ]),
        ),
    ])
}

#[test]
fn hover_contents_plain_string() {
    let v = obj(vec![("contents", Json::Str("text".to_string()))]);
    let h = normalize_hover(&v).unwrap();
    assert_eq!(h.contents, "text");
    assert!(h.range.is_none());
}

#[test]
fn hover_contents_mixed_array_joined_with_newline() {
    let v = obj(vec![
        (
            "contents",
            Json::Arr(vec![
                obj(vec![("value", Json::Str("a".to_string()))]),
                Json::Str("b".to_string()),
            ]),
        ),
    ]);
    let h = normalize_hover(&v).unwrap();
    assert_eq!(h.contents, "a\nb");
}

#[test]
fn hover_contents_markup_object_value() {
    let v = obj(vec![("contents", obj(vec![("value", Json::Str("x".to_string()))]))]);
    let h = normalize_hover(&v).unwrap();
    assert_eq!(h.contents, "x");
}

#[test]
fn hover_null_result_is_no_hover() {
    assert!(normalize_hover(&Json::Null).is_none());
}

#[test]
fn hover_other_shapes_render_as_json_text() {
    let v = obj(vec![("contents", obj(vec![("kind", Json::Str("markdown".to_string()))]))]);
    let h = normalize_hover(&v).unwrap();
    assert_eq!(h.contents, "{\"kind\":\"markdown\"}");
}

#[test]
fn completion_bare_array_of_items() {
    let v = Json::Arr(vec![obj(vec![("label", Json::Str("foo".to_string()))])]);
    let items = normalize_completion(&v);
    assert_eq!(items.len(), 1);
    assert_eq!(items[0].label, "foo");
}

#[test]
fn completion_object_with_items_array() {
    let v = obj(vec![
        (
            "items",
            Json::Arr(vec![
                obj(vec![("label", Json::Str("a".to_string())), ("kind", Json::Int(3))]),
                obj(vec![("label", Json::Str("b".to_string()))]),
            ]),
        ),
    ]);
    let items = normalize_completion(&v);
    assert_eq!(items.len(), 2);
    assert_eq!(items[0].label, "a");
    assert_eq!(items[0].kind, Some(3));
    assert_eq!(items[1].label, "b");
}

#[test]
fn completion_other_shapes_are_empty() {
    assert_eq!(normalize_completion(&obj(vec![])).len(), 0);
    assert_eq!(normalize_completion(&Json::Null).len(), 0);
    assert_eq!(normalize_completion(&Json::Int(3)).len(), 0);
}

#[test]
fn definition_null_is_empty_list() {
    assert_eq!(normalize_definition(&Json::Null).len(), 0);
}

#[test]
fn definition_single_location_is_one_element_list() {
    let locs = normalize_definition(&location("file:///x.nix", 4));
    assert_eq!(locs.len(), 1);
    assert_eq!(locs[0].uri, "file:///x.nix");
    assert_eq!(locs[0].range.start.line, 4);
}

#[test]
fn definition_array_is_taken_as_is() {
    let v = Json::Arr(vec![location("file:///a.nix", 1), location("file:///b.nix", 2)]);
    let locs = normalize_definition(&v);
    assert_eq!(locs.len(), 2);
    assert_eq!(locs[0].uri, "file:///a.nix");
    assert_eq!(locs[1].uri, "file:///b.nix");
}

#[test]
fn diagnostic_requires_range_and_message() {
    let full = obj(vec![
        (
            "range",
            obj(vec![
                ("start", obj(vec![("line", Json::Int(1)), ("character", Json::Int(2))])),
                ("end", obj(vec![("line", Json::Int(1)), ("character", Json::Int(9))])),
            ]),
        ),
        ("severity", Json::Int(2)),
        ("message", Json::Str("warned".to_string())),
        ("source", Json::Str("nil".to_string())),
    ]);
    let d = parse_diagnostic(&full).unwrap();
    assert_eq!(d.range.start.line, 1);
    assert_eq!(d.range.end.character, 9);
    assert_eq!(d.severity.map(|s| s.0), Some(2));
    assert_eq!(d.message, "warned");
    assert_eq!(d.source, Some("nil".to_string()));

    let missing = obj(vec![("message", Json::Str("no range".to_string()))]);
    assert!(parse_diagnostic(&missing).is_none());
}

#[test]
fn severity_names() {
    assert_eq!(DiagnosticSeverity(1).as_str(), "error");
    assert_eq!(DiagnosticSeverity(2).as_str(), "warning");
    assert_eq!(DiagnosticSeverity(3).as_str(), "information");
    assert_eq!(DiagnosticSeverity(4).as_str(), "hint");
    assert_eq!(DiagnosticSeverity(0).as_str(), "unknown");
    assert_eq!(DiagnosticSeverity(9).as_str(), "unknown");
}

#[test]
fn completion_kind_names() {
    assert_eq!(completion_kind_to_string(1), "text");
    assert_eq!(completion_kind_to_string(3), "function");
    assert_eq!(completion_kind_to_string(6), "variable");
    assert_eq!(completion_kind_to_string(25), "type_parameter");
    assert_eq!(completion_kind_to_string(26), "unknown");
    assert_eq!(completion_kind_to_string(0), "unknown");
}

#[test]
fn file_uri_helpers() {
    assert_eq!(file_to_uri("/home/u/a.nix"), "file:///home/u/a.nix");
    assert_eq!(file_to_uri("file:///already"), "file:///already");
    assert_eq!(get_root_uri("/home/u/a.nix"), Some("file:///home/u".to_string()));
    assert_eq!(get_root_uri("/a.nix"), Some("file:///".to_string()));
    assert_eq!(get_root_uri("a.nix"), Some("file://".to_string()));
}
