use chix::resources::list_resources;
use chix::resources::parse_nix_uri;

#[test]
fn test_parse_nix_uri_simple() {
    let uri = "nix://build-log/abc123-hello";
    let parsed = parse_nix_uri(uri).unwrap();
    assert_eq!(parsed.resource_type, "build-log");
    assert_eq!(parsed.path, "abc123-hello");
    assert!(parsed.params.is_empty());
}

#[test]
fn test_parse_nix_uri_with_params() {
    let uri = "nix://derivation/abc123.drv?summary=true&offset=10";
    let parsed = parse_nix_uri(uri).unwrap();
    assert_eq!(parsed.resource_type, "derivation");
    assert_eq!(parsed.path, "abc123.drv");
    assert_eq!(parsed.get("summary"), Some(&"true".to_string()));
    assert_eq!(parsed.get("offset"), Some(&"10".to_string()));
}

#[test]
fn test_parse_nix_uri_full_store_path() {
    let uri = "nix://closure//nix/store/abc123-hello?limit=50";
    let parsed = parse_nix_uri(uri).unwrap();
    assert_eq!(parsed.resource_type, "closure");
    assert_eq!(parsed.path, "/nix/store/abc123-hello");
    assert_eq!(parsed.get("limit"), Some(&"50".to_string()));
}

#[test]
fn test_parse_nix_uri_invalid_scheme() {
    let uri = "http://example.com";
    let result = parse_nix_uri(uri);
    assert!(result.is_err());
}

#[test]
fn test_parse_nix_uri_missing_path() {
    let result = parse_nix_uri("nix://only-type");
    assert!(result.is_err());
    assert_eq!(
        result.unwrap_err(),
        "Invalid URI format, expected type/path: nix://only-type"
    );
}

#[test]
fn test_list_resources() {
    let r = list_resources();
    assert_eq!(r.len(), 3);
    assert_eq!(r[0].uri, "nix://build-log/{store-path}");
    assert_eq!(r[1].name, "Derivation");
    assert_eq!(r[2].mime_type, "application/json");
}
