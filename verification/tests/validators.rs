use chix::validators::validate_attr_path;
use chix::validators::validate_cache_name;
use chix::validators::validate_installable;
use chix::validators::validate_nix_expr;
use chix::validators::validate_no_shell_metacharacters;
use chix::validators::validate_path;
use chix::validators::validate_store_path;
use chix::validators::validate_store_subpath;

#[test]
fn test_valid_installables() {
    assert!(validate_installable(".#default").is_ok());
    assert!(validate_installable("nixpkgs#hello").is_ok());
    assert!(validate_installable("github:NixOS/nixpkgs#hello").is_ok());
    assert!(validate_installable(".#packages.x86_64-linux.default").is_ok());
}

#[test]
fn test_invalid_installables() {
    assert!(validate_installable("$(malicious)").is_err());
    assert!(validate_installable("; rm -rf /").is_err());
    assert!(validate_installable("hello`whoami`").is_err());
}

#[test]
fn test_shell_metacharacters() {
    assert!(validate_no_shell_metacharacters("hello").is_ok());
    assert!(validate_no_shell_metacharacters("hello; rm -rf").is_err());
    assert!(validate_no_shell_metacharacters("$(cmd)").is_err());
    assert!(validate_no_shell_metacharacters("foo | bar").is_err());
}

#[test]
fn test_nix_expr() {
    assert!(validate_nix_expr("{ x = 1; }").is_ok());
    assert!(validate_nix_expr("builtins.attrNames { a = 1; b = 2; }").is_ok());
    assert!(validate_nix_expr("let x = 1; in x").is_ok());
    assert!(validate_nix_expr("(import <nixpkgs> {}).hello").is_ok());
    assert!(validate_nix_expr("\"hello ${name}\"").is_ok());
    assert!(validate_nix_expr("x: x + 1").is_ok());
    assert!(validate_nix_expr("a && b || c").is_ok());
    assert!(validate_nix_expr("if true then 1 else 2").is_ok());
    assert!(validate_nix_expr("map (x: x * 2) [1 2 3]").is_ok());
    assert!(validate_nix_expr("hello\0world").is_err());
}

#[test]
fn test_cache_name() {
    assert!(validate_cache_name("mycache").is_ok());
    assert!(validate_cache_name("my-cache").is_ok());
    assert!(validate_cache_name("cache123").is_ok());
    assert!(validate_cache_name("-invalid").is_err());
    assert!(validate_cache_name("").is_err());
    assert!(validate_cache_name("cache;injection").is_err());
}

#[test]
fn test_store_path() {
    assert!(validate_store_path("/nix/store/aaaaaaaaaaaaaaaaaaaaaaaaaaaaaaaa-hello").is_ok());
    assert!(
        validate_store_path("/nix/store/abcdefghijklmnopqrstuvwxyz012345-package-1.0").is_ok()
    );
    assert!(validate_store_path("/tmp/not-store").is_err());
    assert!(validate_store_path("/nix/store/short-hash").is_err());
}

#[test]
fn test_store_subpath() {
    assert!(validate_store_subpath("/nix/store/aaaaaaaaaaaaaaaaaaaaaaaaaaaaaaaa-hello").is_ok());
    assert!(
        validate_store_subpath("/nix/store/aaaaaaaaaaaaaaaaaaaaaaaaaaaaaaaa-hello/bin/hello")
            .is_ok()
    );
    assert!(
        validate_store_subpath("/nix/store/aaaaaaaaaaaaaaaaaaaaaaaaaaaaaaaa-package-1.0/share/doc")
            .is_ok()
    );
    assert!(validate_store_subpath("/tmp/not-store").is_err());
    assert!(
        validate_store_subpath("/nix/store/aaaaaaaaaaaaaaaaaaaaaaaaaaaaaaaa-hello/../../etc/passwd")
            .is_err()
    );
    assert!(
        validate_store_subpath("/nix/store/aaaaaaaaaaaaaaaaaaaaaaaaaaaaaaaa-hello/bin;whoami")
            .is_err()
    );
}

#[test]
fn test_store_subpath_dotfiles() {
    assert!(
        validate_store_subpath("/nix/store/aaaaaaaaaaaaaaaaaaaaaaaaaaaaaaaa-pkg/.local-plugin")
            .is_ok()
    );
    assert!(
        validate_store_subpath("/nix/store/aaaaaaaaaaaaaaaaaaaaaaaaaaaaaaaa-pkg/.config/settings")
            .is_ok()
    );
    assert!(
        validate_store_subpath(
            "/nix/store/aaaaaaaaaaaaaaaaaaaaaaaaaaaaaaaa-pkg/.hidden-dir/.hidden-file"
        )
        .is_ok()
    );
    assert!(validate_store_subpath("/nix/store/aaaaaaaaaaaaaaaaaaaaaaaaaaaaaaaa-pkg/.").is_err());
    assert!(validate_store_subpath("/nix/store/aaaaaaaaaaaaaaaaaaaaaaaaaaaaaaaa-pkg/..").is_err());
    assert!(
        validate_store_subpath("/nix/store/aaaaaaaaaaaaaaaaaaaaaaaaaaaaaaaa-pkg/./bin").is_err()
    );
    assert!(
        validate_store_subpath("/nix/store/aaaaaaaaaaaaaaaaaaaaaaaaaaaaaaaa-pkg/../other").is_err()
    );
}

#[test]
fn test_path() {
    assert!(validate_path("/home/user/result").is_ok());
    assert!(validate_path("./result").is_ok());
    assert!(validate_path("~/project/result").is_ok());
    assert!(validate_path("/path;injection").is_err());
    assert!(validate_path("/path$(cmd)").is_err());
}

#[test]
fn test_attr_path() {
    assert!(validate_attr_path("packages.x86_64-linux.default").is_ok());
    assert!(validate_attr_path("a/b").is_err());
    assert!(validate_attr_path("").is_err());
}

#[test]
fn test_validation_error_message() {
    let e = validate_cache_name("-invalid").unwrap_err();
    assert_eq!(e.message(), "invalid cache name: `-invalid`");
    let e = validate_no_shell_metacharacters("a;b").unwrap_err();
    assert_eq!(e.message(), "shell metacharacters not allowed: `a;b`");
}
