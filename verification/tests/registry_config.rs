use chix::background::TaskRegistry;
use chix::background::TaskStatus;
use chix::config::CacheEntry;
use chix::config::CachixConfig;
use chix::config::Config;
use chix::config::FlakehubConfig;
use chix::config::get_cachix_token;
use chix::config::get_default_cache;
use chix::config::get_output_limits_config;

#[test]
fn test_empty_config() {
    let config = Config::default();
    assert!(config.cachix.default_cache.is_none());
    assert!(config.cachix.auth_token.is_none());
}

#[test]
fn test_output_limits_defaults() {
    let config = Config::default();
    assert_eq!(config.output_limits.default_max_bytes(), 100_000);
    assert_eq!(config.output_limits.default_max_lines(), 2000);
    assert_eq!(config.output_limits.default_max_items(), 100);
    assert_eq!(config.output_limits.log_tail_default(), 500);
    assert_eq!(config.output_limits.search_limit_default(), 50);
}

fn config_with_tokens() -> Config {
    Config {
        cachix: CachixConfig {
            default_cache: None,
            auth_token: Some("global-token".to_string()),
            caches: vec![(
                "specific".to_string(),
                CacheEntry { auth_token: Some("specific-token".to_string()) },
            )],
        },
        flakehub: FlakehubConfig::default(),
        output_limits: Default::default(),
    }
}

#[test]
fn test_get_cachix_token_priority() {
    let config = config_with_tokens();

    // the per-cache token takes priority
    assert_eq!(
        get_cachix_token(&config, Some("specific"), None),
        Some("specific-token".to_string())
    );

    // an unknown cache falls back to the global token
    assert_eq!(
        get_cachix_token(&config, Some("other"), None),
        Some("global-token".to_string())
    );

    // no cache name uses the global token
    assert_eq!(get_cachix_token(&config, None, None), Some("global-token".to_string()));
}

#[test]
fn cachix_token_environment_is_last() {
    let mut config = config_with_tokens();
    config.cachix.auth_token = None;
    assert_eq!(
        get_cachix_token(&config, Some("other"), Some("env-token".to_string())),
        Some("env-token".to_string())
    );
    assert_eq!(get_cachix_token(&config, Some("other"), None), None);
    assert_eq!(
        get_cachix_token(&config, Some("specific"), Some("env-token".to_string())),
        Some("specific-token".to_string())
    );
}

#[test]
fn default_cache_and_limits_accessors() {
    let mut config = Config::default();
    assert_eq!(get_default_cache(&config), None);
    config.cachix.default_cache = Some("mycache".to_string());
    assert_eq!(get_default_cache(&config), Some("mycache".to_string()));
    assert_eq!(get_output_limits_config(&config).default_max_items(), 100);
}

#[test]
fn registry_tracks_status_and_elapsed_time() {
    let mut reg = TaskRegistry::new();
    reg.register_task("t1".to_string(), "nix build .#default".to_string(), 1_000);
    reg.register_task("t2".to_string(), "nix flake check".to_string(), 5_000);

    let info = reg.get_task_info("t1", 11_000).unwrap();
    assert_eq!(info.id, "t1");
    assert_eq!(info.command, "nix build .#default");
    assert_eq!(info.status, TaskStatus::Running);
    assert_eq!(info.elapsed_secs, 10);
    assert_eq!(info.exit_code, None);

    assert!(reg.get_task_info("missing", 11_000).is_none());

    reg.update_task_status("t2", TaskStatus::Completed, Some(0));
    let info = reg.get_task_info("t2", 6_000).unwrap();
    assert_eq!(info.status, TaskStatus::Completed);
    assert_eq!(info.exit_code, Some(0));
    assert_eq!(info.elapsed_secs, 1);

    let all = reg.list_tasks(11_000);
    assert_eq!(all.len(), 2);
    assert_eq!(all[0].id, "t1");
    assert_eq!(all[1].id, "t2");

    let removed = reg.remove_task("t1").unwrap();
    assert_eq!(removed.id, "t1");
    assert!(reg.get_task_info("t1", 11_000).is_none());
    assert!(reg.remove_task("t1").is_none());
}
