//! Configuration values and how tokens are chosen from them. Reading the
//! configuration file and the environment is the caller's work; the
//! priority rules live here.

use vstd::prelude::*;
use crate::output::OutputLimitsConfig;
use crate::strutil::str_eq;

verus! {

#[derive(Debug)]
pub struct CacheEntry {
    pub auth_token: Option<String>,
}

impl Default for CacheEntry {
    fn default() -> (r: Self)
        ensures
            r.auth_token is None,
    {
        CacheEntry { auth_token: None }
    }
}

#[derive(Debug)]
pub struct CachixConfig {
    pub default_cache: Option<String>,
    pub auth_token: Option<String>,
    pub caches: Vec<(String, CacheEntry)>,
}

impl Default for CachixConfig {
    fn default() -> (r: Self)
        ensures
            r.default_cache is None,
            r.auth_token is None,
            r.caches@.len() == 0,
    {
        CachixConfig { default_cache: None, auth_token: None, caches: Vec::new() }
    }
}

/// Authentication is held in the system's credential store, not here.
#[derive(Debug)]
pub struct FlakehubConfig {
}

impl Default for FlakehubConfig {
    fn default() -> (r: Self) {
        FlakehubConfig {  }
    }
}

#[derive(Debug)]
pub struct Config {
    pub cachix: CachixConfig,
    pub flakehub: FlakehubConfig,
    pub output_limits: OutputLimitsConfig,
}

impl Default for Config {
    fn default() -> (r: Self)
        ensures
            r.cachix.default_cache is None,
            r.cachix.auth_token is None,
            r.cachix.caches@.len() == 0,
            r.output_limits.default_max_bytes is None,
            r.output_limits.default_max_lines is None,
            r.output_limits.default_max_items is None,
            r.output_limits.log_tail_default is None,
            r.output_limits.search_limit_default is None,
    {
        Config {
            cachix: CachixConfig::default(),
            flakehub: FlakehubConfig::default(),
            output_limits: OutputLimitsConfig::default(),
        }
    }
}

/// The first configured cache entry with this name, if any.
pub open spec fn find_cache(caches: Seq<(String, CacheEntry)>, name: Seq<char>) -> Option<
    CacheEntry,
>
    decreases caches,
{
    if caches.len() == 0 {
        None
    } else if caches[0].0@ == name {
        Some(caches[0].1)
    } else {
        find_cache(caches.drop_first(), name)
    }
}

/// The token chosen for a cache: the per-cache token first, then the
/// global token, then whatever the environment supplied.
pub open spec fn spec_cachix_token(
    config: Config,
    cache_name: Option<Seq<char>>,
    env_token: Option<Seq<char>>,
) -> Option<Seq<char>> {
    let per_cache: Option<Seq<char>> = match cache_name {
        Some(name) => match find_cache(config.cachix.caches@, name) {
            Some(entry) => match entry.auth_token {
                Some(t) => Some(t@),
                None => None,
            },
            None => None,
        },
        None => None,
    };
    match per_cache {
        Some(t) => Some(t),
        None => match config.cachix.auth_token {
            Some(t) => Some(t@),
            None => env_token,
        },
    }
}

/// Chooses the cachix token: per-cache, then global, then the environment
/// value the caller read.
pub fn get_cachix_token(config: &Config, cache_name: Option<&str>, env_token: Option<String>) -> (r:
    Option<String>)
    ensures
        match (
            r,
            spec_cachix_token(
                *config,
                match cache_name {
                    Some(n) => Some(n@),
                    None => None,
                },
                match env_token {
                    Some(t) => Some(t@),
                    None => None,
                },
            ),
        ) {
            (Some(a), Some(b)) => a@ == b,
            (None, None) => true,
            _ => false,
        },
{
    match cache_name {
        Some(name) => {
            let ghost cv = config.cachix.caches@;
            let mut i: usize = 0;
            proof {
                assert(cv.skip(0) =~= cv);
            }
            while i < config.cachix.caches.len()
                invariant
                    cv == config.cachix.caches@,
                    cache_name matches Some(cn) && cn@ == name@,
                    i <= cv.len(),
                    find_cache(cv, name@) == find_cache(cv.skip(i as int), name@),
                decreases cv.len() - i,
            {
                let e: &(String, CacheEntry) = &config.cachix.caches[i];
                proof {
                    assert(cv.skip(i as int)[0] == cv[i as int]);
                    assert(cv.skip(i as int).drop_first() =~= cv.skip(i + 1 as int));
                }
                if str_eq(e.0.as_str(), name) {
                    match &e.1.auth_token {
                        Some(t) => {
                            return Some(t.clone());
                        },
                        None => {
                            return match &config.cachix.auth_token {
                                Some(t) => Some(t.clone()),
                                None => env_token,
                            };
                        },
                    }
                }
                i = i + 1;
            }
            proof {
                assert(cv.skip(i as int).len() == 0);
            }
            match &config.cachix.auth_token {
                Some(t) => Some(t.clone()),
                None => env_token,
            }
        },
        None => {
            match &config.cachix.auth_token {
                Some(t) => Some(t.clone()),
                None => env_token,
            }
        },
    }
}

/// The configured default cache name, if any.
pub fn get_default_cache(config: &Config) -> (r: Option<String>)
    ensures
        match (r, config.cachix.default_cache) {
            (Some(a), Some(b)) => a@ == b@,
            (None, None) => true,
            _ => false,
        },
{
    match &config.cachix.default_cache {
        Some(c) => Some(c.clone()),
        None => None,
    }
}

/// The configured output limits.
pub fn get_output_limits_config(config: &Config) -> (r: &OutputLimitsConfig)
    ensures
        r == config.output_limits,
{
    &config.output_limits
}

} // verus!
