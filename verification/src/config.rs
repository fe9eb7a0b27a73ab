//! Engine configuration: storage roots, network tuning, security flags and
//! hook lists. The core treats a configuration as an immutable value for
//! the duration of an operation; loading one from disk is a caller concern.
use vstd::prelude::*;
use crate::error::CocoatlyError;
use crate::install::{path_join, spec_path_join};
use crate::strutil::str_eq;

verus! {

#[derive(Debug, Clone)]
pub struct RegistryEndpoint {
    pub url: String,
    pub api_version: String,
    pub requires_auth: bool,
}

/// Registries are an association list keyed by registry name.
#[derive(Debug, Clone)]
pub struct RegistryConfig {
    pub default_registry: String,
    pub registries: Vec<(String, RegistryEndpoint)>,
    pub auth_tokens: Vec<(String, String)>,
}

#[derive(Debug, Clone)]
pub struct StorageConfig {
    pub install_root: String,
    pub cache_dir: String,
    pub temp_dir: String,
    pub state_file: String,
    pub lock_file: String,
}

#[derive(Debug, Clone)]
pub struct CacheConfig {
    pub enabled: bool,
    pub max_size_mb: u64,
    pub ttl_hours: u64,
    pub cleanup_on_startup: bool,
}

#[derive(Debug, Clone)]
pub struct NetworkConfig {
    pub max_concurrent_downloads: usize,
    pub timeout_seconds: u64,
    pub retry_attempts: u32,
    pub retry_delay_ms: u64,
    pub use_proxy: bool,
    pub proxy_url: Option<String>,
}

#[derive(Debug, Clone)]
pub struct SecurityConfig {
    pub verify_signatures: bool,
    pub verify_checksums: bool,
    pub allowed_hash_algorithms: Vec<String>,
    pub trusted_keys: Vec<String>,
    pub reject_insecure_registries: bool,
}

#[derive(Debug, Clone)]
pub struct HooksConfig {
    pub pre_install: Vec<String>,
    pub post_install: Vec<String>,
    pub pre_uninstall: Vec<String>,
    pub post_uninstall: Vec<String>,
}

#[derive(Debug, Clone)]
pub struct Config {
    pub registry: RegistryConfig,
    pub storage: StorageConfig,
    pub cache: CacheConfig,
    pub network: NetworkConfig,
    pub security: SecurityConfig,
    pub hooks: HooksConfig,
}

/// Whether the association list holds the key.
pub open spec fn has_registry(rs: Seq<(String, RegistryEndpoint)>, key: Seq<char>) -> bool {
    exists|i: int| 0 <= i < rs.len() && rs[i].0@ == key
}

impl Config {
    /// A configuration is usable when a default registry is named, that
    /// registry is configured, and at least one download may run at a time.
    pub open spec fn spec_valid(self) -> bool {
        &&& self.registry.default_registry@.len() > 0
        &&& has_registry(self.registry.registries@, self.registry.default_registry@)
        &&& self.network.max_concurrent_downloads > 0
    }

    pub fn validate(&self) -> (r: Result<(), CocoatlyError>)
        ensures
            r is Ok <==> self.spec_valid(),
            r matches Err(e) ==> e is ConfigError,
    {
        if self.registry.default_registry.as_str().unicode_len() == 0 {
            return Err(CocoatlyError::ConfigError("Default registry not set".to_owned()));
        }
        let n = self.registry.registries.len();
        let mut i: usize = 0;
        let mut found = false;
        while i < n
            invariant
                i <= n == self.registry.registries@.len(),
                found <==> exists|j: int|
                    0 <= j < i && self.registry.registries@[j].0@
                        == self.registry.default_registry@,
            decreases n - i,
        {
            if str_eq(
                self.registry.registries[i].0.as_str(),
                self.registry.default_registry.as_str(),
            ) {
                found = true;
            }
            i += 1;
        }
        if !found {
            return Err(
                CocoatlyError::ConfigError("Default registry not found in registry list".to_owned()),
            );
        }
        if self.network.max_concurrent_downloads == 0 {
            return Err(
                CocoatlyError::ConfigError(
                    "max_concurrent_downloads must be greater than 0".to_owned(),
                ),
            );
        }
        Ok(())
    }

    /// The stock configuration rooted under the given home directory:
    /// everything lives below `home/.cocoatly`, the public registry is
    /// preconfigured, and both digest and signature verification are on.
    pub fn default_under(home: &str) -> (r: Config)
        ensures
            r.spec_valid(),
            r.storage.install_root@ == spec_path_join(
                spec_path_join(home@, ".cocoatly"@),
                "packages"@,
            ),
            r.storage.cache_dir@ == spec_path_join(
                spec_path_join(home@, ".cocoatly"@),
                "cache"@,
            ),
            r.storage.temp_dir@ == spec_path_join(spec_path_join(home@, ".cocoatly"@), "tmp"@),
            r.storage.state_file@ == spec_path_join(
                spec_path_join(home@, ".cocoatly"@),
                "state.json"@,
            ),
            r.storage.lock_file@ == spec_path_join(
                spec_path_join(home@, ".cocoatly"@),
                "cocoatly.lock"@,
            ),
            r.registry.default_registry@ == "cocoatly-registry"@,
            r.cache.enabled,
            r.cache.max_size_mb == 5120,
            r.cache.ttl_hours == 168,
            !r.cache.cleanup_on_startup,
            r.network.max_concurrent_downloads == 8,
            r.network.timeout_seconds == 300,
            r.network.retry_attempts == 3,
            r.network.retry_delay_ms == 1000,
            !r.network.use_proxy,
            r.network.proxy_url is None,
            r.security.verify_signatures,
            r.security.verify_checksums,
            r.security.reject_insecure_registries,
            r.hooks.pre_install@.len() == 0,
            r.hooks.post_install@.len() == 0,
            r.hooks.pre_uninstall@.len() == 0,
            r.hooks.post_uninstall@.len() == 0,
    {
        let cocoatly_home = path_join(home, ".cocoatly");
        let default_name = "cocoatly-registry".to_owned();
        let mut registries: Vec<(String, RegistryEndpoint)> = Vec::new();
        registries.push(
            (
                "cocoatly-registry".to_owned(),
                RegistryEndpoint {
                    url: "https://registry.cocoatly.io".to_owned(),
                    api_version: "v1".to_owned(),
                    requires_auth: false,
                },
            ),
        );
        proof {
            reveal_strlit("cocoatly-registry");
            assert(registries@[0].0@ == "cocoatly-registry"@);
            assert("cocoatly-registry"@.len() == 17);
            assert(has_registry(registries@, "cocoatly-registry"@));
        }
        let mut allowed: Vec<String> = Vec::new();
        allowed.push("blake3".to_owned());
        allowed.push("sha256".to_owned());
        allowed.push("sha512".to_owned());
        Config {
            registry: RegistryConfig {
                default_registry: default_name,
                registries,
                auth_tokens: Vec::new(),
            },
            storage: StorageConfig {
                install_root: path_join(cocoatly_home.as_str(), "packages"),
                cache_dir: path_join(cocoatly_home.as_str(), "cache"),
                temp_dir: path_join(cocoatly_home.as_str(), "tmp"),
                state_file: path_join(cocoatly_home.as_str(), "state.json"),
                lock_file: path_join(cocoatly_home.as_str(), "cocoatly.lock"),
            },
            cache: CacheConfig {
                enabled: true,
                max_size_mb: 5120,
                ttl_hours: 168,
                cleanup_on_startup: false,
            },
            network: NetworkConfig {
                max_concurrent_downloads: 8,
                timeout_seconds: 300,
                retry_attempts: 3,
                retry_delay_ms: 1000,
                use_proxy: false,
                proxy_url: None,
            },
            security: SecurityConfig {
                verify_signatures: true,
                verify_checksums: true,
                allowed_hash_algorithms: allowed,
                trusted_keys: Vec::new(),
                reject_insecure_registries: true,
            },
            hooks: HooksConfig {
                pre_install: Vec::new(),
                post_install: Vec::new(),
                pre_uninstall: Vec::new(),
                post_uninstall: Vec::new(),
            },
        }
    }
}

} // verus!
