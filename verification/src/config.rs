//! Server configuration model.
//!
//! The structures mirror the configuration file; reading and parsing the
//! file is outside work, and the decisions of the loader — which candidate
//! path to use, how relative paths are rewritten, where secrets come from —
//! are plain functions here.

use vstd::prelude::*;
use vstd::string::{StringExecFns, StrSliceExecFns};

verus! {

#[derive(Debug)]
pub struct Config {
    pub ssl: SslConfig,
    pub settings: GeneralConfig,
    pub db: DbConfig,
}

#[derive(Debug)]
pub struct SslConfig {
    pub cert: String,
    pub key: String,
}

#[derive(Debug)]
pub struct GeneralConfig {
    pub secrets_file: Option<String>,
    pub use_env_secrets: bool,
    pub port: u16,
    // Used for CORS
    pub url: Option<String>,
}

#[derive(Debug)]
pub struct DbConfig {
    pub dbms: String,
    pub username: String,
    pub database: String,
    pub address: String,
    pub port: u16,
}

#[derive(Debug)]
pub struct Secrets {
    // option because sqlite doesn't need secrets
    pub db: Option<DbSecrets>,
}

#[derive(Debug)]
pub struct DbSecrets {
    pub password: String,
}

/// The system-wide configuration path, checked after the user's own.
pub const ETC_CONFIG_TARGET: &'static str = "/etc/fastrequest.toml";

/// Why configuration or secrets loading failed.
#[derive(Debug, PartialEq, Eq)]
pub enum ConfigError {
    /// The explicitly given configuration path names no existing file.
    EnvPathMissing,
    /// No candidate configuration file exists.
    NoConfigFound,
    /// Secrets from the environment are not available yet.
    EnvSecretsUnsupported,
    /// The configuration names no secrets file.
    NoSecretsFile,
}

impl Config {
    /// Picks the configuration file to load.  An explicitly set path wins
    /// and must exist; otherwise the user's, the system's, and the source
    /// tree's locations are tried in that order.  The existence of each
    /// candidate is established by the caller, which owns the filesystem.
    pub fn choose_path(
        env_target: Option<String>,
        env_exists: bool,
        local_target: String,
        local_exists: bool,
        etc_exists: bool,
        rel_target: String,
        rel_exists: bool,
    ) -> (r: Result<String, ConfigError>)
        ensures
            env_target is Some && env_exists ==> r is Ok && r->Ok_0 == env_target->0,
            env_target is Some && !env_exists ==> r == Result::<String, ConfigError>::Err(
                ConfigError::EnvPathMissing,
            ),
            env_target is None && local_exists ==> r is Ok && r->Ok_0 == local_target,
            env_target is None && !local_exists && etc_exists ==> r is Ok && r->Ok_0@
                == ETC_CONFIG_TARGET@,
            env_target is None && !local_exists && !etc_exists && rel_exists ==> r is Ok
                && r->Ok_0 == rel_target,
            env_target is None && !local_exists && !etc_exists && !rel_exists ==> r
                == Result::<String, ConfigError>::Err(ConfigError::NoConfigFound),
    {
        match env_target {
            Some(p) => {
                if env_exists {
                    Ok(p)
                } else {
                    Err(ConfigError::EnvPathMissing)
                }
            },
            None => {
                if local_exists {
                    Ok(local_target)
                } else if etc_exists {
                    Ok(ETC_CONFIG_TARGET.to_owned())
                } else if rel_exists {
                    Ok(rel_target)
                } else {
                    Err(ConfigError::NoConfigFound)
                }
            },
        }
    }

    /// Rewrites a declared path relative to the source tree: a path opening
    /// with a dot is prefixed with the base, any other is kept as it is.
    pub fn normalize_path(base: &str, p: String) -> (r: String)
        ensures
            p@.len() > 0 && p@[0] == '.' ==> r@ == base@ + p@,
            !(p@.len() > 0 && p@[0] == '.') ==> r@ == p@,
    {
        let n = p.as_str().unicode_len();
        if n > 0 && p.as_str().get_char(0) == '.' {
            let mut out = base.to_owned();
            out.append(p.as_str());
            out
        } else {
            p
        }
    }
}

impl Secrets {
    /// Decides where secrets come from: loading them from the environment
    /// is not available, so the configuration must name a secrets file.
    pub fn source_path(conf: &Config) -> (r: Result<String, ConfigError>)
        ensures
            conf.settings.use_env_secrets ==> r == Result::<String, ConfigError>::Err(
                ConfigError::EnvSecretsUnsupported,
            ),
            !conf.settings.use_env_secrets && conf.settings.secrets_file is Some ==> r is Ok
                && r->Ok_0@ == conf.settings.secrets_file->0@,
            !conf.settings.use_env_secrets && conf.settings.secrets_file is None ==> r
                == Result::<String, ConfigError>::Err(ConfigError::NoSecretsFile),
    {
        if conf.settings.use_env_secrets {
            Err(ConfigError::EnvSecretsUnsupported)
        } else {
            match &conf.settings.secrets_file {
                Some(p) => Ok(p.clone()),
                None => Err(ConfigError::NoSecretsFile),
            }
        }
    }
}

} // verus!
