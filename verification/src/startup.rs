//! What happens before the server serves: the settings are checked.

use crate::kernel_state::{AppState, AppView};
use crate::state::lemma_no_bytes;
use crate::text::{trim, trimmed_string};
use vstd::prelude::*;
use vstd::string::*;

verus! {

// ---------------------------------------------------------------------------
// Settings
// ---------------------------------------------------------------------------

/// The settings as they are written.
#[derive(Debug)]
pub struct SyncpondConfig {
    pub command_api_key: String,
    pub ws_addr: Option<String>,
    pub upstream_grpc_addr: Option<String>,
    pub jwt_key: Option<String>,
    pub jwt_issuer: Option<String>,
    pub jwt_audience: Option<String>,
    pub jwt_ttl_seconds: Option<u64>,
    pub require_tls: Option<bool>,
    pub ws_allowed_origins: Option<Vec<String>>,
    pub save_dir: Option<String>,
}

/// What is wrong with the settings.
#[derive(Debug, Clone, Copy, PartialEq, Eq, Structural)]
pub enum ConfigError {
    CommandApiKeyMissing,
    SaveDirMissing,
    TlsRequired,
}

pub open spec fn config_error_text(e: ConfigError) -> Seq<char> {
    match e {
        ConfigError::CommandApiKeyMissing =>
            "command_api_key must be configured and non-empty"@,
        ConfigError::SaveDirMissing => "save_dir must be configured and non-empty"@,
        ConfigError::TlsRequired =>
            "TLS transport required in config, but this binary does not terminate TLS; use reverse proxy for TLS termination"@,
    }
}

impl ConfigError {
    pub fn to_text(&self) -> (r: String)
        ensures
            r@ == config_error_text(*self),
    {
        match self {
            ConfigError::CommandApiKeyMissing =>
                "command_api_key must be configured and non-empty".to_string(),
            ConfigError::SaveDirMissing => "save_dir must be configured and non-empty".to_string(),
            ConfigError::TlsRequired =>
                "TLS transport required in config, but this binary does not terminate TLS; use reverse proxy for TLS termination".to_string(),
        }
    }
}

/// The settings that the server runs with.
#[derive(Debug)]
pub struct Settings {
    pub ws_addr: String,
    pub grpc_addr: String,
    pub ws_allowed_origins: Vec<String>,
    pub save_dir: String,
}

/// What is wrong with settings, if anything is.
pub open spec fn config_fault(config: SyncpondConfig) -> Option<ConfigError> {
    if trim(config.command_api_key@).len() == 0 {
        Some(ConfigError::CommandApiKeyMissing)
    } else {
        match config.save_dir {
            Some(dir) if trim(dir@).len() > 0 => if config.require_tls == Some(true) {
                Some(ConfigError::TlsRequired)
            } else {
                None
            },
            _ => Some(ConfigError::SaveDirMissing),
        }
    }
}

/// A setting, or what stands in for it.
pub open spec fn or_default(setting: Option<String>, default: Seq<char>) -> Seq<char> {
    match setting {
        Some(text) => text@,
        None => default,
    }
}

/// A setting put over what was there before.
pub open spec fn or_before(setting: Option<String>, before: Option<Seq<char>>) -> Option<Seq<char>> {
    match setting {
        Some(text) => Some(text@),
        None => before,
    }
}

/// The state that the server begins with.
pub open spec fn configured(config: SyncpondConfig) -> AppView {
    let fresh = AppView::fresh();
    AppView {
        command_api_key: Some(config.command_api_key@),
        jwt_key: or_before(config.jwt_key, fresh.jwt_key),
        jwt_issuer: or_before(config.jwt_issuer, fresh.jwt_issuer),
        jwt_audience: or_before(config.jwt_audience, fresh.jwt_audience),
        jwt_ttl_seconds: match config.jwt_ttl_seconds {
            Some(seconds) => seconds,
            None => fresh.jwt_ttl_seconds,
        },
        ..fresh
    }
}

/// Checks the settings and makes the state that the server begins with.
pub fn configure(config: SyncpondConfig) -> (r: Result<(AppState, Settings), ConfigError>)
    ensures
        match config_fault(config) {
            Some(e) => r matches Err(given) && given == e,
            None => match r {
                Ok((state, settings)) => {
                    &&& state@ == configured(config)
                    &&& state@.valid()
                    &&& settings.ws_addr@ == or_default(config.ws_addr, "127.0.0.1:8080"@)
                    &&& settings.grpc_addr@ == or_default(
                        config.upstream_grpc_addr,
                        "127.0.0.1:50051"@,
                    )
                    &&& settings.ws_allowed_origins@ == match config.ws_allowed_origins {
                        Some(origins) => origins@,
                        None => Seq::empty(),
                    }
                    &&& settings.save_dir@ == config.save_dir->0@
                },
                Err(_) => false,
            },
        },
{
    let mut state: AppState = AppState::new();
    if state.set_command_api_key(config.command_api_key).is_err() {
        return Err(ConfigError::CommandApiKeyMissing);
    }
    if let Some(key) = config.jwt_key {
        state.set_jwt_key(key);
    }
    if let Some(issuer) = config.jwt_issuer {
        state.set_jwt_issuer(issuer);
    }
    if let Some(audience) = config.jwt_audience {
        state.set_jwt_audience(audience);
    }
    if let Some(seconds) = config.jwt_ttl_seconds {
        state.set_jwt_ttl(seconds);
    }
    let save_dir: String = match config.save_dir {
        Some(dir) => {
            let trimmed: String = trimmed_string(dir.as_str());
            proof {
                lemma_no_bytes(trimmed@);
            }
            if trimmed.as_str().is_empty() {
                return Err(ConfigError::SaveDirMissing);
            }
            dir
        },
        None => {
            return Err(ConfigError::SaveDirMissing);
        },
    };
    if let Some(required) = config.require_tls {
        if required {
            return Err(ConfigError::TlsRequired);
        }
    }
    let ws_addr: String = match config.ws_addr {
        Some(addr) => addr,
        None => "127.0.0.1:8080".to_string(),
    };
    let grpc_addr: String = match config.upstream_grpc_addr {
        Some(addr) => addr,
        None => "127.0.0.1:50051".to_string(),
    };
    let ws_allowed_origins: Vec<String> = match config.ws_allowed_origins {
        Some(origins) => origins,
        None => Vec::new(),
    };
    Ok((state, Settings { ws_addr, grpc_addr, ws_allowed_origins, save_dir }))
}

} // verus!
