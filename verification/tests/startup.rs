//! The settings.

use syncpond::startup::{configure, ConfigError, SyncpondConfig};

fn config() -> SyncpondConfig {
    SyncpondConfig {
        command_api_key: "key".to_string(),
        ws_addr: None,
        upstream_grpc_addr: None,
        jwt_key: None,
        jwt_issuer: None,
        jwt_audience: None,
        jwt_ttl_seconds: None,
        require_tls: None,
        ws_allowed_origins: None,
        save_dir: Some("/data".to_string()),
    }
}

#[test]
fn settings_have_defaults() {
    let (state, settings) = configure(config()).unwrap();
    assert_eq!(state.command_api_key.as_deref(), Some("key"));
    assert_eq!(state.jwt_ttl_seconds, 3600);
    assert_eq!(state.jwt_key, None);
    assert_eq!(settings.ws_addr, "127.0.0.1:8080");
    assert_eq!(settings.grpc_addr, "127.0.0.1:50051");
    assert!(settings.ws_allowed_origins.is_empty());
    assert_eq!(settings.save_dir, "/data");
}

#[test]
fn settings_are_taken_over() {
    let mut c = config();
    c.ws_addr = Some("0.0.0.0:1".to_string());
    c.upstream_grpc_addr = Some("0.0.0.0:2".to_string());
    c.jwt_key = Some("k".to_string());
    c.jwt_issuer = Some("i".to_string());
    c.jwt_audience = Some("a".to_string());
    c.jwt_ttl_seconds = Some(60);
    c.require_tls = Some(false);
    c.ws_allowed_origins = Some(vec!["o".to_string()]);
    let (state, settings) = configure(c).unwrap();
    assert_eq!(state.jwt_key.as_deref(), Some("k"));
    assert_eq!(state.jwt_issuer.as_deref(), Some("i"));
    assert_eq!(state.jwt_audience.as_deref(), Some("a"));
    assert_eq!(state.jwt_ttl_seconds, 60);
    assert_eq!(settings.ws_addr, "0.0.0.0:1");
    assert_eq!(settings.grpc_addr, "0.0.0.0:2");
    assert_eq!(settings.ws_allowed_origins, vec!["o".to_string()]);
}

#[test]
fn wrong_settings_are_refused() {
    let error = |c: SyncpondConfig| match configure(c) {
        Err(e) => e,
        Ok(_) => panic!("accepted"),
    };
    let mut c = config();
    c.command_api_key = " ".to_string();
    c.save_dir = None;
    assert_eq!(error(c), ConfigError::CommandApiKeyMissing);
    let mut c = config();
    c.save_dir = Some("\t".to_string());
    c.require_tls = Some(true);
    assert_eq!(error(c), ConfigError::SaveDirMissing);
    let mut c = config();
    c.require_tls = Some(true);
    assert_eq!(error(c), ConfigError::TlsRequired);
    assert_eq!(
        ConfigError::SaveDirMissing.to_text(),
        "save_dir must be configured and non-empty"
    );
    assert_eq!(
        ConfigError::CommandApiKeyMissing.to_text(),
        "command_api_key must be configured and non-empty"
    );
    assert!(ConfigError::TlsRequired.to_text().starts_with("TLS transport required"));
}
