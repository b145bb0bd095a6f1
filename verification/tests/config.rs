use mcp_core::config::BaseConfig;
use mcp_core::safe_path::{safe_resolve, SafePathError};
use mcp_core::token::generate_random_token;

fn config_with_token(auth_token: Option<String>) -> BaseConfig {
    BaseConfig {
        host: "127.0.0.1".to_string(),
        port: 3000,
        data_path: "./data".to_string(),
        auth_token,
    }
}

#[test]
fn test_socket_addr() {
    let config = BaseConfig {
        host: "0.0.0.0".to_string(),
        port: 8080,
        data_path: "./data".to_string(),
        auth_token: None,
    };
    assert_eq!(config.socket_addr(), "0.0.0.0:8080");
}

#[test]
fn test_get_or_generate_token_with_existing() {
    let config = config_with_token(Some("my-token".to_string()));
    let (token, generated) = config.get_or_generate_token();
    assert_eq!(token, "my-token");
    assert!(!generated);
}

#[test]
fn test_get_or_generate_token_without_existing() {
    let config = config_with_token(None);
    let (token, generated) = config.get_or_generate_token();
    assert_eq!(token.len(), 32);
    assert!(generated);
}

#[test]
fn test_token_length() {
    let token = generate_random_token();
    assert_eq!(token.len(), 32);
}

#[test]
fn test_token_is_hex() {
    let token = generate_random_token();
    assert!(token.chars().all(|c| c.is_ascii_hexdigit()));
}

#[test]
fn test_tokens_are_unique() {
    let token1 = generate_random_token();
    let token2 = generate_random_token();
    assert_ne!(token1, token2);
}

#[test]
fn auth_enabled_follows_token_presence() {
    assert!(config_with_token(Some("t".to_string())).auth_enabled());
    assert!(!config_with_token(None).auth_enabled());
}

#[test]
fn socket_addr_small_port() {
    let config = BaseConfig {
        host: "localhost".to_string(),
        port: 7,
        data_path: ".".to_string(),
        auth_token: None,
    };
    assert_eq!(config.socket_addr(), "localhost:7");
}

#[test]
fn returns_invalid_base_for_missing_base() {
    let result = safe_resolve("/does/not/exist", "file.txt");
    assert!(matches!(result, Err(SafePathError::InvalidBase(_))));
}

#[test]
fn absolute_user_path_is_refused() {
    let result = safe_resolve("/does/not/matter", "/etc/passwd");
    assert!(matches!(result, Err(SafePathError::PathTraversal)));
}

#[test]
fn backslash_user_path_is_refused() {
    let result = safe_resolve("/does/not/matter", "\\server\\share");
    assert!(matches!(result, Err(SafePathError::PathTraversal)));
}

#[test]
fn nul_byte_user_path_is_refused() {
    let result = safe_resolve("/does/not/matter", "file\0.txt");
    assert!(matches!(result, Err(SafePathError::PathTraversal)));
}

#[test]
fn resolve_data_path_screens_shape() {
    let config = config_with_token(None);
    let result = config.resolve_data_path("../secret.txt");
    // The data directory itself is not guaranteed to exist here, and `..`
    // may escape it: either way the resolution must fail.
    assert!(result.is_err());
}

#[test]
fn containment_check_respects_component_boundaries() {
    assert!(mcp_core::safe_path::path_within_check("/srv/data", "/srv/data"));
    assert!(mcp_core::safe_path::path_within_check("/srv/data/file.txt", "/srv/data"));
    assert!(!mcp_core::safe_path::path_within_check("/srv/database", "/srv/data"));
    assert!(!mcp_core::safe_path::path_within_check("/srv", "/srv/data"));
    assert!(mcp_core::safe_path::path_within_check("/etc", "/"));
}

#[test]
fn hex_rendering_exact() {
    assert_eq!(mcp_core::hex::hex_render(0xdeadbeef, 16), "00000000deadbeef");
    assert_eq!(mcp_core::hex::hex_render(0, 16), "0000000000000000");
    assert_eq!(mcp_core::hex::hex_render(0xffff, 4), "ffff");
}

#[test]
fn dec_rendering_exact() {
    assert_eq!(mcp_core::hex::dec_render(8080), "8080");
    assert_eq!(mcp_core::hex::dec_render(0), "0");
    assert_eq!(mcp_core::hex::dec_render(65535), "65535");
}
