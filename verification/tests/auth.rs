use mcp_core::auth::{TokenAuthLayer, TokenAuthService};

fn service(token: &str) -> TokenAuthService {
    TokenAuthLayer::new(token.to_string()).layer()
}

#[test]
fn test_valid_bearer_token() {
    let svc = service("secret123");
    let header = "Bearer secret123".to_string();
    assert!(svc.authorize(Some(&header)));
}

#[test]
fn test_invalid_bearer_token() {
    let svc = service("secret123");
    let header = "Bearer wrongtoken".to_string();
    assert!(!svc.authorize(Some(&header)));
}

#[test]
fn test_valid_basic_auth() {
    let svc = service("secret123");
    let credentials =
        base64::Engine::encode(&base64::engine::general_purpose::STANDARD, "user:secret123");
    let header = format!("Basic {}", credentials);
    assert!(svc.authorize(Some(&header)));
}

#[test]
fn test_invalid_basic_auth() {
    let svc = service("secret123");
    let credentials =
        base64::Engine::encode(&base64::engine::general_purpose::STANDARD, "user:wrongpassword");
    let header = format!("Basic {}", credentials);
    assert!(!svc.authorize(Some(&header)));
}

#[test]
fn test_no_auth_header() {
    let svc = service("secret123");
    assert!(!svc.authorize(None));
}

#[test]
fn test_custom_realm() {
    let svc = TokenAuthLayer::with_realm("secret".to_string(), "my-custom-realm".to_string())
        .layer();
    let challenge = svc.challenge();
    assert!(challenge.contains("my-custom-realm"));
    assert_eq!(challenge, "Bearer, Basic realm=\"my-custom-realm\"");
}

#[test]
fn default_realm_in_challenge() {
    let svc = service("secret");
    assert_eq!(svc.challenge(), "Bearer, Basic realm=\"mcp-core\"");
}

#[test]
fn basic_auth_rejects_garbage_base64() {
    let svc = service("secret123");
    let header = "Basic !!!not-base64!!!".to_string();
    assert!(!svc.authorize(Some(&header)));
}

#[test]
fn basic_auth_needs_a_colon() {
    let svc = service("secret123");
    let credentials =
        base64::Engine::encode(&base64::engine::general_purpose::STANDARD, "secret123");
    let header = format!("Basic {}", credentials);
    assert!(!svc.authorize(Some(&header)));
}

#[test]
fn basic_password_split_at_first_colon() {
    assert!(mcp_core::auth::check_basic_credentials("user:secret", "secret"));
    assert!(mcp_core::auth::check_basic_credentials(":secret", "secret"));
    assert!(!mcp_core::auth::check_basic_credentials("secret", "secret"));
    assert!(mcp_core::auth::check_basic_credentials("a:b:c", "b:c"));
    assert!(!mcp_core::auth::check_basic_credentials("a:b:c", "c"));
}
