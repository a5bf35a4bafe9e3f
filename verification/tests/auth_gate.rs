use base64::Engine;
use local_share::auth::{check_basic_auth, check_credentials, AuthConfig};

fn config() -> AuthConfig {
    AuthConfig { username: "admin".to_string(), password: "secret".to_string() }
}

fn basic_header(user: &str, pass: &str) -> String {
    let raw = format!("{}:{}", user, pass);
    let encoded = base64::engine::general_purpose::STANDARD.encode(raw.as_bytes());
    format!("Basic {}", encoded)
}

#[test]
fn auth_accepts_correct_credentials() {
    let header = basic_header("admin", "secret");
    assert!(check_basic_auth(Some(header.as_str()), &config()));
}

#[test]
fn auth_rejects_wrong_password() {
    let header = basic_header("admin", "wrong");
    assert!(!check_basic_auth(Some(header.as_str()), &config()));
}

#[test]
fn auth_rejects_wrong_user() {
    let header = basic_header("root", "secret");
    assert!(!check_basic_auth(Some(header.as_str()), &config()));
}

#[test]
fn auth_rejects_missing_header() {
    assert!(!check_basic_auth(None, &config()));
}

#[test]
fn auth_rejects_missing_prefix() {
    let encoded = base64::engine::general_purpose::STANDARD.encode(b"admin:secret");
    assert!(!check_basic_auth(Some(encoded.as_str()), &config()));
}

#[test]
fn auth_rejects_invalid_base64() {
    assert!(!check_basic_auth(Some("Basic !!!not-base64!!!"), &config()));
}

#[test]
fn auth_password_may_contain_colons() {
    // the split happens at the first colon only
    let cfg = AuthConfig { username: "u".to_string(), password: "a:b:c".to_string() };
    let header = basic_header("u", "a:b:c");
    assert!(check_basic_auth(Some(header.as_str()), &cfg));
}

#[test]
fn credentials_require_a_colon() {
    assert!(!check_credentials("adminsecret", "admin", "secret"));
    assert!(check_credentials("admin:secret", "admin", "secret"));
}
