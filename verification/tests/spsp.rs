use interledger::spsp::{random_secret, random_token, spsp_auth_header};

#[test]
fn token_is_24_url_safe_characters() {
    let token = random_token().unwrap();
    assert_eq!(token.len(), 24);
    assert!(token
        .chars()
        .all(|c| c.is_ascii_alphanumeric() || c == '-' || c == '_'));
}

#[test]
fn tokens_differ() {
    assert_ne!(random_token().unwrap(), random_token().unwrap());
}

#[test]
fn secret_is_32_bytes() {
    let secret = random_secret().unwrap();
    assert_eq!(secret.len(), 32);
}

#[test]
fn auth_header_basic() {
    let header = spsp_auth_header(b"user", Some(b"pass")).unwrap();
    assert_eq!(header, b"Basic dXNlcjpwYXNz".to_vec());
}

#[test]
fn auth_header_basic_empty_password() {
    let header = spsp_auth_header(b"user", None).unwrap();
    assert_eq!(header, b"Basic dXNlcjo=".to_vec());
}

#[test]
fn auth_header_bearer() {
    let header = spsp_auth_header(b"", Some(b"secret-token")).unwrap();
    assert_eq!(header, b"Bearer secret-token".to_vec());
}

#[test]
fn auth_header_absent() {
    assert_eq!(spsp_auth_header(b"", None), None);
}
