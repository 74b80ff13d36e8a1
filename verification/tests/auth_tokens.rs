use httpengine::auth::{
    compare_hash, create_cookie, extract_authorization_token, extract_cookie_token,
    from_authorization, from_authorization_at, from_cookie_at, hashing_password, issue_token_at,
    jwt_signing, jwt_verify, jwt_verify_at, AuthError,
};

#[test]
fn token_round_trip_with_simulated_time() {
    let issued_at: i64 = 1_000_000;
    let ttl: i64 = 60;
    let token = issue_token_at("top secret", "someone", "somewhere", issued_at + ttl);
    assert!(matches!(jwt_verify_at("top secret", &token, issued_at), Ok(true)));
    assert!(matches!(jwt_verify_at("top secret", &token, issued_at + ttl), Ok(true)));
    assert!(matches!(jwt_verify_at("top secret", &token, issued_at + ttl + 1), Ok(false)));
}

#[test]
fn wrong_secret_fails_decoding_and_is_never_expired() {
    let token = issue_token_at("secret one", "someone", "somewhere", 0);
    assert!(jwt_verify_at("secret two", &token, 1_000_000_000).is_err());
    assert!(jwt_verify_at("secret two", &token, -1_000_000_000).is_err());
}

#[test]
fn garbage_token_fails_decoding() {
    assert!(jwt_verify_at("secret", "abc.def.ghi", 0).is_err());
    assert!(jwt_verify_at("secret", "", 0).is_err());
}

#[test]
fn jwt_signing_verifies_under_the_clock() {
    let token = jwt_signing("demo signing key".to_string(), 120);
    assert!(matches!(jwt_verify("demo signing key".to_string(), token.clone()), Ok(true)));
    assert!(jwt_verify("another key".to_string(), token).is_err());
}

#[test]
fn extract_bearer_token_from_authorization_header() {
    let raw = "GET / HTTP/1.1\r\nAuthorization: Bearer abc.def.ghi\r\n\r\n";
    assert_eq!(extract_authorization_token(raw).unwrap(), "abc.def.ghi");
}

#[test]
fn extract_authorization_token_missing() {
    let raw = "GET / HTTP/1.1\r\nHost: example.com\r\n\r\n";
    assert!(matches!(extract_authorization_token(raw), Err(AuthError::TokenNotFound)));
}

#[test]
fn extract_cookie_token_from_cookie_header() {
    let raw = "GET / HTTP/1.1\r\nCookie: a=1; token=xyz; b=2\r\n\r\n";
    assert_eq!(extract_cookie_token(raw).unwrap(), "xyz");
    let missing = "GET / HTTP/1.1\r\nCookie: a=1; b=2\r\n\r\n";
    assert!(matches!(extract_cookie_token(missing), Err(AuthError::TokenNotFound)));
}

#[test]
fn authorization_flow_verdicts() {
    let issued_at: i64 = 5_000;
    let token = issue_token_at("k", "someone", "somewhere", issued_at + 10);
    let raw = format!("GET / HTTP/1.1\r\nAuthorization: Bearer {}\r\n\r\n", token);
    assert!(from_authorization_at("k", &raw, issued_at).is_ok());
    assert!(matches!(
        from_authorization_at("k", &raw, issued_at + 11),
        Err(AuthError::ExpiredJwt)
    ));
    assert!(matches!(
        from_authorization_at("other", &raw, issued_at),
        Err(AuthError::DecodeError(_))
    ));
    let bare = "GET / HTTP/1.1\r\nHost: a\r\n\r\n";
    assert!(matches!(
        from_authorization_at("k", bare, issued_at),
        Err(AuthError::TokenNotFound)
    ));
}

#[test]
fn cookie_flow_verdicts() {
    let issued_at: i64 = 7_000;
    let token = issue_token_at("k", "someone", "somewhere", issued_at + 10);
    let raw = format!("GET / HTTP/1.1\r\nCookie: sid=1; token={}\r\n\r\n", token);
    assert!(from_cookie_at("k", &raw, issued_at).is_ok());
    assert!(matches!(from_cookie_at("k", &raw, issued_at + 11), Err(AuthError::ExpiredJwt)));
    assert!(matches!(
        from_cookie_at("k", "GET / HTTP/1.1\r\n\r\n", issued_at),
        Err(AuthError::TokenNotFound)
    ));
}

#[test]
fn from_authorization_with_real_clock() {
    let token = jwt_signing("live key".to_string(), 300);
    let raw = format!("GET / HTTP/1.1\r\nAuthorization: Bearer {}\r\n\r\n", token);
    assert!(from_authorization("live key".to_string(), raw).is_ok());
}

#[test]
fn create_cookie_renders_attributes() {
    assert_eq!(
        create_cookie(
            "token".to_string(),
            "abc".to_string(),
            "localhost".to_string(),
            "/".to_string(),
            true,
            true,
        ),
        "token=abc; Domain=localhost; Path=/; Secure; HttpOnly"
    );
    assert_eq!(
        create_cookie(
            "token".to_string(),
            "abc".to_string(),
            "localhost".to_string(),
            "/".to_string(),
            false,
            false,
        ),
        "token=abc; Domain=localhost; Path=/"
    );
}

#[test]
fn password_hash_round_trip() {
    let hash = hashing_password("correct horse".to_string()).unwrap();
    assert!(hash.starts_with("$argon2"));
    assert!(compare_hash("correct horse".to_string(), hash.clone()).is_ok());
    assert!(compare_hash("wrong horse".to_string(), hash).is_err());
    assert!(compare_hash("pw".to_string(), "not a phc string".to_string()).is_err());
}

#[test]
fn auth_error_messages_are_nonempty() {
    assert!(!AuthError::TokenNotFound.message().is_empty());
    assert!(!AuthError::ExpiredJwt.message().is_empty());
    let token = issue_token_at("a", "someone", "somewhere", 0);
    if let Err(e) = from_authorization_at(
        "b",
        &format!("GET / HTTP/1.1\r\nAuthorization: Bearer {}\r\n\r\n", token),
        0,
    ) {
        assert!(!e.message().is_empty());
    } else {
        panic!("expected a decode failure");
    }
}
