//! Token-based authentication: password hashing and verification, issuing
//! and verifying signed time-limited tokens, extracting tokens from raw
//! header text, and rendering a cookie header value.
use crate::text::{contains_pat, contains_str, split_pat, split_str};
use vstd::prelude::*;

verus! {

/// Errors of the authentication layer.
#[derive(Debug)]
pub enum AuthError {
    /// No token was found in the request text.
    TokenNotFound,
    /// The token did not decode under the given secret.
    DecodeError(jsonwebtoken::errors::Error),
    /// The token decoded but its expiry time has passed.
    ExpiredJwt,
}

impl AuthError {
    /// A short description of the error, for logging and responses.
    pub fn message(&self) -> (r: String)
        ensures
            r@ == match self {
                AuthError::TokenNotFound => "missing token"@,
                AuthError::DecodeError(_) => "token decode error"@,
                AuthError::ExpiredJwt => "token is expired"@,
            },
            r@.len() > 0,
    {
        let m = match self {
            AuthError::TokenNotFound => String::from_str("missing token"),
            AuthError::DecodeError(_) => String::from_str("token decode error"),
            AuthError::ExpiredJwt => String::from_str("token is expired"),
        };
        proof {
            reveal_strlit("missing token");
            reveal_strlit("token decode error");
            reveal_strlit("token is expired");
        }
        m
    }
}

/// A stored login: the name, the transient plaintext password, and the
/// persisted hash.
#[derive(Debug, Clone, PartialEq)]
pub struct Credential {
    username: String,
    password: String,
    hash: String,
}

#[verifier::external_type_specification]
#[verifier::external_body]
pub struct ExJwtError(jsonwebtoken::errors::Error);

#[verifier::external_type_specification]
#[verifier::external_body]
pub struct ExPasswordHashError(argon2::password_hash::Error);

/// The token that signing the claims `(sub, company, exp)` under
/// `secret` produces; a function of those arguments alone. (The signing
/// crate lets a process install a different crypto provider at run time;
/// nothing in this crate or around it does, and only the pure-Rust
/// backend is built, so the function named here is fixed.)
pub uninterp spec fn token_of(
    secret: Seq<char>,
    sub: Seq<char>,
    company: Seq<char>,
    exp: int,
) -> Seq<char>;

/// The expiry claim that `token` carries under `secret`: `None` when the
/// token does not decode under that secret; a function of the two
/// arguments alone.
pub uninterp spec fn claims_of(secret: Seq<char>, token: Seq<char>) -> Option<int>;

/// Whether the password-hash verification of `password` against `hash`
/// succeeds; a function of the two arguments alone.
pub uninterp spec fn hash_matches(password: Seq<char>, hash: Seq<char>) -> bool;

/// Whether `hash` parses as a PHC password-hash string; a function of
/// the text alone.
pub uninterp spec fn phc_parsable(hash: Seq<char>) -> bool;

/// `b` with trailing zero bytes removed.
pub open spec fn trim_zero_bytes(b: Seq<u8>) -> Seq<u8>
    decreases b.len(),
{
    if b.len() > 0 && b.last() == 0 {
        trim_zero_bytes(b.drop_last())
    } else {
        b
    }
}

/// `s1` and `s2` are secrets that HMAC-SHA256 maps to distinct keys:
/// each fits within one 64-byte hash block, and their bytes differ even
/// after trailing zero bytes are dropped. (HMAC zero-pads a short key to
/// the block, so a secret and its zero-extension share a key; a secret
/// longer than one block is first hashed, so nothing is claimed of it.)
pub open spec fn distinct_hmac_keys(s1: Seq<char>, s2: Seq<char>) -> bool {
    &&& vstd::utf8::encode_utf8(s1).len() <= 64
    &&& vstd::utf8::encode_utf8(s2).len() <= 64
    &&& trim_zero_bytes(vstd::utf8::encode_utf8(s1)) != trim_zero_bytes(
        vstd::utf8::encode_utf8(s2),
    )
}

/// For two ASCII characters, equal bytes mean equal characters.
proof fn lemma_ascii_char_eq(c1: char, c2: char)
    requires
        (c1 as nat) < 128,
        (c2 as nat) < 128,
        (c1 as u8) == (c2 as u8),
    ensures
        c1 == c2,
{
    let u1 = c1 as u32;
    let u2 = c2 as u32;
    assert(u1 as u8 as u32 == u1) by (bit_vector)
        requires
            u1 < 128,
    ;
    assert(u2 as u8 as u32 == u2) by (bit_vector)
        requires
            u2 < 128,
    ;
    vstd::utf8::char_u32_cast(c1, u1);
    vstd::utf8::char_u32_cast(c2, u2);
}

/// The encoding of an ASCII text that does not end in a NUL character
/// carries no trailing zero byte, so trimming leaves it whole.
proof fn lemma_ascii_bytes_untrimmed(s: Seq<char>)
    requires
        vstd::utf8::is_ascii_chars(s),
        s.len() > 0 ==> s.last() != '\u{0}',
    ensures
        trim_zero_bytes(vstd::utf8::encode_utf8(s)) == vstd::utf8::encode_utf8(s),
{
    vstd::utf8::is_ascii_chars_encode_utf8(s);
    let b = vstd::utf8::encode_utf8(s);
    if b.len() > 0 {
        assert(b.last() == s.last() as u8);
        if s.last() as u8 == 0 {
            vstd::utf8::is_ascii_chars_nat_bound(s);
            lemma_ascii_char_eq(s.last(), '\u{0}');
        }
    }
}

/// Two ASCII secrets that differ as text, each fitting within one HMAC
/// block and neither ending in a NUL character, have distinct HMAC keys.
pub proof fn lemma_distinct_ascii_secrets(s1: Seq<char>, s2: Seq<char>)
    requires
        vstd::utf8::is_ascii_chars(s1),
        vstd::utf8::is_ascii_chars(s2),
        s1.len() <= 64,
        s2.len() <= 64,
        s1.len() > 0 ==> s1.last() != '\u{0}',
        s2.len() > 0 ==> s2.last() != '\u{0}',
        s1 != s2,
    ensures
        distinct_hmac_keys(s1, s2),
{
    vstd::utf8::is_ascii_chars_encode_utf8(s1);
    vstd::utf8::is_ascii_chars_encode_utf8(s2);
    vstd::utf8::is_ascii_chars_nat_bound(s1);
    vstd::utf8::is_ascii_chars_nat_bound(s2);
    lemma_ascii_bytes_untrimmed(s1);
    lemma_ascii_bytes_untrimmed(s2);
    let b1 = vstd::utf8::encode_utf8(s1);
    let b2 = vstd::utf8::encode_utf8(s2);
    if b1 == b2 {
        assert forall|i: int| 0 <= i < s1.len() implies s1[i] == s2[i] by {
            assert(s1[i] as u8 == b1[i]);
            assert(s2[i] as u8 == b2[i]);
            lemma_ascii_char_eq(s1[i], s2[i]);
        }
        assert(s1 =~= s2);
    }
}

/// Relies on `argon2::Argon2::hash_password` (via the `PasswordHasher`
/// trait): it salts with a fresh random salt and returns a well-formed
/// PHC string that verification accepts for the same password. Nothing
/// more is assumed of the randomly salted result.
#[verifier::external_body]
pub fn hashing_password(password: String) -> (r: Result<String, argon2::password_hash::Error>)
    ensures
        r matches Ok(h) ==> hash_matches(password@, h@),
        r matches Ok(h) ==> phc_parsable(h@),
{
    let argon2 = argon2::Argon2::default();
    match argon2::PasswordHasher::hash_password(&argon2, password.as_bytes()) {
        Ok(phc) => Ok(phc.to_string()),
        Err(err) => Err(err),
    }
}

/// Relies on `argon2::password_hash::phc::PasswordHash::new` and
/// `argon2::Argon2::verify_password`: parsing the PHC string and
/// re-deriving the hash is deterministic, so the outcome is a function
/// of the password and the hash text alone, and a hash text that does
/// not parse is rejected without any verification attempt.
#[verifier::external_body]
pub fn compare_hash(password: String, hash_password: String) -> (r: Result<
    (),
    argon2::password_hash::Error,
>)
    ensures
        r.is_ok() <==> hash_matches(password@, hash_password@),
        !phc_parsable(hash_password@) ==> r.is_err(),
{
    match argon2::PasswordHash::new(&hash_password) {
        Ok(parsed_hash) => argon2::PasswordVerifier::verify_password(
            &argon2::Argon2::default(),
            password.as_bytes(),
            &parsed_hash,
        ),
        Err(err) => Err(argon2::password_hash::Error::from(err)),
    }
}

/// Relies on `jsonwebtoken::encode` with the default header (HS256).
/// The token is a deterministic function of the secret and the claims;
/// it carries its own `exp` claim under the same secret; and HMAC key
/// setup and signing cannot fail in the crate's source, so the call
/// always succeeds. A token is taken not to decode under a secret whose
/// HMAC key is distinct (HMAC-SHA256 zero-pads a short key to its
/// 64-byte block, so only secrets distinct after that padding count):
/// that a forged signature never verifies is the documented point of
/// signature validation.
#[verifier::external_body]
fn jwt_encode(secret: &str, sub: &str, company: &str, exp: i64) -> (r: Result<
    String,
    jsonwebtoken::errors::Error,
>)
    ensures
        r.is_ok(),
        r matches Ok(t) ==> t@ == token_of(secret@, sub@, company@, exp as int),
        r matches Ok(t) ==> claims_of(secret@, t@) == Some(exp as int),
        r matches Ok(t) ==> forall|s2: Seq<char>|
            distinct_hmac_keys(secret@, s2) ==> claims_of(s2, t@) == None::<int>,
{
    let mut claims = serde_json::Map::new();
    claims.insert("sub".to_string(), serde_json::Value::String(sub.to_string()));
    claims.insert("company".to_string(), serde_json::Value::String(company.to_string()));
    claims.insert("exp".to_string(), serde_json::Value::from(exp));
    jsonwebtoken::encode(
        &jsonwebtoken::Header::default(),
        &serde_json::Value::Object(claims),
        &jsonwebtoken::EncodingKey::from_secret(secret.as_bytes()),
    )
}

/// Relies on `jsonwebtoken::decode` with expiry validation turned off:
/// the signature is checked and the `exp` claim returned, with no
/// reading of the clock, so the outcome is a function of the secret and
/// the token text alone.
#[verifier::external_body]
fn jwt_decode_exp(secret: &str, token: &str) -> (r: Result<i64, jsonwebtoken::errors::Error>)
    ensures
        match claims_of(secret@, token@) {
            Some(e) => r matches Ok(x) && x as int == e,
            None => r.is_err(),
        },
{
    let mut validation = jsonwebtoken::Validation::new(jsonwebtoken::Algorithm::HS256);
    validation.validate_exp = false;
    validation.required_spec_claims = std::collections::HashSet::new();
    let data = jsonwebtoken::decode::<serde_json::Value>(
        token,
        &jsonwebtoken::DecodingKey::from_secret(secret.as_bytes()),
        &validation,
    )?;
    match data.claims.get("exp").and_then(serde_json::Value::as_i64) {
        Some(e) => Ok(e),
        None => Err(jsonwebtoken::errors::ErrorKind::InvalidToken.into()),
    }
}

/// Relies on `chrono::Utc::now` for the current time, as seconds since
/// the epoch; nothing is assumed about the value returned.
#[verifier::external_body]
fn now_ts() -> i64 {
    chrono::Utc::now().timestamp()
}

/// Issue a token under `secret` whose claims are `(sub, company, exp)`.
/// The token decodes to its expiry under `secret` and under no secret
/// whose HMAC key is distinct.
pub fn issue_token_at(secret: &str, sub: &str, company: &str, exp: i64) -> (r: String)
    ensures
        r@ == token_of(secret@, sub@, company@, exp as int),
        claims_of(secret@, r@) == Some(exp as int),
        forall|s2: Seq<char>| distinct_hmac_keys(secret@, s2) ==> claims_of(s2, r@) == None::<int>,
{
    let t = jwt_encode(secret, sub, company, exp);
    match t {
        Ok(tok) => tok,
        Err(_) => {
            proof {
                assert(false);
            }
            String::new()
        },
    }
}

/// Sign a token under `secret_key` that expires `duration` seconds from
/// now (saturating at the ends of the clock's range).
pub fn jwt_signing(secret_key: String, duration: i64) -> (r: String)
    ensures
        exists|e: int|
            r@ == token_of(secret_key@, "tma.com.vn"@, "TMA"@, e) && claims_of(secret_key@, r@)
                == Some(e),
        forall|s2: Seq<char>|
            distinct_hmac_keys(secret_key@, s2) ==> claims_of(s2, r@) == None::<int>,
{
    let now = now_ts();
    let exp: i64 = if duration >= 0 {
        if now > i64::MAX - duration {
            i64::MAX
        } else {
            now + duration
        }
    } else {
        if now < i64::MIN - duration {
            i64::MIN
        } else {
            now + duration
        }
    };
    issue_token_at(secret_key.as_str(), "tma.com.vn", "TMA", exp)
}

/// The verdict on one token at one moment.
#[derive(Debug, PartialEq, Eq, Structural, Clone, Copy)]
pub enum TokenVerdict {
    /// The token decodes and has not expired.
    Valid,
    /// The token decodes but its expiry time has passed.
    Expired,
    /// The token does not decode under the given secret.
    DecodeFailed,
}

/// The verdict on `token` under `secret` at time `now`: signature
/// validity and expiry are judged independently.
pub open spec fn spec_token_verdict(secret: Seq<char>, token: Seq<char>, now: int) -> TokenVerdict {
    match claims_of(secret, token) {
        None => TokenVerdict::DecodeFailed,
        Some(e) => if e >= now {
            TokenVerdict::Valid
        } else {
            TokenVerdict::Expired
        },
    }
}

/// Verify `token` under `secret` as of time `now`: `Ok(true)` for a
/// valid token, `Ok(false)` for a decodable but expired one, and the
/// decode error otherwise.
pub fn jwt_verify_at(secret: &str, token: &str, now: i64) -> (r: Result<
    bool,
    jsonwebtoken::errors::Error,
>)
    ensures
        match spec_token_verdict(secret@, token@, now as int) {
            TokenVerdict::Valid => r == Ok::<bool, jsonwebtoken::errors::Error>(true),
            TokenVerdict::Expired => r == Ok::<bool, jsonwebtoken::errors::Error>(false),
            TokenVerdict::DecodeFailed => r.is_err(),
        },
{
    match jwt_decode_exp(secret, token) {
        Ok(exp) => {
            if exp < now {
                Ok(false)
            } else {
                Ok(true)
            }
        },
        Err(err) => Err(err),
    }
}

/// Verify `token` under `secret_key` against the clock: `Ok(true)` for
/// a valid token, `Ok(false)` for an expired one, and the decode error
/// otherwise.
pub fn jwt_verify(secret_key: String, token: String) -> (r: Result<
    bool,
    jsonwebtoken::errors::Error,
>)
    ensures
        r.is_err() <==> claims_of(secret_key@, token@) is None,
{
    let now = now_ts();
    jwt_verify_at(secret_key.as_str(), token.as_str(), now)
}

/// Index of the first entry of `lines` that mentions `pat`.
pub open spec fn first_with(lines: Seq<Seq<char>>, pat: Seq<char>, i: int) -> Option<int>
    decreases lines.len() - i,
{
    if i < 0 || i >= lines.len() {
        None
    } else if contains_pat(lines[i], pat) {
        Some(i)
    } else {
        first_with(lines, pat, i + 1)
    }
}

/// The bearer token the raw request text carries: the last
/// space-separated field of the first line mentioning `Authorization`.
pub open spec fn spec_auth_token(raw: Seq<char>) -> Option<Seq<char>> {
    let lines = split_pat(raw, "\r\n"@);
    match first_with(lines, "Authorization"@, 0) {
        None => None,
        Some(i) => Some(split_pat(lines[i], " "@).last()),
    }
}

/// The cookie token the raw request text carries: on each line
/// mentioning `Cookie`, the `;`-separated pairs are scanned for one
/// mentioning `token`, and its value is everything after the last `=`.
pub open spec fn spec_cookie_token_from(lines: Seq<Seq<char>>, i: int) -> Option<Seq<char>>
    decreases lines.len() - i,
{
    if i < 0 || i >= lines.len() {
        None
    } else if contains_pat(lines[i], "Cookie"@) {
        let pieces = split_pat(lines[i], ";"@);
        match first_with(pieces, "token"@, 0) {
            Some(j) => Some(split_pat(pieces[j], "="@).last()),
            None => spec_cookie_token_from(lines, i + 1),
        }
    } else {
        spec_cookie_token_from(lines, i + 1)
    }
}

/// The cookie token the raw request text carries.
pub open spec fn spec_cookie_token(raw: Seq<char>) -> Option<Seq<char>> {
    spec_cookie_token_from(split_pat(raw, "\r\n"@), 0)
}

/// Extract the bearer token from raw request text: the last
/// space-separated field of the first line mentioning `Authorization`.
#[verifier::loop_isolation(false)]
pub fn extract_authorization_token(request_content: &str) -> (r: Result<String, AuthError>)
    ensures
        match spec_auth_token(request_content@) {
            Some(t) => r matches Ok(s) && s@ == t,
            None => r matches Err(e) && e is TokenNotFound,
        },
{
    proof {
        reveal_strlit("\r\n");
        reveal_strlit("Authorization");
        reveal_strlit(" ");
    }
    let lines = split_str(request_content, "\r\n");
    let ghost lines_v = lines.deep_view();
    let mut i: usize = 0;
    while i < lines.len()
        invariant
            0 <= i <= lines.len(),
            first_with(lines_v, "Authorization"@, 0) == first_with(lines_v, "Authorization"@, i as int),
        decreases lines.len() - i,
    {
        if contains_str(lines[i].as_str(), "Authorization") {
            let toks = split_str(lines[i].as_str(), " ");
            let t = toks[toks.len() - 1].clone();
            proof {
                assert(toks.deep_view().last() == toks.deep_view()[toks.len() - 1]);
            }
            return Ok(t);
        }
        i = i + 1;
    }
    Err(AuthError::TokenNotFound)
}

/// Extract the cookie token from raw request text: on a line mentioning
/// `Cookie`, the value after the last `=` of the first `;`-separated
/// pair mentioning `token`.
#[verifier::loop_isolation(false)]
pub fn extract_cookie_token(request_content: &str) -> (r: Result<String, AuthError>)
    ensures
        match spec_cookie_token(request_content@) {
            Some(t) => r matches Ok(s) && s@ == t,
            None => r matches Err(e) && e is TokenNotFound,
        },
{
    proof {
        reveal_strlit("\r\n");
        reveal_strlit("Cookie");
        reveal_strlit("token");
        reveal_strlit(";");
        reveal_strlit("=");
    }
    let lines = split_str(request_content, "\r\n");
    let ghost lines_v = lines.deep_view();
    let mut i: usize = 0;
    while i < lines.len()
        invariant
            0 <= i <= lines.len(),
            spec_cookie_token(request_content@) == spec_cookie_token_from(lines_v, i as int),
        decreases lines.len() - i,
    {
        if contains_str(lines[i].as_str(), "Cookie") {
            let pieces = split_str(lines[i].as_str(), ";");
            let ghost pieces_v = pieces.deep_view();
            let mut j: usize = 0;
            while j < pieces.len()
                invariant
                    0 <= j <= pieces.len(),
                    pieces_v == pieces.deep_view(),
                    pieces_v == split_pat(lines_v[i as int], ";"@),
                    i < lines.len(),
                    contains_pat(lines_v[i as int], "Cookie"@),
                    first_with(pieces_v, "token"@, 0) == first_with(pieces_v, "token"@, j as int),
                decreases pieces.len() - j,
            {
                if contains_str(pieces[j].as_str(), "token") {
                    let toks = split_str(pieces[j].as_str(), "=");
                    let t = toks[toks.len() - 1].clone();
                    proof {
                        assert(toks.deep_view().last() == toks.deep_view()[toks.len() - 1]);
                    }
                    return Ok(t);
                }
                j = j + 1;
            }
        }
        i = i + 1;
    }
    Err(AuthError::TokenNotFound)
}

/// Authenticate raw request text by its `Authorization` header as of
/// time `now`: extract the bearer token and verify it under
/// `secret_key`.
pub fn from_authorization_at(secret_key: &str, request_content: &str, now: i64) -> (r: Result<
    (),
    AuthError,
>)
    ensures
        match spec_auth_token(request_content@) {
            None => r matches Err(e) && e is TokenNotFound,
            Some(t) => match spec_token_verdict(secret_key@, t, now as int) {
                TokenVerdict::Valid => r is Ok,
                TokenVerdict::Expired => r matches Err(e) && e is ExpiredJwt,
                TokenVerdict::DecodeFailed => r matches Err(e) && e is DecodeError,
            },
        },
{
    match extract_authorization_token(request_content) {
        Err(e) => Err(e),
        Ok(t) => match jwt_verify_at(secret_key, t.as_str(), now) {
            Ok(true) => Ok(()),
            Ok(false) => Err(AuthError::ExpiredJwt),
            Err(err) => Err(AuthError::DecodeError(err)),
        },
    }
}

/// Authenticate raw request text by its `Authorization` header against
/// the clock.
pub fn from_authorization(secret_key: String, request_content: String) -> (r: Result<
    (),
    AuthError,
>)
    ensures
        match spec_auth_token(request_content@) {
            None => r matches Err(e) && e is TokenNotFound,
            Some(t) => match claims_of(secret_key@, t) {
                None => r matches Err(e) && e is DecodeError,
                Some(_) => r is Ok || (r matches Err(e) && e is ExpiredJwt),
            },
        },
{
    let now = now_ts();
    from_authorization_at(secret_key.as_str(), request_content.as_str(), now)
}

/// Authenticate raw request text by its `Cookie` header as of time
/// `now`: extract the cookie token and verify it under `secret_key`.
pub fn from_cookie_at(secret_key: &str, request_content: &str, now: i64) -> (r: Result<
    (),
    AuthError,
>)
    ensures
        match spec_cookie_token(request_content@) {
            None => r matches Err(e) && e is TokenNotFound,
            Some(t) => match spec_token_verdict(secret_key@, t, now as int) {
                TokenVerdict::Valid => r is Ok,
                TokenVerdict::Expired => r matches Err(e) && e is ExpiredJwt,
                TokenVerdict::DecodeFailed => r matches Err(e) && e is DecodeError,
            },
        },
{
    match extract_cookie_token(request_content) {
        Err(e) => Err(e),
        Ok(t) => match jwt_verify_at(secret_key, t.as_str(), now) {
            Ok(true) => Ok(()),
            Ok(false) => Err(AuthError::ExpiredJwt),
            Err(err) => Err(AuthError::DecodeError(err)),
        },
    }
}

/// Authenticate raw request text by its `Cookie` header against the
/// clock.
pub fn from_cookie(secret_key: String, request_content: String) -> (r: Result<(), AuthError>)
    ensures
        match spec_cookie_token(request_content@) {
            None => r matches Err(e) && e is TokenNotFound,
            Some(t) => match claims_of(secret_key@, t) {
                None => r matches Err(e) && e is DecodeError,
                Some(_) => r is Ok || (r matches Err(e) && e is ExpiredJwt),
            },
        },
{
    let now = now_ts();
    from_cookie_at(secret_key.as_str(), request_content.as_str(), now)
}

/// The rendered cookie header value for the given attributes.
pub open spec fn spec_cookie(
    key: Seq<char>,
    token: Seq<char>,
    domain: Seq<char>,
    path: Seq<char>,
    secure: bool,
    http_only: bool,
) -> Seq<char> {
    key + "="@ + token + "; Domain="@ + domain + "; Path="@ + path + (if secure {
        "; Secure"@
    } else {
        Seq::empty()
    }) + (if http_only {
        "; HttpOnly"@
    } else {
        Seq::empty()
    })
}

/// Render a cookie header value: `name=value`, the domain and path
/// attributes, and the `Secure` and `HttpOnly` flags when asked for.
pub fn create_cookie(
    key: String,
    token: String,
    domain: String,
    path: String,
    secure: bool,
    http_only: bool,
) -> (r: String)
    ensures
        r@ == spec_cookie(key@, token@, domain@, path@, secure, http_only),
{
    let mut out = key;
    out.append("=");
    out.append(token.as_str());
    out.append("; Domain=");
    out.append(domain.as_str());
    out.append("; Path=");
    out.append(path.as_str());
    if secure {
        out.append("; Secure");
    }
    if http_only {
        out.append("; HttpOnly");
    }
    proof {
        assert(out@ =~= spec_cookie(key@, token@, domain@, path@, secure, http_only));
    }
    out
}

/// A token a caller has just issued verifies as valid at any time up to
/// its expiry and as expired at any later time; in particular, right
/// after issuance with a positive lifetime it is valid, and once time
/// passes the expiry it is expired.
pub proof fn lemma_token_round_trip(
    secret: Seq<char>,
    token: Seq<char>,
    issued_at: int,
    ttl: int,
    later: int,
)
    requires
        claims_of(secret, token) == Some(issued_at + ttl),
        ttl > 0,
    ensures
        spec_token_verdict(secret, token, issued_at) == TokenVerdict::Valid,
        later > issued_at + ttl ==> spec_token_verdict(secret, token, later)
            == TokenVerdict::Expired,
{
}

/// A token that does not decode under a secret — in particular one
/// issued under a different secret — is judged `DecodeFailed` at every
/// time, never `Expired`.
pub proof fn lemma_wrong_secret_never_expired(secret: Seq<char>, token: Seq<char>, now: int)
    requires
        claims_of(secret, token) is None,
    ensures
        spec_token_verdict(secret, token, now) == TokenVerdict::DecodeFailed,
        spec_token_verdict(secret, token, now) != TokenVerdict::Expired,
{
}

} // verus!
