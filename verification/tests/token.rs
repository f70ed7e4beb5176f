//! The token processor end to end: issue, verify, tamper, expire.

use northwind_auth::jwt::{to_unauthorized, Jwt, JwtProcessor, TokenError};
use northwind_auth::AppError;

const SECRET: &str = "53cr3t-k3y";

fn issue(now: i64, lifetime_hours: i64) -> (String, i64) {
    Jwt::generate_at(
        "7d2f0fd5-6986-4a23-b5b1-5d0d51e7eb9b",
        "Doe",
        "Jane",
        "jane.doe@example.com",
        SECRET,
        lifetime_hours,
        now,
    )
}

#[test]
fn round_trip_recovers_identity() {
    let (token, expires_at) = issue(1_000, 2);
    assert_eq!(expires_at, 1_000 + 2 * 3600);
    let claims = Jwt::verify_at(&token, SECRET, 1_500).expect("fresh token must verify");
    assert_eq!(claims.sub, "7d2f0fd5-6986-4a23-b5b1-5d0d51e7eb9b");
    assert_eq!(claims.user_id, "7d2f0fd5-6986-4a23-b5b1-5d0d51e7eb9b");
    assert_eq!(claims.user_lastname, "Doe");
    assert_eq!(claims.user_firstname, "Jane");
    assert_eq!(claims.user_email, "jane.doe@example.com");
    assert_eq!(claims.iat, 1_000);
    assert_eq!(claims.nbf, 1_000);
    assert_eq!(claims.exp, 1_000 + 2 * 3600);
}

#[test]
fn round_trip_with_awkward_strings() {
    let (token, _) = Jwt::generate_at(
        "id with \"quotes\" and \\slashes\\",
        "O'Brien \u{00e9}\u{4e16}",
        "Tab\there",
        "strange@example.com",
        SECRET,
        1,
        0,
    );
    let claims = Jwt::verify_at(&token, SECRET, 10).expect("escaped fields must round-trip");
    assert_eq!(claims.user_id, "id with \"quotes\" and \\slashes\\");
    assert_eq!(claims.user_firstname, "Tab\there");
}

#[test]
fn round_trip_with_empty_fields() {
    let (token, _) = Jwt::generate_at("", "", "", "", SECRET, 1, 0);
    let claims = Jwt::verify_at(&token, SECRET, 10).expect("empty fields must round-trip");
    assert_eq!(claims.user_id, "");
    assert_eq!(claims.user_lastname, "");
    assert_eq!(claims.user_email, "");
}

#[test]
fn concrete_scenario_one_hour() {
    let (token, expires_at) = Jwt::generate_at(
        "U1",
        "Last",
        "First",
        "a@example.com",
        SECRET,
        1,
        1_000,
    );
    assert_eq!(expires_at, 4_600);
    let claims = Jwt::verify_at(&token, SECRET, 4_599).expect("valid until just before expiry");
    assert_eq!(claims.user_email, "a@example.com");
    let denied = Jwt::verify_at(&token, SECRET, 4_601).unwrap_err();
    let visible = to_unauthorized(&denied);
    assert!(matches!(visible, AppError::Unauthorized));
    assert_eq!(visible.status_code(), 401);
}

#[test]
fn expiry_boundary() {
    let (token, expires_at) = issue(1_000, 0);
    assert_eq!(expires_at, 1_000);
    assert!(matches!(
        Jwt::verify_at(&token, SECRET, 1_000),
        Err(TokenError::Expired)
    ));
    assert!(matches!(
        Jwt::verify_at(&token, SECRET, 2_000),
        Err(TokenError::Expired)
    ));
    assert!(Jwt::verify_at(&token, SECRET, 999).is_ok());
}

#[test]
fn tampering_any_byte_is_rejected() {
    let (token, _) = issue(1_000, 1);
    let bytes = token.as_bytes();
    for i in 0..bytes.len() {
        let mut changed = bytes.to_vec();
        changed[i] = if changed[i] == b'A' { b'B' } else { b'A' };
        let changed = String::from_utf8(changed).unwrap();
        if changed == token {
            continue;
        }
        assert!(
            Jwt::verify_at(&changed, SECRET, 1_500).is_err(),
            "byte {} flipped and the token still verified",
            i
        );
    }
}

#[test]
fn wrong_secret_is_rejected() {
    let (token, _) = issue(1_000, 1);
    for other in ["53cr3t-k3y2", "53cr3t-k3", "another", "x"] {
        assert!(matches!(
            Jwt::verify_at(&token, other, 1_500),
            Err(TokenError::SignatureInvalid)
        ));
    }
    assert!(Jwt::verify_at(&token, SECRET, 1_500).is_ok());
}

#[test]
fn malformed_tokens_are_rejected() {
    assert!(matches!(
        Jwt::verify_at("", SECRET, 0),
        Err(TokenError::Malformed)
    ));
    assert!(matches!(
        Jwt::verify_at("no-dots-here", SECRET, 0),
        Err(TokenError::Malformed)
    ));
    assert!(matches!(
        Jwt::verify_at("one.dot", SECRET, 0),
        Err(TokenError::Malformed)
    ));
    assert!(matches!(
        Jwt::verify_at("a.b.c", SECRET, 0),
        Err(TokenError::SignatureInvalid)
    ));
}

#[test]
fn signature_matches_jsonwebtoken() {
    let (token, _) = issue(1_000, 1);
    let second_dot = token.rfind('.').unwrap();
    let (message, signature) = token.split_at(second_dot);
    let signature = &signature[1..];
    let key = jsonwebtoken::DecodingKey::from_secret(SECRET.as_bytes());
    let ok = jsonwebtoken::crypto::verify(
        signature,
        message.as_bytes(),
        &key,
        jsonwebtoken::Algorithm::HS512,
    )
    .expect("verification runs");
    assert!(ok, "jsonwebtoken does not accept the issued signature");
}

#[test]
fn wrong_algorithm_header_is_rejected() {
    let header = b"{\"alg\":\"HS256\",\"typ\":\"JWT\"}";
    let payload = b"{}";
    let h = String::from_utf8(northwind_auth::b64::encode(header)).unwrap();
    let p = String::from_utf8(northwind_auth::b64::encode(payload)).unwrap();
    let message = format!("{}.{}", h, p);
    let key = jsonwebtoken::EncodingKey::from_secret(SECRET.as_bytes());
    let sig = jsonwebtoken::crypto::sign(
        message.as_bytes(),
        &key,
        jsonwebtoken::Algorithm::HS512,
    )
    .unwrap();
    let token = format!("{}.{}", message, sig);
    // The tag itself is right, so the failure is the header, not the tag.
    assert!(matches!(
        Jwt::verify_at(&token, SECRET, 0),
        Err(TokenError::Malformed)
    ));
}

#[test]
fn any_conforming_processor_round_trips() {
    let processor = Jwt {};
    let (token, expires_at) =
        processor.generate("u-1", "Doe", "Jane", "jane@example.com", SECRET, 1, 1_000);
    assert_eq!(expires_at, 4_600);
    let claims = processor.parse(&token, SECRET, 2_000).expect("verifies through the trait");
    assert_eq!(claims.user_id, "u-1");
}

#[test]
fn generate_uses_the_real_clock() {
    let before = chrono::Utc::now().timestamp();
    let (token, expires_at) =
        Jwt::generate("u", "l", "f", "e@example.com", SECRET, 1).expect("generate succeeds");
    let after = chrono::Utc::now().timestamp();
    assert!(before + 3600 <= expires_at && expires_at <= after + 3600);
    let claims = Jwt::parse(&token, SECRET).expect("fresh token parses");
    assert_eq!(claims.user_email, "e@example.com");
}
