//! The authentication stage: admission with a valid token, rejection without one, and
//! pass-through for unprotected routes.

use northwind_auth::gate::gate_check;
use northwind_auth::jwt::Jwt;
use northwind_auth::AppError;

const SECRET: &str = "gate-secret";
const PREFIX: &str = "/v1/users";

fn token_at(now: i64) -> String {
    Jwt::generate_at("u-1", "Doe", "Jane", "jane@example.com", SECRET, 1, now).0
}

#[test]
fn valid_token_reaches_the_handler_exactly_once() {
    let header = format!("Bearer {}", token_at(1_000));
    let mut handler_runs = 0;
    for _request in 0..1 {
        match gate_check("/v1/users", PREFIX, Some(&header), SECRET, 2_000) {
            Ok(Some(claims)) => {
                handler_runs += 1;
                assert_eq!(claims.user_email, "jane@example.com");
                assert_eq!(claims.user_id, "u-1");
            }
            Ok(None) => panic!("protected route admitted without claims"),
            Err(_) => panic!("valid token rejected"),
        }
    }
    assert_eq!(handler_runs, 1);
}

#[test]
fn missing_header_is_rejected_before_any_handler() {
    let mut handler_runs = 0;
    let outcome = gate_check("/v1/users", PREFIX, None, SECRET, 2_000);
    if outcome.is_ok() {
        handler_runs += 1;
    }
    assert_eq!(handler_runs, 0);
    assert!(matches!(outcome, Err(AppError::Unauthorized)));
}

#[test]
fn expired_token_is_rejected() {
    let header = format!("Bearer {}", token_at(1_000));
    let outcome = gate_check("/v1/users/42", PREFIX, Some(&header), SECRET, 1_000 + 3600);
    assert!(matches!(outcome, Err(AppError::Unauthorized)));
}

#[test]
fn wrong_scheme_and_garbage_are_rejected() {
    let token = token_at(1_000);
    let outcome = gate_check("/v1/users", PREFIX, Some(&format!("Token {}", token)), SECRET, 2_000);
    assert!(matches!(outcome, Err(AppError::Unauthorized)));
    let outcome = gate_check("/v1/users", PREFIX, Some("Bearer garbage"), SECRET, 2_000);
    assert!(matches!(outcome, Err(AppError::Unauthorized)));
    let outcome = gate_check("/v1/users", PREFIX, Some(""), SECRET, 2_000);
    assert!(matches!(outcome, Err(AppError::Unauthorized)));
}

#[test]
fn unprotected_routes_pass_without_credentials() {
    let outcome = gate_check("/v1/login", PREFIX, None, SECRET, 2_000);
    assert!(matches!(outcome, Ok(None)));
    let outcome = gate_check("/healthz", PREFIX, None, SECRET, 2_000);
    assert!(matches!(outcome, Ok(None)));
}
