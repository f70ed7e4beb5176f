//! The login flow: a token for the right credentials, one
//! indistinguishable `Unauthorized` for everything else.

use northwind_auth::login::{login, login_response};
use northwind_auth::store::{delete_outcome, UserRepository};
use northwind_auth::user::{Login, User, UserCreation};
use northwind_auth::{AppError, AppState};

fn state() -> AppState {
    AppState { jwt_secret_key: "login-secret".to_string(), jwt_lifetime: 1 }
}

fn seeded_store() -> UserRepository {
    let mut store = UserRepository::new();
    let mut user = User::init(
        "u-1".to_string(),
        "Doe".to_string(),
        "Jane".to_string(),
        "jane@example.com".to_string(),
        "pa55word!!".to_string(),
        100,
        100,
        None,
    );
    store.create(&mut user).unwrap();
    store
}

fn attempt(email: &str, password: &str) -> Result<(), (u16, String)> {
    let input = Login { email: email.to_string(), password: password.to_string() };
    match login(&seeded_store(), &input, &state(), 1_000) {
        Ok(_) => Ok(()),
        Err(e) => Err((e.status_code(), e.name())),
    }
}

#[test]
fn successful_login_returns_a_verifiable_token() {
    let input = Login {
        email: "jane@example.com".to_string(),
        password: "pa55word!!".to_string(),
    };
    let resp = login(&seeded_store(), &input, &state(), 1_000).expect("right credentials");
    assert_eq!(resp.id, "u-1");
    assert_eq!(resp.lastname, "Doe");
    assert_eq!(resp.firstname, "Jane");
    assert_eq!(resp.email, "jane@example.com");
    assert_eq!(resp.expires_at, "1970-01-01T01:16:40Z");
    let claims = northwind_auth::jwt::Jwt::verify_at(&resp.token, "login-secret", 4_599)
        .expect("issued token verifies");
    assert_eq!(claims.user_id, "u-1");
    assert_eq!(claims.exp, 4_600);
}

#[test]
fn denied_logins_are_indistinguishable() {
    let unknown_email = attempt("nobody@example.com", "pa55word!!").unwrap_err();
    let wrong_password = attempt("jane@example.com", "not-the-password").unwrap_err();
    assert_eq!(unknown_email, wrong_password);
    assert_eq!(unknown_email, (401, "Unauthorized".to_string()));
}

#[test]
fn deleted_user_cannot_log_in() {
    let mut store = seeded_store();
    store.delete("u-1", 500).unwrap();
    let input = Login {
        email: "jane@example.com".to_string(),
        password: "pa55word!!".to_string(),
    };
    let outcome = login(&store, &input, &state(), 1_000);
    assert!(matches!(outcome, Err(AppError::Unauthorized)));
}

#[test]
fn login_response_without_a_principal_is_unauthorized() {
    let outcome = login_response(None, "login-secret", 1, 1_000);
    assert!(matches!(outcome, Err(AppError::Unauthorized)));
}

#[test]
fn malformed_input_is_a_client_error_not_unauthorized() {
    let good = Login {
        email: "jane@example.com".to_string(),
        password: "pa55word!!".to_string(),
    };
    assert!(good.validate().is_ok());

    let bad_email = Login {
        email: "not-an-email".to_string(),
        password: "pa55word!!".to_string(),
    };
    let refused = bad_email.validate().unwrap_err();
    assert!(matches!(refused, AppError::BadRequest { .. }));
    assert_eq!(refused.status_code(), 400);

    let short_password = Login {
        email: "jane@example.com".to_string(),
        password: "short".to_string(),
    };
    let refused = short_password.validate().unwrap_err();
    assert!(matches!(refused, AppError::BadRequest { .. }));

    let registration = UserCreation {
        lastname: "Doe".to_string(),
        firstname: "Jane".to_string(),
        email: "jane@".to_string(),
        password: "pa55word!!".to_string(),
    };
    assert!(matches!(
        registration.validate().unwrap_err(),
        AppError::BadRequest { .. }
    ));
}

#[test]
fn deletion_count_decides_the_outcome() {
    assert!(delete_outcome(Some(1)).is_ok());
    assert!(matches!(
        delete_outcome(Some(0)).unwrap_err(),
        AppError::InternalError { .. }
    ));
    assert!(matches!(
        delete_outcome(Some(2)).unwrap_err(),
        AppError::InternalError { .. }
    ));
    assert!(matches!(
        delete_outcome(None).unwrap_err(),
        AppError::InternalError { .. }
    ));
}

#[test]
fn rfc3339_rendering_of_the_epoch() {
    let user = User::init(
        "u-1".to_string(),
        "Doe".to_string(),
        "Jane".to_string(),
        "jane@example.com".to_string(),
        "hash".to_string(),
        0,
        0,
        None,
    );
    let resp = login_response(Some(user), "login-secret", 0, 0).expect("in range");
    assert_eq!(resp.expires_at, "1970-01-01T00:00:00Z");
}
