//! The error taxonomy and the user record's display name.

use northwind_auth::jwt::{to_unauthorized, TokenError};
use northwind_auth::user::{User, UserCreation};
use northwind_auth::{AppError, AppErrorMessage};

#[test]
fn status_codes_follow_the_taxonomy() {
    assert_eq!(AppError::InternalError { message: "x".to_string() }.status_code(), 500);
    assert_eq!(AppError::BadRequest { message: "x".to_string() }.status_code(), 400);
    assert_eq!(AppError::NotFound { message: "x".to_string() }.status_code(), 404);
    assert_eq!(AppError::Unauthorized.status_code(), 401);
}

#[test]
fn names_carry_the_message() {
    assert_eq!(AppError::NotFound { message: "No user found".to_string() }.name(), "No user found");
    assert_eq!(AppError::Unauthorized.name(), "Unauthorized");
}

#[test]
fn message_body_pairs_code_and_text() {
    let m: AppErrorMessage = AppError::Unauthorized.to_message();
    assert_eq!(m.code, 401);
    assert_eq!(m.message, "Unauthorized");
}

#[test]
fn every_token_failure_collapses_to_unauthorized() {
    for e in [TokenError::Malformed, TokenError::SignatureInvalid, TokenError::Expired] {
        let visible = to_unauthorized(&e);
        assert!(matches!(visible, AppError::Unauthorized));
        assert_eq!(visible.status_code(), 401);
    }
}

#[test]
fn fullname_joins_and_trims() {
    let mut user = User::init(
        "u-1".to_string(),
        "Chung".to_string(),
        "Thang".to_string(),
        String::new(),
        String::new(),
        0,
        0,
        None,
    );
    assert_eq!("Thang Chung", user._fullname());

    user.firstname = String::new();
    assert_eq!("Chung", user._fullname());

    user.firstname = "Thang".to_string();
    user.lastname = String::new();
    assert_eq!("Thang", user._fullname());

    user.firstname = String::new();
    user.lastname = String::new();
    assert_eq!("", user._fullname());

    user.firstname = "  Ann  ".to_string();
    user.lastname = "  Lee".to_string();
    assert_eq!("Ann     Lee", user._fullname());
}

#[test]
fn fullname_trims_every_kind_of_whitespace() {
    let mut user = User::init(
        "u-1".to_string(),
        String::new(),
        "\t".to_string(),
        String::new(),
        String::new(),
        0,
        0,
        None,
    );
    assert_eq!("", user._fullname());

    user.firstname = "\u{00a0}Jane\u{3000}".to_string();
    user.lastname = "\r\nDoe\t".to_string();
    let expected = format!("{} {}", user.firstname, user.lastname);
    assert_eq!(expected.trim(), user._fullname());
    assert_eq!("Jane\u{3000} \r\nDoe", user._fullname());
}

#[test]
fn new_user_copies_the_registration() {
    let fresh = User::new(UserCreation {
        lastname: "Doe".to_string(),
        firstname: "Jane".to_string(),
        email: "jane@example.com".to_string(),
        password: "pa55word!!".to_string(),
    });
    assert_eq!(fresh.lastname, "Doe");
    assert_eq!(fresh.firstname, "Jane");
    assert_eq!(fresh.email, "jane@example.com");
    assert_eq!(fresh.password, "pa55word!!");
    assert!(fresh.deleted_at.is_none());
    assert_eq!(fresh.id.len(), 36);
    let id: Vec<char> = fresh.id.chars().collect();
    assert_eq!(id[8], '-');
    assert_eq!(id[13], '-');
    assert_eq!(id[18], '-');
    assert_eq!(id[23], '-');
}
