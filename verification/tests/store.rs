//! The identity store: hashing on creation, credential lookup, soft
//! deletion, and the update of names.

use northwind_auth::store::{hash_password, UserRepository};
use northwind_auth::user::User;

fn record(id: &str, email: &str, password_plain: &str) -> User {
    User::init(
        id.to_string(),
        "Doe".to_string(),
        "Jane".to_string(),
        email.to_string(),
        password_plain.to_string(),
        100,
        100,
        None,
    )
}

#[test]
fn hash_password_known_vectors() {
    assert_eq!(
        hash_password(""),
        "cf83e1357eefb8bdf1542850d66d8007d620e4050b5715dc83f4a921d36ce9ce\
         47d0d13c5d85f2b0ff8318d2877eec2f63b931bd47417a81a538327af927da3e"
    );
    assert_eq!(
        hash_password("abc"),
        "ddaf35a193617abacc417349ae20413112e6fa4e89a97ea20a9eeee64b55d39a\
         2192992a274fc1a836ba3c23a3feebbd454d4423643ce80e2a9ac94fa54ca49f"
    );
}

#[test]
fn create_hashes_the_password() {
    let mut store = UserRepository::new();
    let mut user = record("u-1", "jane@example.com", "pa55word!!");
    let created = store.create(&mut user).expect("fresh id");
    assert_eq!(created, Some(1));
    assert_ne!(user.password, "pa55word!!");
    assert_eq!(user.password.len(), 128);
    assert_eq!(user.password, hash_password("pa55word!!"));
}

#[test]
fn login_accepts_only_the_right_credentials() {
    let mut store = UserRepository::new();
    let mut user = record("u-1", "jane@example.com", "pa55word!!");
    store.create(&mut user).unwrap();
    let found = store.login("jane@example.com", "pa55word!!");
    assert_eq!(found.expect("right credentials").id, "u-1");
    assert!(store.login("jane@example.com", "wrong-password").is_none());
    assert!(store.login("nobody@example.com", "pa55word!!").is_none());
    assert!(store.login("jane@example.com", "").is_none());
}

#[test]
fn duplicate_id_is_a_storage_error() {
    let mut store = UserRepository::new();
    let mut a = record("u-1", "jane@example.com", "pw-aaaaaa");
    store.create(&mut a).unwrap();
    let mut b = record("u-1", "john@example.com", "pw-bbbbbb");
    let refused = store.create(&mut b).unwrap_err();
    assert!(matches!(
        refused,
        northwind_auth::AppError::InternalError { .. }
    ));
    assert_eq!(store.get_all().len(), 1);
}

#[test]
fn get_all_skips_deleted_records() {
    let mut store = UserRepository::new();
    let mut a = record("u-1", "jane@example.com", "pw-aaaaaa");
    let mut b = record("u-2", "john@example.com", "pw-bbbbbb");
    store.create(&mut a).unwrap();
    store.create(&mut b).unwrap();
    assert_eq!(store.get_all().len(), 2);
    let deleted = store.delete("u-1", 500).unwrap();
    assert_eq!(deleted, Some(1));
    let remaining = store.get_all();
    assert_eq!(remaining.len(), 1);
    assert_eq!(remaining[0].id, "u-2");
    assert!(store.get_by_id("u-1").is_none());
    assert_eq!(store.get_by_id("u-2").unwrap().email, "john@example.com");
}

#[test]
fn delete_counts_rows_with_the_id_even_when_already_deleted() {
    let mut store = UserRepository::new();
    let mut a = record("u-1", "jane@example.com", "pw-aaaaaa");
    store.create(&mut a).unwrap();
    assert_eq!(store.delete("u-1", 500).unwrap(), Some(1));
    assert_eq!(store.delete("u-1", 600).unwrap(), Some(1));
    assert_eq!(store.delete("u-9", 700).unwrap(), Some(0));
}

#[test]
fn update_changes_names_and_stamps_the_time() {
    let mut store = UserRepository::new();
    let mut a = record("u-1", "jane@example.com", "pw-aaaaaa");
    store.create(&mut a).unwrap();
    let touched = store.update("u-1", "Janet", "Smith", 900).unwrap();
    assert_eq!(touched, Some(1));
    let after = store.get_by_id("u-1").unwrap();
    assert_eq!(after.firstname, "Janet");
    assert_eq!(after.lastname, "Smith");
    assert_eq!(after.updated_at, 900);
    assert_eq!(after.email, "jane@example.com");
    assert_eq!(store.update("u-9", "X", "Y", 950).unwrap(), Some(0));
}
