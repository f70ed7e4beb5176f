//! The login flow: from the store's answer to a credential lookup to the
//! client's response — a fresh token and its expiry — or the one
//! `Unauthorized` outcome that reveals nothing of why it was denied.

use vstd::prelude::*;
use vstd::utf8::encode_utf8;

use crate::AppState;
use crate::clock::rfc3339_of;
use crate::clock::rfc3339_utc_seconds;
use crate::crypto::sha512_hex_of;
use crate::errors::AppError;
use crate::jwt::Jwt;
use crate::jwt::issued_claims;
use crate::jwt::token_bytes;
use crate::store::UserRepository;
use crate::store::live_match;
use crate::user::Login;
use crate::user::User;

verus! {

/// What a successful login returns to the client: the principal's display
/// identity, the token, and its expiry rendered as an RFC 3339 timestamp.
pub struct LoginResponse {
    pub id: String,
    pub lastname: String,
    pub firstname: String,
    pub email: String,
    pub token: String,
    pub expires_at: String,
}

/// A login attempt that no live record answers: the email is unknown, or
/// the password's hash does not match the stored one. The two are not
/// distinguished.
pub open spec fn login_rejected(users: Seq<User>, email: Seq<char>, password: Seq<char>) -> bool {
    forall|i: int|
        0 <= i < users.len() ==> !#[trigger] live_match(
            users[i],
            email,
            sha512_hex_of(encode_utf8(password)),
        )
}

/// The error a denied login is answered with.
pub open spec fn spec_login_error(
    users: Seq<User>,
    email: Seq<char>,
    password: Seq<char>,
) -> Option<AppError> {
    if login_rejected(users, email, password) {
        Some(AppError::Unauthorized)
    } else {
        None
    }
}

/// The response `resp` is the one owed to `u` for a login at `now` under
/// the given secret and lifetime.
pub open spec fn response_for(
    resp: LoginResponse,
    u: User,
    secret: Seq<char>,
    lifetime: int,
    now: int,
) -> bool {
    let exp = now + lifetime * 3600;
    resp.id@ == u.id@ && resp.lastname@ == u.lastname@ && resp.firstname@ == u.firstname@
        && resp.email@ == u.email@ && encode_utf8(resp.token@) == token_bytes(
        issued_claims(u.id@, u.lastname@, u.firstname@, u.email@, now, exp),
        encode_utf8(secret),
    ) && resp.expires_at@ == rfc3339_of(exp)
}

/// Build the login response for the store's answer: a token for the found
/// principal, or `Unauthorized` when nothing was found, whatever the
/// reason. Rendering the expiry fails only outside the calendar's range,
/// and that failure is the storage side's, never `Unauthorized`.
pub fn login_response(
    found: Option<User>,
    secret_key: &str,
    jwt_lifetime: i64,
    now: i64,
) -> (r: Result<LoginResponse, AppError>)
    requires
        secret_key@.len() > 0,
        i64::MIN <= jwt_lifetime * 3600 <= i64::MAX,
        i64::MIN <= now + jwt_lifetime * 3600 <= i64::MAX,
    ensures
        found is None ==> r == Err::<LoginResponse, AppError>(AppError::Unauthorized),
        found is Some ==> (match r {
            Ok(resp) => response_for(
                resp,
                found->0,
                secret_key@,
                jwt_lifetime as int,
                now as int,
            ),
            Err(e) => e is InternalError,
        }),
        found is Some && 0 <= now + jwt_lifetime * 3600 <= 253_402_300_799 ==> r is Ok,
{
    let user = match found {
        Some(u) => u,
        None => {
            return Err(AppError::Unauthorized);
        },
    };
    let (token, expires_at) = Jwt::generate_at(
        user.id.as_str(),
        user.lastname.as_str(),
        user.firstname.as_str(),
        user.email.as_str(),
        secret_key,
        jwt_lifetime,
        now,
    );
    let expires_text = match rfc3339_utc_seconds(expires_at) {
        Some(s) => s,
        None => {
            return Err(
                AppError::InternalError { message: "expiry out of calendar range".to_owned() },
            );
        },
    };
    Ok(
        LoginResponse {
            id: user.id,
            lastname: user.lastname,
            firstname: user.firstname,
            email: user.email,
            token: token,
            expires_at: expires_text,
        },
    )
}

/// The whole login decision: look the credentials up in the store, and
/// answer with a token for the found principal or with `Unauthorized`.
pub fn login(store: &UserRepository, input: &Login, state: &AppState, now: i64) -> (r: Result<
    LoginResponse,
    AppError,
>)
    requires
        state.jwt_secret_key@.len() > 0,
        i64::MIN <= state.jwt_lifetime * 3600 <= i64::MAX,
        i64::MIN <= now + state.jwt_lifetime * 3600 <= i64::MAX,
    ensures
        login_rejected(store.users@, input.email@, input.password@) ==> r == Err::<
            LoginResponse,
            AppError,
        >(AppError::Unauthorized),
        r is Ok ==> exists|i: int|
            0 <= i < store.users@.len() && #[trigger] live_match(
                store.users@[i],
                input.email@,
                sha512_hex_of(encode_utf8(input.password@)),
            ) && response_for(
                r->Ok_0,
                store.users@[i],
                state.jwt_secret_key@,
                state.jwt_lifetime as int,
                now as int,
            ),
        r is Err ==> r->Err_0 == AppError::Unauthorized || r->Err_0 is InternalError,
        !login_rejected(store.users@, input.email@, input.password@) && 0 <= now
            + state.jwt_lifetime * 3600 <= 253_402_300_799 ==> r is Ok,
{
    let found = store.login(input.email.as_str(), input.password.as_str());
    login_response(found, state.jwt_secret_key.as_str(), state.jwt_lifetime, now)
}

/// Login non-disclosure: any two denied login attempts — an unknown email,
/// or a known email with the wrong password — are answered by the very
/// same error value, so the outcome reveals nothing of which check failed.
pub proof fn lemma_login_non_disclosure(
    users_a: Seq<User>,
    email_a: Seq<char>,
    password_a: Seq<char>,
    users_b: Seq<User>,
    email_b: Seq<char>,
    password_b: Seq<char>,
)
    requires
        login_rejected(users_a, email_a, password_a),
        login_rejected(users_b, email_b, password_b),
    ensures
        spec_login_error(users_a, email_a, password_a) == spec_login_error(
            users_b,
            email_b,
            password_b,
        ),
        spec_login_error(users_a, email_a, password_a) == Some(AppError::Unauthorized),
{
}

} // verus!
