//! The authentication gate: the per-request stage that extracts a bearer
//! credential, verifies it, and either admits the request with the
//! recovered claims attached or rejects it before any handler runs. Routes
//! outside the protected prefix pass through unauthenticated.

use vstd::prelude::*;
use vstd::string::StringSliceAdditionalSpecFns;
use vstd::utf8::*;

use crate::claims::Claims;
use crate::claims::ClaimsView;
use crate::claims::begins_with;
use crate::errors::AppError;
use crate::jwt::spec_verify;
use crate::jwt::token_bytes;
use crate::jwt::verify_bytes;
use crate::textutil::starts_with_bytes;

verus! {

/// The bytes of `Bearer ` followed by a space: the credential's carrier in
/// the authorization header.
pub open spec fn bearer_prefix() -> Seq<u8> {
    seq![66u8, 101u8, 97u8, 114u8, 101u8, 114u8, 32u8]
}

/// The token carried by an authorization header, when the header has the
/// bearer shape.
pub open spec fn bearer_token(header: Seq<u8>) -> Option<Seq<u8>> {
    if begins_with(header, bearer_prefix()) {
        Some(header.skip(7))
    } else {
        None
    }
}

/// What the authentication stage decides for one request: forwarded without claims when the
/// path is not under the protected prefix; forwarded with the verified
/// claims when the header carries a token that verifies; rejected as
/// `Unauthorized` otherwise, whatever the reason, before any handler runs.
pub open spec fn spec_gate(
    path: Seq<u8>,
    prefix: Seq<u8>,
    authorization: Option<Seq<u8>>,
    secret: Seq<u8>,
    now: int,
) -> Result<Option<ClaimsView>, AppError> {
    if !begins_with(path, prefix) {
        Ok(None)
    } else {
        match authorization {
            None => Err(AppError::Unauthorized),
            Some(h) => match bearer_token(h) {
                None => Err(AppError::Unauthorized),
                Some(tok) => match spec_verify(tok, secret, now) {
                    Ok(c) => Ok(Some(c)),
                    Err(_) => Err(AppError::Unauthorized),
                },
            },
        }
    }
}

/// The bearer prefix as bytes.
fn bearer_vec() -> (r: Vec<u8>)
    ensures
        r@ == bearer_prefix(),
{
    let mut v: Vec<u8> = Vec::new();
    v.push(66);
    v.push(101);
    v.push(97);
    v.push(114);
    v.push(101);
    v.push(114);
    v.push(32);
    proof {
        assert(v@ =~= bearer_prefix());
    }
    v
}

/// Run the authentication stage for one request: the path, the protected prefix, the
/// request's authorization header if it carried one, the process-wide
/// secret, and the clock reading. `Ok` forwards the request, carrying the
/// verified claims when the route is protected; `Err` rejects it.
pub fn gate_check(
    path: &str,
    protected_prefix: &str,
    authorization: Option<&str>,
    secret_key: &str,
    now: i64,
) -> (r: Result<Option<Claims>, AppError>)
    ensures
        ({
            let spec_auth = match authorization {
                Some(h) => Some(h.spec_bytes()),
                None => None,
            };
            match r {
                Ok(oc) => {
                    let sc = match oc {
                        Some(c) => Some(c@),
                        None => None,
                    };
                    spec_gate(
                        path.spec_bytes(),
                        protected_prefix.spec_bytes(),
                        spec_auth,
                        secret_key.spec_bytes(),
                        now as int,
                    ) == Ok::<Option<ClaimsView>, AppError>(sc) && (oc is Some ==> oc->0@.wf())
                },
                Err(e) => spec_gate(
                    path.spec_bytes(),
                    protected_prefix.spec_bytes(),
                    spec_auth,
                    secret_key.spec_bytes(),
                    now as int,
                ) == Err::<Option<ClaimsView>, AppError>(e),
            }
        }),
{
    if !starts_with_bytes(path.as_bytes(), protected_prefix.as_bytes()) {
        return Ok(None);
    }
    let header = match authorization {
        Some(h) => h,
        None => {
            return Err(AppError::Unauthorized);
        },
    };
    let hb = header.as_bytes();
    let bp = bearer_vec();
    if !starts_with_bytes(hb, bp.as_slice()) {
        return Err(AppError::Unauthorized);
    }
    let tok = vstd::slice::slice_subrange(hb, 7, hb.len());
    proof {
        assert(tok@ =~= header.spec_bytes().skip(7));
    }
    match verify_bytes(tok, secret_key.as_bytes(), now) {
        Ok(c) => Ok(Some(c)),
        Err(_) => Err(AppError::Unauthorized),
    }
}

/// The admission law of the authentication stage: under the protected prefix, a request whose
/// header carries a freshly signed, unexpired token is forwarded with
/// exactly the signed claims; one with no header, and one whose token has
/// expired, are rejected before any handler runs.
pub proof fn lemma_gate_admission(
    path: Seq<u8>,
    prefix: Seq<u8>,
    c: ClaimsView,
    secret: Seq<u8>,
    now: int,
)
    requires
        c.wf(),
        begins_with(path, prefix),
    ensures
        now < c.exp ==> spec_gate(
            path,
            prefix,
            Some(bearer_prefix() + token_bytes(c, secret)),
            secret,
            now,
        ) == Ok::<Option<ClaimsView>, AppError>(Some(c)),
        spec_gate(path, prefix, None, secret, now) == Err::<Option<ClaimsView>, AppError>(
            AppError::Unauthorized,
        ),
        now >= c.exp ==> spec_gate(
            path,
            prefix,
            Some(bearer_prefix() + token_bytes(c, secret)),
            secret,
            now,
        ) == Err::<Option<ClaimsView>, AppError>(AppError::Unauthorized),
{
    let h = bearer_prefix() + token_bytes(c, secret);
    assert(h.take(7) =~= bearer_prefix());
    assert(h.skip(7) =~= token_bytes(c, secret));
    crate::jwt::lemma_issue_verify(c, secret, now);
}

} // verus!
