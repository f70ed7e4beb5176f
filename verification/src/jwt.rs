//! The token processor: issuing a signed, time-bounded credential and
//! verifying one. A token is the base64url of a fixed header, a dot, the
//! base64url of the canonical claims payload, a dot, and the HMAC-SHA512
//! tag of everything before the second dot.

use vstd::prelude::*;
use vstd::utf8::*;

use crate::b64::b64_decode;
use crate::b64::b64_encode;
use crate::b64::is_b64_byte;
use crate::claims::Claims;
use crate::claims::ClaimsView;
use crate::claims::parse_payload;
use crate::claims::payload_bytes;
use crate::claims::read_payload;
use crate::claims::render_payload;
use crate::clock::now_epoch_seconds;
use crate::crypto::hs512_sig_of;
use crate::crypto::hs512_sign;
use crate::errors::AppError;
use crate::textutil::bytes_eq;
use crate::textutil::bytes_to_string;
use crate::textutil::lemma_ascii_bytes_valid_utf8;

verus! {

/// Why a token was refused. Every kind collapses to the same
/// client-visible `Unauthorized` outcome, so a caller cannot learn which
/// check failed.
#[derive(Debug, Clone, Copy, PartialEq, Eq, Structural)]
pub enum TokenError {
    /// The token does not have the shape of a token.
    Malformed,
    /// The tag does not match the payload under the given secret.
    SignatureInvalid,
    /// The token's expiry is not after the verification time.
    Expired,
}

/// The fixed header: the object naming HS512 and JWT.
pub open spec fn header_bytes() -> Seq<u8> {
    seq![
        123u8,
        34u8,
        97u8,
        108u8,
        103u8,
        34u8,
        58u8,
        34u8,
        72u8,
        83u8,
        53u8,
        49u8,
        50u8,
        34u8,
        44u8,
        34u8,
        116u8,
        121u8,
        112u8,
        34u8,
        58u8,
        34u8,
        74u8,
        87u8,
        84u8,
        34u8,
        125u8,
    ]
}

/// What is signed: encoded header, dot, encoded payload.
pub open spec fn signing_input(c: ClaimsView) -> Seq<u8> {
    b64_encode(header_bytes()) + seq![46u8] + b64_encode(payload_bytes(c))
}

/// A whole token: the signing input, a dot, and its tag.
pub open spec fn token_bytes(c: ClaimsView, secret: Seq<u8>) -> Seq<u8> {
    signing_input(c) + seq![46u8] + hs512_sig_of(secret, signing_input(c))
}

/// The first position of `b` in `s`, or -1.
pub open spec fn find_byte(s: Seq<u8>, b: u8) -> int
    decreases s.len(),
{
    if s.len() == 0 {
        -1
    } else if s[0] == b {
        0
    } else {
        let r = find_byte(s.skip(1), b);
        if r < 0 {
            -1
        } else {
            1 + r
        }
    }
}

/// What verification decides for a token, a secret and a reading of the
/// clock. The token must split at two dots; the tag over everything before
/// the second dot must match; the header must be exactly the fixed one; the
/// payload must read back as claims; and the expiry must be strictly after
/// the clock reading.
pub open spec fn spec_verify(t: Seq<u8>, secret: Seq<u8>, now: int) -> Result<
    ClaimsView,
    TokenError,
> {
    let i = find_byte(t, 46);
    if i < 0 {
        Err(TokenError::Malformed)
    } else {
        let j2 = find_byte(t.skip(i + 1), 46);
        if j2 < 0 {
            Err(TokenError::Malformed)
        } else {
            let j = i + 1 + j2;
            if t.skip(j + 1) != hs512_sig_of(secret, t.take(j)) {
                Err(TokenError::SignatureInvalid)
            } else if b64_decode(t.take(i)) != Some(header_bytes()) {
                Err(TokenError::Malformed)
            } else {
                match b64_decode(t.subrange(i + 1, j)) {
                    None => Err(TokenError::Malformed),
                    Some(pb) => match parse_payload(pb) {
                        None => Err(TokenError::Malformed),
                        Some(c) => if now >= c.exp {
                            Err(TokenError::Expired)
                        } else {
                            Ok(c)
                        },
                    },
                }
            }
        }
    }
}

/// The fixed header as bytes.
fn header_vec() -> (r: Vec<u8>)
    ensures
        r@ == header_bytes(),
{
    let mut v: Vec<u8> = Vec::new();
    v.push(123);
    v.push(34);
    v.push(97);
    v.push(108);
    v.push(103);
    v.push(34);
    v.push(58);
    v.push(34);
    v.push(72);
    v.push(83);
    v.push(53);
    v.push(49);
    v.push(50);
    v.push(34);
    v.push(44);
    v.push(34);
    v.push(116);
    v.push(121);
    v.push(112);
    v.push(34);
    v.push(58);
    v.push(34);
    v.push(74);
    v.push(87);
    v.push(84);
    v.push(34);
    v.push(125);
    proof {
        assert(v@ =~= header_bytes());
    }
    v
}

/// Sign a claims value under a secret: the token's text.
pub fn sign_claims(c: &Claims, secret_key: &str) -> (t: String)
    ensures
        encode_utf8(t@) == token_bytes(c@, encode_utf8(secret_key@)),
        t@ == decode_utf8(token_bytes(c@, encode_utf8(secret_key@))),
{
    let hb = header_vec();
    let e1 = crate::b64::encode(hb.as_slice());
    let pb = render_payload(c);
    let e2 = crate::b64::encode(pb.as_slice());
    let mut msg = e1;
    msg.push(46);
    let mut tail = e2;
    msg.append(&mut tail);
    proof {
        assert(msg@ =~= signing_input(c@));
    }
    let mut sig = hs512_sign(secret_key.as_bytes(), msg.as_slice());
    let ghost sig_view = sig@;
    let mut token = msg;
    token.push(46);
    token.append(&mut sig);
    proof {
        assert(token@ =~= token_bytes(c@, encode_utf8(secret_key@)));
        crate::b64::lemma_b64_encode_alphabet(header_bytes());
        crate::b64::lemma_b64_encode_alphabet(payload_bytes(c@));
        assert forall|i: int| 0 <= i < token@.len() implies token@[i] < 128 by {
            let e1l = b64_encode(header_bytes()).len() as int;
            let e2l = b64_encode(payload_bytes(c@)).len() as int;
            if i < e1l {
                assert(is_b64_byte(b64_encode(header_bytes())[i]));
            } else if i == e1l {
            } else if i < e1l + 1 + e2l {
                assert(is_b64_byte(b64_encode(payload_bytes(c@))[i - e1l - 1]));
            } else if i == e1l + 1 + e2l {
            } else {
                assert(token@[i] == sig_view[i - (e1l + 1 + e2l + 1)]);
                assert(is_b64_byte(sig_view[i - (e1l + 1 + e2l + 1)]));
            }
        }
        lemma_ascii_bytes_valid_utf8(token@);
    }
    match bytes_to_string(token) {
        Some(s) => s,
        None => vstd::pervasive::unreached(),
    }
}

/// Find the first dot at or after `from`.
fn find_dot(s: &[u8], from: usize) -> (r: Option<usize>)
    requires
        from <= s@.len(),
    ensures
        match r {
            Some(j) => from <= j < s@.len() && find_byte(s@.skip(from as int), 46) == j - from,
            None => find_byte(s@.skip(from as int), 46) == -1,
        },
{
    let ghost rest = s@.skip(from as int);
    let mut j: usize = from;
    while j < s.len()
        invariant
            from <= j <= s@.len(),
            rest == s@.skip(from as int),
            forall|m: int| from <= m < j ==> s@[m] != 46,
        decreases s@.len() - j,
    {
        if s[j] == 46 {
            proof {
                assert forall|m: int| 0 <= m < j - from implies rest[m] != 46 by {
                    assert(rest[m] == s@[from + m]);
                }
                assert(rest[j - from] == 46);
                lemma_find_byte_at(rest, (j - from) as int);
            }
            return Some(j);
        }
        j = j + 1;
    }
    proof {
        assert forall|m: int| 0 <= m < rest.len() implies rest[m] != 46 by {
            assert(rest[m] == s@[from + m]);
        }
        lemma_find_byte_none(rest);
    }
    None
}

/// `find_byte` lands on the first position that holds the byte.
proof fn lemma_find_byte_at(s: Seq<u8>, k: int)
    requires
        0 <= k < s.len(),
        forall|m: int| 0 <= m < k ==> s[m] != 46,
        s[k] == 46,
    ensures
        find_byte(s, 46) == k,
    decreases k,
{
    if k > 0 {
        assert forall|m: int| 0 <= m < k - 1 implies s.skip(1)[m] != 46 by {
            assert(s.skip(1)[m] == s[m + 1]);
        }
        assert(s.skip(1)[k - 1] == s[k]);
        lemma_find_byte_at(s.skip(1), k - 1);
    }
}

/// `find_byte` reports absence exactly when the byte is absent.
proof fn lemma_find_byte_none(s: Seq<u8>)
    requires
        forall|m: int| 0 <= m < s.len() ==> s[m] != 46,
    ensures
        find_byte(s, 46) == -1,
    decreases s.len(),
{
    if s.len() > 0 {
        assert forall|m: int| 0 <= m < s.skip(1).len() implies s.skip(1)[m] != 46 by {
            assert(s.skip(1)[m] == s[m + 1]);
        }
        lemma_find_byte_none(s.skip(1));
    }
}

/// Verify a token's bytes under a secret at a given clock reading.
pub fn verify_bytes(token: &[u8], secret: &[u8], now: i64) -> (r: Result<Claims, TokenError>)
    ensures
        match r {
            Ok(c) => spec_verify(token@, secret@, now as int) == Ok::<ClaimsView, TokenError>(c@)
                && c@.wf(),
            Err(e) => spec_verify(token@, secret@, now as int) == Err::<ClaimsView, TokenError>(e),
        },
{
    let n = token.len();
    proof {
        assert(token@.skip(0) =~= token@);
    }
    let i = match find_dot(token, 0) {
        Some(i) => i,
        None => {
            return Err(TokenError::Malformed);
        },
    };
    proof {
        assert(i < n);
    }
    let j = match find_dot(token, i + 1) {
        Some(j) => j,
        None => {
            return Err(TokenError::Malformed);
        },
    };
    proof {
        assert(j < n);
    }
    let msg = vstd::slice::slice_subrange(token, 0, j);
    let sig_part = vstd::slice::slice_subrange(token, j + 1, n);
    let sig = hs512_sign(secret, msg);
    proof {
        assert(token@.take(j as int) == token@.subrange(0, j as int));
        assert(token@.skip(j + 1) == token@.subrange(j + 1, token@.len() as int));
    }
    if !bytes_eq(sig.as_slice(), sig_part) {
        return Err(TokenError::SignatureInvalid);
    }
    let hd = vstd::slice::slice_subrange(token, 0, i);
    proof {
        assert(token@.take(i as int) == token@.subrange(0, i as int));
    }
    let hv = header_vec();
    let header_ok = match crate::b64::decode(hd) {
        Some(d) => bytes_eq(d.as_slice(), hv.as_slice()),
        None => false,
    };
    if !header_ok {
        return Err(TokenError::Malformed);
    }
    let pd = vstd::slice::slice_subrange(token, i + 1, j);
    let pb = match crate::b64::decode(pd) {
        Some(d) => d,
        None => {
            return Err(TokenError::Malformed);
        },
    };
    let c = match read_payload(pb.as_slice()) {
        Some(c) => c,
        None => {
            return Err(TokenError::Malformed);
        },
    };
    if now >= c.exp {
        return Err(TokenError::Expired);
    }
    Ok(c)
}

/// The claims issued for an identity at a clock reading with an expiry.
pub open spec fn issued_claims(
    user_id: Seq<char>,
    user_lastname: Seq<char>,
    user_firstname: Seq<char>,
    user_email: Seq<char>,
    iat: int,
    exp: int,
) -> ClaimsView {
    ClaimsView {
        sub: user_id,
        exp: exp,
        iat: iat,
        nbf: iat,
        user_id: user_id,
        user_lastname: user_lastname,
        user_firstname: user_firstname,
        user_email: user_email,
    }
}

/// What `Jwt::generate` promises of a token it returns: for some clock
/// reading, the token signs the identity issued at that reading, and the
/// returned expiry is that reading plus the lifetime in seconds.
pub open spec fn spec_generated(
    token: Seq<char>,
    expires_at: int,
    user_id: Seq<char>,
    user_lastname: Seq<char>,
    user_firstname: Seq<char>,
    user_email: Seq<char>,
    secret_key: Seq<char>,
    jwt_lifetime: int,
) -> bool {
    exists|t: int|
        #![auto]
        expires_at == t + jwt_lifetime * 3600 && i64::MIN <= t <= i64::MAX && i64::MIN <= expires_at
            <= i64::MAX && encode_utf8(token) == token_bytes(
            issued_claims(user_id, user_lastname, user_firstname, user_email, t, expires_at),
            encode_utf8(secret_key),
        )
}

/// The token processor: a conforming signer over the fixed MAC algorithm.
pub struct Jwt {}

impl Jwt {
    /// Issue a token for an identity at a given clock reading: the token
    /// and its expiry, the reading plus the lifetime in seconds.
    pub fn generate_at(
        user_id: &str,
        user_lastname: &str,
        user_firstname: &str,
        user_email: &str,
        secret_key: &str,
        jwt_lifetime: i64,
        now: i64,
    ) -> (r: (String, i64))
        requires
            secret_key@.len() > 0,
            i64::MIN <= jwt_lifetime * 3600 <= i64::MAX,
            i64::MIN <= now + jwt_lifetime * 3600 <= i64::MAX,
        ensures
            r.1 == now + jwt_lifetime * 3600,
            encode_utf8(r.0@) == token_bytes(
                issued_claims(
                    user_id@,
                    user_lastname@,
                    user_firstname@,
                    user_email@,
                    now as int,
                    r.1 as int,
                ),
                encode_utf8(secret_key@),
            ),
    {
        let expires_at = now + jwt_lifetime * 3600;
        let c = Claims {
            sub: user_id.to_owned(),
            exp: expires_at,
            iat: now,
            nbf: now,
            user_id: user_id.to_owned(),
            user_lastname: user_lastname.to_owned(),
            user_firstname: user_firstname.to_owned(),
            user_email: user_email.to_owned(),
        };
        let token = sign_claims(&c, secret_key);
        (token, expires_at)
    }

    /// Verify a token at a given clock reading, recovering its claims.
    pub fn verify_at(token: &str, secret_key: &str, now: i64) -> (r: Result<Claims, TokenError>)
        ensures
            match r {
                Ok(c) => spec_verify(encode_utf8(token@), encode_utf8(secret_key@), now as int)
                    == Ok::<ClaimsView, TokenError>(c@) && c@.wf(),
                Err(e) => spec_verify(encode_utf8(token@), encode_utf8(secret_key@), now as int)
                    == Err::<ClaimsView, TokenError>(e),
            },
    {
        verify_bytes(token.as_bytes(), secret_key.as_bytes(), now)
    }

    /// Issue a token for an identity at the current time. Fails only when
    /// the expiry would not fit its machine type.
    pub fn generate(
        user_id: &str,
        user_lastname: &str,
        user_firstname: &str,
        user_email: &str,
        secret_key: &str,
        jwt_lifetime: i64,
    ) -> (r: Result<(String, i64), AppError>)
        requires
            secret_key@.len() > 0,
        ensures
            match r {
                Ok(p) => spec_generated(
                    p.0@,
                    p.1 as int,
                    user_id@,
                    user_lastname@,
                    user_firstname@,
                    user_email@,
                    secret_key@,
                    jwt_lifetime as int,
                ),
                Err(e) => e is InternalError,
            },
    {
        let now = now_epoch_seconds();
        let prod: i128 = (jwt_lifetime as i128) * 3600;
        if prod < i64::MIN as i128 || prod > i64::MAX as i128 {
            return Err(
                AppError::InternalError { message: "token lifetime out of range".to_owned() },
            );
        }
        let sum: i128 = (now as i128) + prod;
        if sum < i64::MIN as i128 || sum > i64::MAX as i128 {
            return Err(
                AppError::InternalError { message: "token lifetime out of range".to_owned() },
            );
        }
        let p = Self::generate_at(
            user_id,
            user_lastname,
            user_firstname,
            user_email,
            secret_key,
            jwt_lifetime,
            now,
        );
        Ok(p)
    }

    /// Verify a token at the current time, recovering its claims.
    pub fn parse(token: &str, secret_key: &str) -> (r: Result<Claims, TokenError>)
        ensures
            match r {
                Ok(c) => c@.wf() && exists|t: int|
                    #![auto]
                    spec_verify(encode_utf8(token@), encode_utf8(secret_key@), t) == Ok::<
                        ClaimsView,
                        TokenError,
                    >(c@),
                Err(e) => exists|t: int|
                    #![auto]
                    spec_verify(encode_utf8(token@), encode_utf8(secret_key@), t) == Err::<
                        ClaimsView,
                        TokenError,
                    >(e),
            },
    {
        let now = now_epoch_seconds();
        Self::verify_at(token, secret_key, now)
    }
}

/// The token processor as a capability: any conforming signer answers for
/// issuing and verifying, with the clock reading injected, so a caller can
/// substitute a double with a fixed clock without touching call sites.
pub trait JwtProcessor {
    /// Issue a token for an identity at a given clock reading: the token
    /// and its expiry.
    fn generate(
        &self,
        user_id: &str,
        user_lastname: &str,
        user_firstname: &str,
        user_email: &str,
        secret_key: &str,
        jwt_lifetime: i64,
        now: i64,
    ) -> (r: (String, i64))
        requires
            secret_key@.len() > 0,
            i64::MIN <= jwt_lifetime * 3600 <= i64::MAX,
            i64::MIN <= now + jwt_lifetime * 3600 <= i64::MAX,
        ensures
            r.1 == now + jwt_lifetime * 3600,
            encode_utf8(r.0@) == token_bytes(
                issued_claims(
                    user_id@,
                    user_lastname@,
                    user_firstname@,
                    user_email@,
                    now as int,
                    r.1 as int,
                ),
                encode_utf8(secret_key@),
            ),
    ;

    /// Verify a token at a given clock reading, recovering its claims.
    fn parse(&self, token: &str, secret_key: &str, now: i64) -> (r: Result<Claims, TokenError>)
        ensures
            match r {
                Ok(c) => spec_verify(encode_utf8(token@), encode_utf8(secret_key@), now as int)
                    == Ok::<ClaimsView, TokenError>(c@) && c@.wf(),
                Err(e) => spec_verify(encode_utf8(token@), encode_utf8(secret_key@), now as int)
                    == Err::<ClaimsView, TokenError>(e),
            },
    ;
}

impl JwtProcessor for Jwt {
    fn generate(
        &self,
        user_id: &str,
        user_lastname: &str,
        user_firstname: &str,
        user_email: &str,
        secret_key: &str,
        jwt_lifetime: i64,
        now: i64,
    ) -> (r: (String, i64)) {
        Jwt::generate_at(
            user_id,
            user_lastname,
            user_firstname,
            user_email,
            secret_key,
            jwt_lifetime,
            now,
        )
    }

    fn parse(&self, token: &str, secret_key: &str, now: i64) -> (r: Result<Claims, TokenError>) {
        Jwt::verify_at(token, secret_key, now)
    }
}

/// The collapse at the client-visible boundary: every way a credential can
/// fail becomes the one `Unauthorized` outcome, so the failure kind never
/// leaks.
pub fn to_unauthorized(e: &TokenError) -> (r: AppError)
    ensures
        r == AppError::Unauthorized,
{
    match e {
        TokenError::Malformed => AppError::Unauthorized,
        TokenError::SignatureInvalid => AppError::Unauthorized,
        TokenError::Expired => AppError::Unauthorized,
    }
}

/// The round trip of the processor, and its expiry boundary: a well-formed
/// claims value signed under a secret verifies back to exactly itself at
/// any clock reading strictly before its expiry, and is refused as expired
/// at any reading at or after it.
pub proof fn lemma_issue_verify(c: ClaimsView, secret: Seq<u8>, now: int)
    requires
        c.wf(),
    ensures
        now < c.exp ==> spec_verify(token_bytes(c, secret), secret, now) == Ok::<
            ClaimsView,
            TokenError,
        >(c),
        now >= c.exp ==> spec_verify(token_bytes(c, secret), secret, now) == Err::<
            ClaimsView,
            TokenError,
        >(TokenError::Expired),
{
    let e1 = b64_encode(header_bytes());
    let e2 = b64_encode(payload_bytes(c));
    let m = signing_input(c);
    let sig = hs512_sig_of(secret, m);
    let t = token_bytes(c, secret);
    crate::b64::lemma_b64_encode_alphabet(header_bytes());
    crate::b64::lemma_b64_encode_alphabet(payload_bytes(c));
    let i = e1.len() as int;
    let j = m.len() as int;
    assert forall|q: int| 0 <= q < i implies t[q] != 46 by {
        assert(t[q] == e1[q]);
        assert(is_b64_byte(e1[q]));
        crate::b64::lemma_b64_byte_shape(e1[q]);
    }
    assert(t[i] == 46);
    lemma_find_byte_at(t, i);
    let rest = t.skip(i + 1);
    assert(rest =~= e2 + seq![46u8] + sig);
    assert forall|q: int| 0 <= q < e2.len() implies rest[q] != 46 by {
        assert(rest[q] == e2[q]);
        assert(is_b64_byte(e2[q]));
        crate::b64::lemma_b64_byte_shape(e2[q]);
    }
    assert(rest[e2.len() as int] == 46);
    lemma_find_byte_at(rest, e2.len() as int);
    assert(i + 1 + e2.len() == j);
    assert(t.take(j) =~= m);
    assert(t.skip(j + 1) =~= sig);
    assert(t.take(i) =~= e1);
    assert(t.subrange(i + 1, j) =~= e2);
    crate::b64::lemma_b64_round_trip(header_bytes());
    crate::b64::lemma_b64_round_trip(payload_bytes(c));
    crate::claims::lemma_payload_round_trip(c);
}

} // verus!
