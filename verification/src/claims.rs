//! The signed payload: the claims a token carries, their canonical JSON
//! rendering, and the strict reader that recovers them. Rendering and
//! reading are verified inverses.

use vstd::prelude::*;
use vstd::utf8::*;

use crate::decimal::dec_int;
use crate::decimal::parse_dec;
use crate::decimal::render_i64;
use crate::jsontext::esc;
use crate::jsontext::escape_into;
use crate::jsontext::parse_str_body;
use crate::jsontext::read_str_body;
use crate::textutil::bytes_to_string;

verus! {

/// The payload a token carries: the principal's identity, duplicated into
/// the conventional subject field, and the three timestamps of its life.
/// All times are epoch seconds.
#[derive(Debug)]
pub struct Claims {
    pub sub: String,
    pub exp: i64,
    pub iat: i64,
    pub nbf: i64,
    pub user_id: String,
    pub user_lastname: String,
    pub user_firstname: String,
    pub user_email: String,
}

/// The mathematical shape of a `Claims` value.
pub struct ClaimsView {
    pub sub: Seq<char>,
    pub exp: int,
    pub iat: int,
    pub nbf: int,
    pub user_id: Seq<char>,
    pub user_lastname: Seq<char>,
    pub user_firstname: Seq<char>,
    pub user_email: Seq<char>,
}

impl View for Claims {
    type V = ClaimsView;

    open spec fn view(&self) -> ClaimsView {
        ClaimsView {
            sub: self.sub@,
            exp: self.exp as int,
            iat: self.iat as int,
            nbf: self.nbf as int,
            user_id: self.user_id@,
            user_lastname: self.user_lastname@,
            user_firstname: self.user_firstname@,
            user_email: self.user_email@,
        }
    }
}

impl ClaimsView {
    /// The claims invariant: the subject duplicates the principal's id, the
    /// not-before time is the issue time, and expiry does not precede issue.
    pub open spec fn wf(self) -> bool {
        self.sub == self.user_id && self.nbf == self.iat && self.iat <= self.exp
            && i64::MIN <= self.exp <= i64::MAX && i64::MIN <= self.iat <= i64::MAX
    }

}

/// The opening of the payload object up to the subject's opening quote.
pub open spec fn lit_sub() -> Seq<u8> {
    seq![123u8, 34u8, 115u8, 117u8, 98u8, 34u8, 58u8, 34u8]
}

/// The expiry key between the subject and its value.
pub open spec fn lit_exp() -> Seq<u8> {
    seq![44u8, 34u8, 101u8, 120u8, 112u8, 34u8, 58u8]
}

/// The issued-at key.
pub open spec fn lit_iat() -> Seq<u8> {
    seq![44u8, 34u8, 105u8, 97u8, 116u8, 34u8, 58u8]
}

/// The not-before key.
pub open spec fn lit_nbf() -> Seq<u8> {
    seq![44u8, 34u8, 110u8, 98u8, 102u8, 34u8, 58u8]
}

/// The principal-id key up to its opening quote.
pub open spec fn lit_uid() -> Seq<u8> {
    seq![44u8, 34u8, 117u8, 115u8, 101u8, 114u8, 95u8, 105u8, 100u8, 34u8, 58u8, 34u8]
}

/// The last-name key up to its opening quote.
pub open spec fn lit_ln() -> Seq<u8> {
    seq![
        44u8,
        34u8,
        117u8,
        115u8,
        101u8,
        114u8,
        95u8,
        108u8,
        97u8,
        115u8,
        116u8,
        110u8,
        97u8,
        109u8,
        101u8,
        34u8,
        58u8,
        34u8,
    ]
}

/// The first-name key up to its opening quote.
pub open spec fn lit_fn() -> Seq<u8> {
    seq![
        44u8,
        34u8,
        117u8,
        115u8,
        101u8,
        114u8,
        95u8,
        102u8,
        105u8,
        114u8,
        115u8,
        116u8,
        110u8,
        97u8,
        109u8,
        101u8,
        34u8,
        58u8,
        34u8,
    ]
}

/// The email key up to its opening quote.
pub open spec fn lit_em() -> Seq<u8> {
    seq![
        44u8,
        34u8,
        117u8,
        115u8,
        101u8,
        114u8,
        95u8,
        101u8,
        109u8,
        97u8,
        105u8,
        108u8,
        34u8,
        58u8,
        34u8,
    ]
}

/// The closing brace.
pub open spec fn lit_end() -> Seq<u8> {
    seq![125u8]
}

/// A quoted, escaped string field as it stands in the payload, after its
/// opening quote: the escaped bytes and the closing quote.
pub open spec fn quoted(chars: Seq<char>) -> Seq<u8> {
    esc(encode_utf8(chars)) + seq![34u8]
}

/// The canonical payload: one JSON object, fixed key order, no spaces.
pub open spec fn payload_bytes(c: ClaimsView) -> Seq<u8> {
    lit_sub() + quoted(c.sub) + lit_exp() + dec_int(c.exp) + lit_iat() + dec_int(c.iat) + lit_nbf()
        + dec_int(c.nbf) + lit_uid() + quoted(c.user_id) + lit_ln() + quoted(c.user_lastname)
        + lit_fn() + quoted(c.user_firstname) + lit_em() + quoted(c.user_email) + lit_end()
}

/// Whether `s` begins with `p`.
pub open spec fn begins_with(s: Seq<u8>, p: Seq<u8>) -> bool {
    s.len() >= p.len() && s.take(p.len() as int) == p
}

/// Expect a literal, then a quoted string: the unescaped bytes and the rest.
pub open spec fn after_lit_str(s: Seq<u8>, lit: Seq<u8>) -> Option<(Seq<u8>, Seq<u8>)> {
    if begins_with(s, lit) {
        match parse_str_body(s.skip(lit.len() as int)) {
            Some(p) => Some((p.0, s.skip(lit.len() as int).skip(p.1))),
            None => None,
        }
    } else {
        None
    }
}

/// Expect a literal, then a decimal integer: the value and the rest.
pub open spec fn after_lit_int(s: Seq<u8>, lit: Seq<u8>) -> Option<(int, Seq<u8>)> {
    if begins_with(s, lit) {
        match parse_dec(s.skip(lit.len() as int)) {
            Some(p) => Some((p.0, s.skip(lit.len() as int).skip(p.1))),
            None => None,
        }
    } else {
        None
    }
}

/// The reading of a whole payload: `None` unless the bytes are a single
/// claims object in the payload's fixed shape — the canonical key order,
/// no spaces — whose string fields are valid UTF-8, whose subject equals
/// its principal id, and whose timestamps satisfy the claims invariant.
pub open spec fn parse_payload(s: Seq<u8>) -> Option<ClaimsView> {
    match after_lit_str(s, lit_sub()) {
        None => None,
        Some((sub_b, r1)) => match after_lit_int(r1, lit_exp()) {
            None => None,
            Some((exp, r2)) => match after_lit_int(r2, lit_iat()) {
                None => None,
                Some((iat, r3)) => match after_lit_int(r3, lit_nbf()) {
                    None => None,
                    Some((nbf, r4)) => match after_lit_str(r4, lit_uid()) {
                        None => None,
                        Some((uid_b, r5)) => match after_lit_str(r5, lit_ln()) {
                            None => None,
                            Some((ln_b, r6)) => match after_lit_str(r6, lit_fn()) {
                                None => None,
                                Some((fn_b, r7)) => match after_lit_str(r7, lit_em()) {
                                    None => None,
                                    Some((em_b, r8)) => {
                                        if r8 == lit_end() && valid_utf8(sub_b) && valid_utf8(
                                            uid_b,
                                        ) && valid_utf8(ln_b) && valid_utf8(fn_b) && valid_utf8(
                                            em_b,
                                        ) && sub_b == uid_b && nbf == iat && iat <= exp {
                                            Some(
                                                ClaimsView {
                                                    sub: decode_utf8(sub_b),
                                                    exp: exp,
                                                    iat: iat,
                                                    nbf: nbf,
                                                    user_id: decode_utf8(uid_b),
                                                    user_lastname: decode_utf8(ln_b),
                                                    user_firstname: decode_utf8(fn_b),
                                                    user_email: decode_utf8(em_b),
                                                },
                                            )
                                        } else {
                                            None
                                        }
                                    },
                                },
                            },
                        },
                    },
                },
            },
        },
    }
}

/// Append the opening literal to `out`.
fn push_lit_sub(out: &mut Vec<u8>)
    ensures
        final(out)@ == old(out)@ + lit_sub(),
{
    out.push(123);
    out.push(34);
    out.push(115);
    out.push(117);
    out.push(98);
    out.push(34);
    out.push(58);
    out.push(34);
    proof {
        assert(out@ =~= old(out)@ + lit_sub());
    }
}

/// Append the expiry key to `out`.
fn push_lit_exp(out: &mut Vec<u8>)
    ensures
        final(out)@ == old(out)@ + lit_exp(),
{
    out.push(44);
    out.push(34);
    out.push(101);
    out.push(120);
    out.push(112);
    out.push(34);
    out.push(58);
    proof {
        assert(out@ =~= old(out)@ + lit_exp());
    }
}

/// Append the issued-at key to `out`.
fn push_lit_iat(out: &mut Vec<u8>)
    ensures
        final(out)@ == old(out)@ + lit_iat(),
{
    out.push(44);
    out.push(34);
    out.push(105);
    out.push(97);
    out.push(116);
    out.push(34);
    out.push(58);
    proof {
        assert(out@ =~= old(out)@ + lit_iat());
    }
}

/// Append the not-before key to `out`.
fn push_lit_nbf(out: &mut Vec<u8>)
    ensures
        final(out)@ == old(out)@ + lit_nbf(),
{
    out.push(44);
    out.push(34);
    out.push(110);
    out.push(98);
    out.push(102);
    out.push(34);
    out.push(58);
    proof {
        assert(out@ =~= old(out)@ + lit_nbf());
    }
}

/// Append the principal-id key to `out`.
fn push_lit_uid(out: &mut Vec<u8>)
    ensures
        final(out)@ == old(out)@ + lit_uid(),
{
    out.push(44);
    out.push(34);
    out.push(117);
    out.push(115);
    out.push(101);
    out.push(114);
    out.push(95);
    out.push(105);
    out.push(100);
    out.push(34);
    out.push(58);
    out.push(34);
    proof {
        assert(out@ =~= old(out)@ + lit_uid());
    }
}

/// Append the last-name key to `out`.
fn push_lit_ln(out: &mut Vec<u8>)
    ensures
        final(out)@ == old(out)@ + lit_ln(),
{
    out.push(44);
    out.push(34);
    out.push(117);
    out.push(115);
    out.push(101);
    out.push(114);
    out.push(95);
    out.push(108);
    out.push(97);
    out.push(115);
    out.push(116);
    out.push(110);
    out.push(97);
    out.push(109);
    out.push(101);
    out.push(34);
    out.push(58);
    out.push(34);
    proof {
        assert(out@ =~= old(out)@ + lit_ln());
    }
}

/// Append the first-name key to `out`.
fn push_lit_fn(out: &mut Vec<u8>)
    ensures
        final(out)@ == old(out)@ + lit_fn(),
{
    out.push(44);
    out.push(34);
    out.push(117);
    out.push(115);
    out.push(101);
    out.push(114);
    out.push(95);
    out.push(102);
    out.push(105);
    out.push(114);
    out.push(115);
    out.push(116);
    out.push(110);
    out.push(97);
    out.push(109);
    out.push(101);
    out.push(34);
    out.push(58);
    out.push(34);
    proof {
        assert(out@ =~= old(out)@ + lit_fn());
    }
}

/// Append the email key to `out`.
fn push_lit_em(out: &mut Vec<u8>)
    ensures
        final(out)@ == old(out)@ + lit_em(),
{
    out.push(44);
    out.push(34);
    out.push(117);
    out.push(115);
    out.push(101);
    out.push(114);
    out.push(95);
    out.push(101);
    out.push(109);
    out.push(97);
    out.push(105);
    out.push(108);
    out.push(34);
    out.push(58);
    out.push(34);
    proof {
        assert(out@ =~= old(out)@ + lit_em());
    }
}

/// Append a quoted, escaped string field to `out`.
fn push_quoted(out: &mut Vec<u8>, s: &str)
    ensures
        final(out)@ == old(out)@ + quoted(s@),
{
    escape_into(out, s.as_bytes());
    out.push(34);
    proof {
        assert(out@ =~= old(out)@ + quoted(s@));
    }
}

/// Render the canonical payload of a claims value.
pub fn render_payload(c: &Claims) -> (out: Vec<u8>)
    ensures
        out@ == payload_bytes(c@),
{
    let mut out: Vec<u8> = Vec::new();
    push_lit_sub(&mut out);
    push_quoted(&mut out, self_str(&c.sub));
    push_lit_exp(&mut out);
    let mut d = render_i64(c.exp);
    out.append(&mut d);
    push_lit_iat(&mut out);
    let mut d = render_i64(c.iat);
    out.append(&mut d);
    push_lit_nbf(&mut out);
    let mut d = render_i64(c.nbf);
    out.append(&mut d);
    push_lit_uid(&mut out);
    push_quoted(&mut out, self_str(&c.user_id));
    push_lit_ln(&mut out);
    push_quoted(&mut out, self_str(&c.user_lastname));
    push_lit_fn(&mut out);
    push_quoted(&mut out, self_str(&c.user_firstname));
    push_lit_em(&mut out);
    push_quoted(&mut out, self_str(&c.user_email));
    out.push(125);
    proof {
        assert(out@ =~= payload_bytes(c@));
    }
    out
}

/// A `String` as a slice, with its view kept.
fn self_str(s: &String) -> (r: &str)
    ensures
        r@ == s@,
{
    s.as_str()
}

/// Whether the bytes of `s` at position `i` begin with `lit`; the position
/// after the literal when they do.
fn eat_lit(s: &[u8], i: usize, lit: &Vec<u8>) -> (r: Option<usize>)
    requires
        i <= s@.len(),
    ensures
        match r {
            Some(j) => begins_with(s@.skip(i as int), lit@) && j == i + lit@.len() && i <= j
                <= s@.len(),
            None => !begins_with(s@.skip(i as int), lit@),
        },
{
    let ghost rest = s@.skip(i as int);
    let n = s.len();
    if n - i < lit.len() {
        return None;
    }
    let mut m: usize = 0;
    while m < lit.len()
        invariant
            m <= lit@.len(),
            n == s@.len(),
            i + lit@.len() <= n,
            rest == s@.skip(i as int),
            forall|q: int| 0 <= q < m ==> rest[q] == lit@[q],
        decreases lit@.len() - m,
    {
        if s[i + m] != lit[m] {
            proof {
                assert(rest[m as int] == s@[i + m]);
                assert(rest.take(lit@.len() as int)[m as int] != lit@[m as int]);
            }
            return None;
        }
        proof {
            assert(rest[m as int] == s@[i + m]);
        }
        m = m + 1;
    }
    proof {
        assert(rest.take(lit@.len() as int) =~= lit@);
    }
    Some(i + lit.len())
}

/// The opening literal as bytes.
fn lit_sub_vec() -> (r: Vec<u8>)
    ensures
        r@ == lit_sub(),
{
    let mut v: Vec<u8> = Vec::new();
    push_lit_sub(&mut v);
    proof {
        assert(v@ =~= lit_sub());
    }
    v
}

/// The expiry key as bytes.
fn lit_exp_vec() -> (r: Vec<u8>)
    ensures
        r@ == lit_exp(),
{
    let mut v: Vec<u8> = Vec::new();
    push_lit_exp(&mut v);
    proof {
        assert(v@ =~= lit_exp());
    }
    v
}

/// The issued-at key as bytes.
fn lit_iat_vec() -> (r: Vec<u8>)
    ensures
        r@ == lit_iat(),
{
    let mut v: Vec<u8> = Vec::new();
    push_lit_iat(&mut v);
    proof {
        assert(v@ =~= lit_iat());
    }
    v
}

/// The not-before key as bytes.
fn lit_nbf_vec() -> (r: Vec<u8>)
    ensures
        r@ == lit_nbf(),
{
    let mut v: Vec<u8> = Vec::new();
    push_lit_nbf(&mut v);
    proof {
        assert(v@ =~= lit_nbf());
    }
    v
}

/// The principal-id key as bytes.
fn lit_uid_vec() -> (r: Vec<u8>)
    ensures
        r@ == lit_uid(),
{
    let mut v: Vec<u8> = Vec::new();
    push_lit_uid(&mut v);
    proof {
        assert(v@ =~= lit_uid());
    }
    v
}

/// The last-name key as bytes.
fn lit_ln_vec() -> (r: Vec<u8>)
    ensures
        r@ == lit_ln(),
{
    let mut v: Vec<u8> = Vec::new();
    push_lit_ln(&mut v);
    proof {
        assert(v@ =~= lit_ln());
    }
    v
}

/// The first-name key as bytes.
fn lit_fn_vec() -> (r: Vec<u8>)
    ensures
        r@ == lit_fn(),
{
    let mut v: Vec<u8> = Vec::new();
    push_lit_fn(&mut v);
    proof {
        assert(v@ =~= lit_fn());
    }
    v
}

/// The email key as bytes.
fn lit_em_vec() -> (r: Vec<u8>)
    ensures
        r@ == lit_em(),
{
    let mut v: Vec<u8> = Vec::new();
    push_lit_em(&mut v);
    proof {
        assert(v@ =~= lit_em());
    }
    v
}

/// Read a whole canonical payload back into a claims value, or report that
/// the bytes are not one.
#[verifier::rlimit(100)]
pub fn read_payload(s: &[u8]) -> (r: Option<Claims>)
    ensures
        match r {
            Some(c) => parse_payload(s@) == Some(c@) && c@.wf(),
            None => parse_payload(s@) is None,
        },
{
    proof {
        assert(s@.skip(0) =~= s@);
    }
    let l = lit_sub_vec();
    let i0 = match eat_lit(s, 0, &l) {
        Some(j) => j,
        None => {
            return None;
        },
    };
    let (sub_bytes, i1) = match read_str_body(s, i0) {
        Some(p) => p,
        None => {
            return None;
        },
    };
    proof {
        assert(s@.skip(i0 as int).skip(i1 - i0) =~= s@.skip(i1 as int));
    }
    let ghost r1 = s@.skip(i1 as int);
    let l = lit_exp_vec();
    let i1b = match eat_lit(s, i1, &l) {
        Some(j) => j,
        None => {
            return None;
        },
    };
    proof {
        assert(r1.skip(lit_exp().len() as int) =~= s@.skip(i1b as int));
    }
    let (exp, i2) = match crate::decimal::read_i64(s, i1b) {
        Some(p) => p,
        None => {
            return None;
        },
    };
    proof {
        assert(s@.skip(i1b as int).skip(i2 - i1b) =~= s@.skip(i2 as int));
    }
    let ghost r2 = s@.skip(i2 as int);
    let l = lit_iat_vec();
    let i2b = match eat_lit(s, i2, &l) {
        Some(j) => j,
        None => {
            return None;
        },
    };
    proof {
        assert(r2.skip(lit_iat().len() as int) =~= s@.skip(i2b as int));
    }
    let (iat, i3) = match crate::decimal::read_i64(s, i2b) {
        Some(p) => p,
        None => {
            return None;
        },
    };
    proof {
        assert(s@.skip(i2b as int).skip(i3 - i2b) =~= s@.skip(i3 as int));
    }
    let ghost r3 = s@.skip(i3 as int);
    let l = lit_nbf_vec();
    let i3b = match eat_lit(s, i3, &l) {
        Some(j) => j,
        None => {
            return None;
        },
    };
    proof {
        assert(r3.skip(lit_nbf().len() as int) =~= s@.skip(i3b as int));
    }
    let (nbf, i4) = match crate::decimal::read_i64(s, i3b) {
        Some(p) => p,
        None => {
            return None;
        },
    };
    proof {
        assert(s@.skip(i3b as int).skip(i4 - i3b) =~= s@.skip(i4 as int));
    }
    let ghost r4 = s@.skip(i4 as int);
    let l = lit_uid_vec();
    let i4b = match eat_lit(s, i4, &l) {
        Some(j) => j,
        None => {
            return None;
        },
    };
    proof {
        assert(r4.skip(lit_uid().len() as int) =~= s@.skip(i4b as int));
    }
    let (uid_bytes, i5) = match read_str_body(s, i4b) {
        Some(p) => p,
        None => {
            return None;
        },
    };
    proof {
        assert(s@.skip(i4b as int).skip(i5 - i4b) =~= s@.skip(i5 as int));
    }
    let ghost r5 = s@.skip(i5 as int);
    let l = lit_ln_vec();
    let i5b = match eat_lit(s, i5, &l) {
        Some(j) => j,
        None => {
            return None;
        },
    };
    proof {
        assert(r5.skip(lit_ln().len() as int) =~= s@.skip(i5b as int));
    }
    let (ln_bytes, i6) = match read_str_body(s, i5b) {
        Some(p) => p,
        None => {
            return None;
        },
    };
    proof {
        assert(s@.skip(i5b as int).skip(i6 - i5b) =~= s@.skip(i6 as int));
    }
    let ghost r6 = s@.skip(i6 as int);
    let l = lit_fn_vec();
    let i6b = match eat_lit(s, i6, &l) {
        Some(j) => j,
        None => {
            return None;
        },
    };
    proof {
        assert(r6.skip(lit_fn().len() as int) =~= s@.skip(i6b as int));
    }
    let (fn_bytes, i7) = match read_str_body(s, i6b) {
        Some(p) => p,
        None => {
            return None;
        },
    };
    proof {
        assert(s@.skip(i6b as int).skip(i7 - i6b) =~= s@.skip(i7 as int));
    }
    let ghost r7 = s@.skip(i7 as int);
    let l = lit_em_vec();
    let i7b = match eat_lit(s, i7, &l) {
        Some(j) => j,
        None => {
            return None;
        },
    };
    proof {
        assert(r7.skip(lit_em().len() as int) =~= s@.skip(i7b as int));
    }
    let (em_bytes, i8) = match read_str_body(s, i7b) {
        Some(p) => p,
        None => {
            return None;
        },
    };
    proof {
        assert(s@.skip(i7b as int).skip(i8 - i7b) =~= s@.skip(i8 as int));
    }
    let ghost r8 = s@.skip(i8 as int);
    if !(s.len() - i8 == 1 && s[i8] == 125) {
        proof {
            assert(r8[0] == s@[i8 as int] || r8.len() == 0);
            assert(r8 != lit_end());
        }
        return None;
    }
    proof {
        assert(r8 =~= lit_end());
    }
    if !crate::textutil::bytes_eq(sub_bytes.as_slice(), uid_bytes.as_slice()) {
        return None;
    }
    if !(nbf == iat && iat <= exp) {
        return None;
    }
    let sub = match bytes_to_string(sub_bytes) {
        Some(t) => t,
        None => {
            return None;
        },
    };
    let user_id = match bytes_to_string(uid_bytes) {
        Some(t) => t,
        None => {
            return None;
        },
    };
    let user_lastname = match bytes_to_string(ln_bytes) {
        Some(t) => t,
        None => {
            return None;
        },
    };
    let user_firstname = match bytes_to_string(fn_bytes) {
        Some(t) => t,
        None => {
            return None;
        },
    };
    let user_email = match bytes_to_string(em_bytes) {
        Some(t) => t,
        None => {
            return None;
        },
    };
    let c = Claims { sub, exp, iat, nbf, user_id, user_lastname, user_firstname, user_email };
    Some(c)
}

/// Reading undoes rendering: the canonical payload of well-formed claims
/// reads back as exactly those claims.
#[verifier::rlimit(100)]
pub proof fn lemma_payload_round_trip(c: ClaimsView)
    requires
        c.wf(),
    ensures
        parse_payload(payload_bytes(c)) == Some(c),
{
    broadcast use encode_utf8_valid_utf8, encode_utf8_decode_utf8;

    let sub_b = encode_utf8(c.sub);
    let uid_b = encode_utf8(c.user_id);
    let ln_b = encode_utf8(c.user_lastname);
    let fn_b = encode_utf8(c.user_firstname);
    let em_b = encode_utf8(c.user_email);
    let s8 = lit_end();
    let s7e = quoted(c.user_email) + s8;
    let s7 = lit_em() + s7e;
    let s6e = quoted(c.user_firstname) + s7;
    let s6 = lit_fn() + s6e;
    let s5e = quoted(c.user_lastname) + s6;
    let s5 = lit_ln() + s5e;
    let s4e = quoted(c.user_id) + s5;
    let s4 = lit_uid() + s4e;
    let s3e = dec_int(c.nbf) + s4;
    let s3 = lit_nbf() + s3e;
    let s2e = dec_int(c.iat) + s3;
    let s2 = lit_iat() + s2e;
    let s1e = dec_int(c.exp) + s2;
    let s1 = lit_exp() + s1e;
    let s0e = quoted(c.sub) + s1;
    let s0 = lit_sub() + s0e;
    lemma_payload_shape(c);
    assert(payload_bytes(c) == s0);
    lemma_step_str(s0, lit_sub(), c.sub, s1);
    assert(after_lit_str(s0, lit_sub()) == Some((sub_b, s1)));
    lemma_step_int(s1, lit_exp(), c.exp as i64, s2);
    assert(after_lit_int(s1, lit_exp()) == Some((c.exp, s2)));
    lemma_step_int(s2, lit_iat(), c.iat as i64, s3);
    assert(after_lit_int(s2, lit_iat()) == Some((c.iat, s3)));
    lemma_step_int(s3, lit_nbf(), c.nbf as i64, s4);
    assert(after_lit_int(s3, lit_nbf()) == Some((c.nbf, s4)));
    lemma_step_str(s4, lit_uid(), c.user_id, s5);
    assert(after_lit_str(s4, lit_uid()) == Some((uid_b, s5)));
    lemma_step_str(s5, lit_ln(), c.user_lastname, s6);
    assert(after_lit_str(s5, lit_ln()) == Some((ln_b, s6)));
    lemma_step_str(s6, lit_fn(), c.user_firstname, s7);
    assert(after_lit_str(s6, lit_fn()) == Some((fn_b, s7)));
    lemma_step_str(s7, lit_em(), c.user_email, s8);
    assert(after_lit_str(s7, lit_em()) == Some((em_b, s8)));
    assert(parse_payload(s0) == Some(c));
    assert(payload_bytes(c) == s0);
}

/// The payload, re-bracketed from the front: each field followed by all
/// that comes after it.
#[verifier::rlimit(100)]
proof fn lemma_payload_shape(c: ClaimsView)
    ensures
        payload_bytes(c) == lit_sub() + (quoted(c.sub) + (lit_exp() + (dec_int(c.exp) + (lit_iat()
            + (dec_int(c.iat) + (lit_nbf() + (dec_int(c.nbf) + (lit_uid() + (quoted(c.user_id) + (
        lit_ln() + (quoted(c.user_lastname) + (lit_fn() + (quoted(c.user_firstname) + (lit_em() + (
        quoted(c.user_email) + lit_end()))))))))))))))),
{
    assert(payload_bytes(c) =~= lit_sub() + (quoted(c.sub) + (lit_exp() + (dec_int(c.exp) + (
    lit_iat() + (dec_int(c.iat) + (lit_nbf() + (dec_int(c.nbf) + (lit_uid() + (quoted(c.user_id)
        + (lit_ln() + (quoted(c.user_lastname) + (lit_fn() + (quoted(c.user_firstname) + (lit_em()
        + (quoted(c.user_email) + lit_end()))))))))))))))));
}

/// One string step of the round trip: a literal, a quoted field, a rest.
proof fn lemma_step_str(s: Seq<u8>, lit: Seq<u8>, chars: Seq<char>, rest: Seq<u8>)
    requires
        s == lit + (quoted(chars) + rest),
    ensures
        after_lit_str(s, lit) == Some((encode_utf8(chars), rest)),
{
    let b = encode_utf8(chars);
    assert(s.take(lit.len() as int) =~= lit);
    assert(s.skip(lit.len() as int) =~= quoted(chars) + rest);
    assert(quoted(chars) + rest =~= esc(b) + seq![34u8] + rest);
    crate::jsontext::lemma_str_round_trip(b, rest);
    assert(parse_str_body(s.skip(lit.len() as int)) == Some((b, esc(b).len() + 1int)));
    assert(s.skip(lit.len() as int).skip(esc(b).len() + 1int) =~= rest);
}

/// One integer step of the round trip: a literal, a decimal, a rest that
/// begins with a comma or a brace.
proof fn lemma_step_int(s: Seq<u8>, lit: Seq<u8>, n: i64, rest: Seq<u8>)
    requires
        s == lit + (dec_int(n as int) + rest),
        rest.len() > 0,
        rest[0] == 44 || rest[0] == 125,
    ensures
        after_lit_int(s, lit) == Some((n as int, rest)),
{
    assert(s.take(lit.len() as int) =~= lit);
    assert(s.skip(lit.len() as int) =~= dec_int(n as int) + rest);
    crate::decimal::lemma_dec_round_trip(n, rest);
    assert(parse_dec(s.skip(lit.len() as int)) == Some(
        (n as int, dec_int(n as int).len() as int),
    ));
    assert(s.skip(lit.len() as int).skip(dec_int(n as int).len() as int) =~= rest);
}

} // verus!
