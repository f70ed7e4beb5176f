//! The user records the backend manages, and the request shapes around
//! them: login input, registration input, and the update form.

use validator::ValidateEmail;
use vstd::prelude::*;
use vstd::string::StrSliceExecFns;
use vstd::string::StringExecFns;

use crate::clock::now_epoch_seconds;
use crate::errors::AppError;

verus! {

/// A stored user record. `password` holds the stored hash once the record
/// has been persisted; timestamps are epoch seconds; a soft-deleted record
/// carries its deletion time.
pub struct User {
    pub id: String,
    pub lastname: String,
    pub firstname: String,
    pub email: String,
    pub password: String,
    pub created_at: i64,
    pub updated_at: i64,
    pub deleted_at: Option<i64>,
}

/// Credentials as a client submits them.
pub struct Login {
    pub email: String,
    pub password: String,
}

/// A registration as a client submits it: the password is still plain here
/// and is hashed before the record is stored.
pub struct UserCreation {
    pub lastname: String,
    pub firstname: String,
    pub email: String,
    pub password: String,
}

/// The two fields an update may change.
pub struct UpdateUserModel {
    pub lastname: String,
    pub firstname: String,
}

impl Clone for User {
    /// An exact copy of the record.
    fn clone(&self) -> (r: User)
        ensures
            r == *self,
    {
        User {
            id: self.id.clone(),
            lastname: self.lastname.clone(),
            firstname: self.firstname.clone(),
            email: self.email.clone(),
            password: self.password.clone(),
            created_at: self.created_at,
            updated_at: self.updated_at,
            deleted_at: self.deleted_at,
        }
    }
}

/// A whitespace character: the Unicode `White_Space` set, the characters
/// that `str::trim` removes.
pub open spec fn is_space_char(c: char) -> bool {
    let u = c as u32;
    (9 <= u && u <= 13) || u == 32 || u == 0x85 || u == 0xA0 || u == 0x1680 || (0x2000 <= u && u
        <= 0x200A) || u == 0x2028 || u == 0x2029 || u == 0x202F || u == 0x205F || u == 0x3000
}

/// `s` with leading whitespace removed.
pub open spec fn trim_front(s: Seq<char>) -> Seq<char>
    decreases s.len(),
{
    if s.len() > 0 && is_space_char(s[0]) {
        trim_front(s.skip(1))
    } else {
        s
    }
}

/// `s` with trailing whitespace removed.
pub open spec fn trim_back(s: Seq<char>) -> Seq<char>
    decreases s.len(),
{
    if s.len() > 0 && is_space_char(s.last()) {
        trim_back(s.drop_last())
    } else {
        s
    }
}

/// `s` with whitespace removed from both ends.
pub open spec fn trim_spaces(s: Seq<char>) -> Seq<char> {
    trim_back(trim_front(s))
}

/// The display name of a record: first name, a space, last name, with the
/// ends trimmed, so that a missing part leaves no stray separator.
pub open spec fn fullname_of(firstname: Seq<char>, lastname: Seq<char>) -> Seq<char> {
    trim_spaces(firstname + seq![' '] + lastname)
}

/// Whether `c` is in the whitespace set.
fn is_space_of(c: char) -> (r: bool)
    ensures
        r == is_space_char(c),
{
    let u = c as u32;
    (9 <= u && u <= 13) || u == 32 || u == 0x85 || u == 0xA0 || u == 0x1680 || (0x2000 <= u && u
        <= 0x200A) || u == 0x2028 || u == 0x2029 || u == 0x202F || u == 0x205F || u == 0x3000
}

/// With `k` leading whitespace characters and a non-whitespace one (or the
/// end) at `k`, trimming the front drops exactly `k`.
proof fn lemma_trim_front_at(s: Seq<char>, k: int)
    requires
        0 <= k <= s.len(),
        forall|m: int| 0 <= m < k ==> is_space_char(#[trigger] s[m]),
        k == s.len() || !is_space_char(s[k]),
    ensures
        trim_front(s) == s.skip(k),
    decreases k,
{
    if k == 0 {
        assert(s.skip(0) =~= s);
    } else {
        assert(is_space_char(s[0]));
        assert forall|m: int| 0 <= m < k - 1 implies is_space_char(#[trigger] s.skip(1)[m]) by {
            assert(s.skip(1)[m] == s[m + 1]);
        }
        assert(k - 1 == s.skip(1).len() || !is_space_char(s.skip(1)[k - 1]));
        lemma_trim_front_at(s.skip(1), k - 1);
        assert(s.skip(1).skip(k - 1) =~= s.skip(k));
    }
}

/// With `k` trailing whitespace characters and a non-whitespace one (or the
/// start) before them, trimming the back keeps exactly the first `len - k`.
proof fn lemma_trim_back_at(s: Seq<char>, k: int)
    requires
        0 <= k <= s.len(),
        forall|m: int| s.len() - k <= m < s.len() ==> is_space_char(#[trigger] s[m]),
        k == s.len() || !is_space_char(s[s.len() - k - 1]),
    ensures
        trim_back(s) == s.take(s.len() - k),
    decreases k,
{
    if k == 0 {
        assert(s.take(s.len() as int) =~= s);
    } else {
        assert(is_space_char(s.last()));
        assert forall|m: int|
            s.drop_last().len() - (k - 1) <= m < s.drop_last().len() implies is_space_char(
            #[trigger] s.drop_last()[m],
        ) by {
            assert(s.drop_last()[m] == s[m]);
        }
        lemma_trim_back_at(s.drop_last(), k - 1);
        assert(s.drop_last().take(s.len() - k) =~= s.take(s.len() - k));
    }
}

/// Trim the whitespace off both ends of a string.
fn trim_spaces_exec(s: &str) -> (r: String)
    ensures
        r@ == trim_spaces(s@),
{
    let n = s.unicode_len();
    let mut start: usize = 0;
    while start < n && is_space_of(s.get_char(start))
        invariant
            n == s@.len(),
            start <= n,
            forall|m: int| 0 <= m < start ==> is_space_char(#[trigger] s@[m]),
        decreases n - start,
    {
        start = start + 1;
    }
    proof {
        lemma_trim_front_at(s@, start as int);
    }
    let mut end: usize = n;
    while end > start && is_space_of(s.get_char(end - 1))
        invariant
            n == s@.len(),
            start <= end <= n,
            forall|m: int| end <= m < n ==> is_space_char(#[trigger] s@[m]),
        decreases end,
    {
        end = end - 1;
    }
    let ghost f = s@.skip(start as int);
    proof {
        assert forall|m: int| f.len() - (n - end) <= m < f.len() implies is_space_char(
            #[trigger] f[m],
        ) by {
            assert(f[m] == s@[m + start]);
        }
        if end > start {
            assert(f[f.len() - (n - end) - 1] == s@[end - 1]);
        }
        lemma_trim_back_at(f, n - end);
        assert(f.take(f.len() - (n - end)) =~= s@.subrange(start as int, end as int));
    }
    let out = s.substring_char(start, end);
    out.to_owned()
}

impl User {
    /// A record from every field.
    pub fn init(
        id: String,
        lastname: String,
        firstname: String,
        email: String,
        password: String,
        created_at: i64,
        updated_at: i64,
        deleted_at: Option<i64>,
    ) -> (r: User)
        ensures
            r.id == id && r.lastname == lastname && r.firstname == firstname && r.email == email
                && r.password == password && r.created_at == created_at && r.updated_at
                == updated_at && r.deleted_at == deleted_at,
    {
        User { id, lastname, firstname, email, password, created_at, updated_at, deleted_at }
    }

    /// A fresh record from a registration: a new identifier and the current
    /// time come from outside, so nothing is promised of them; the identity
    /// fields are the registration's, and the record is not deleted.
    pub fn new(user: UserCreation) -> (r: User)
        ensures
            r.lastname == user.lastname && r.firstname == user.firstname && r.email == user.email
                && r.password == user.password && r.deleted_at is None,
            r.id@.len() == 36,
    {
        User {
            id: fresh_uuid_string(),
            lastname: user.lastname,
            firstname: user.firstname,
            email: user.email,
            password: user.password,
            created_at: now_epoch_seconds(),
            updated_at: now_epoch_seconds(),
            deleted_at: None,
        }
    }

    /// The record's display name.
    pub fn _fullname(&self) -> (r: String)
        ensures
            r@ == fullname_of(self.firstname@, self.lastname@),
    {
        let mut combined = String::new();
        if !self.firstname.as_str().is_empty() {
            combined.append(self.firstname.as_str());
        }
        proof {
            if self.firstname@.len() == 0 {
                assert(combined@ =~= self.firstname@);
            }
        }
        combined.append(" ");
        combined.append(self.lastname.as_str());
        proof {
            reveal_strlit(" ");
            assert(" "@ =~= seq![' ']);
            assert(combined@ =~= self.firstname@ + seq![' '] + self.lastname@);
        }
        trim_spaces_exec(combined.as_str())
    }
}

/// Relies on uuid's `Uuid::new_v4` and its hyphenated rendering: a freshly
/// drawn random identifier. The value is random, so only the documented
/// shape is promised: thirty-six characters with hyphens at the four fixed
/// positions.
#[verifier::external_body]
fn fresh_uuid_string() -> (r: String)
    ensures
        r@.len() == 36,
        r@[8] == '-' && r@[13] == '-' && r@[18] == '-' && r@[23] == '-',
{
    uuid::Uuid::new_v4().to_string()
}

/// What the outside email check answers for a given text: a fixed function
/// of the characters alone.
pub uninterp spec fn email_shape_ok(s: Seq<char>) -> bool;

/// Relies on validator's `ValidateEmail` for `str`: whether the text has
/// the shape of an email address under the HTML5 rule that crate
/// implements; a pure function of the characters.
#[verifier::external_body]
fn email_has_valid_shape(s: &str) -> (r: bool)
    ensures
        r == email_shape_ok(s@),
{
    s.validate_email()
}

/// Well-formed credentials as the boundary demands them before the core is
/// consulted: an email-shaped address and a password of at least eight
/// characters.
pub open spec fn credentials_well_formed(email: Seq<char>, password: Seq<char>) -> bool {
    email_shape_ok(email) && password.len() >= 8
}

impl Login {
    /// Check the submitted shape before the core sees it: a malformed
    /// email or a short password is the client's error, answered as
    /// `BadRequest`, never as `Unauthorized`.
    pub fn validate(&self) -> (r: Result<(), AppError>)
        ensures
            r is Ok <==> credentials_well_formed(self.email@, self.password@),
            r is Err ==> r->Err_0 is BadRequest,
    {
        validate_credentials(&self.email, &self.password)
    }
}

impl UserCreation {
    /// Check the submitted shape before a record is made: the same email
    /// and password-length demands as at login.
    pub fn validate(&self) -> (r: Result<(), AppError>)
        ensures
            r is Ok <==> credentials_well_formed(self.email@, self.password@),
            r is Err ==> r->Err_0 is BadRequest,
    {
        validate_credentials(&self.email, &self.password)
    }
}

/// The shared shape check behind `Login::validate` and
/// `UserCreation::validate`.
fn validate_credentials(email: &String, password: &String) -> (r: Result<(), AppError>)
    ensures
        r is Ok <==> credentials_well_formed(email@, password@),
        r is Err ==> r->Err_0 is BadRequest,
{
    if !email_has_valid_shape(email.as_str()) {
        return Err(AppError::BadRequest { message: "Invalid input".to_owned() });
    }
    if password.as_str().unicode_len() < 8 {
        return Err(AppError::BadRequest { message: "Invalid input".to_owned() });
    }
    Ok(())
}

} // verus!
