//! An identity store over a plain vector of records, with the query
//! semantics the handlers rely on: credential lookup hashes the supplied
//! password and matches it against the stored hash of a live record; reads
//! skip soft-deleted records; deletion is a soft delete.

use vstd::prelude::*;
use vstd::string::StringSliceAdditionalSpecFns;
use vstd::utf8::encode_utf8;

use crate::crypto::sha512_hex;
use crate::crypto::sha512_hex_of;
use crate::errors::AppError;
use crate::textutil::str_eq;
use crate::user::User;

verus! {

/// A record that answers a credential lookup: live, with the given email
/// and the given stored password hash.
pub open spec fn live_match(u: User, email: Seq<char>, hash: Seq<char>) -> bool {
    u.email@ == email && u.password@ == hash && u.deleted_at is None
}

/// A record that answers a lookup by identifier: live, with the given id.
pub open spec fn live_id_match(u: User, id: Seq<char>) -> bool {
    u.id@ == id && u.deleted_at is None
}

/// The live records of `s`, in order.
pub open spec fn live_users(s: Seq<User>) -> Seq<User>
    decreases s.len(),
{
    if s.len() == 0 {
        Seq::empty()
    } else if s.last().deleted_at is None {
        live_users(s.drop_last()) + seq![s.last()]
    } else {
        live_users(s.drop_last())
    }
}

/// How many records of `s` carry the given id, deleted or not.
pub open spec fn count_id(s: Seq<User>, id: Seq<char>) -> nat
    decreases s.len(),
{
    if s.len() == 0 {
        0
    } else if s.last().id@ == id {
        count_id(s.drop_last(), id) + 1
    } else {
        count_id(s.drop_last(), id)
    }
}

/// `n` is `o` with its names replaced and its update time stamped.
pub open spec fn updated_record(
    o: User,
    n: User,
    firstname: Seq<char>,
    lastname: Seq<char>,
    now: i64,
) -> bool {
    n.firstname@ == firstname && n.lastname@ == lastname && n.updated_at == now && n.id == o.id
        && n.email == o.email && n.password == o.password && n.created_at == o.created_at
        && n.deleted_at == o.deleted_at
}

/// The stored form of a password: its SHA-512 digest in lower-case hex,
/// as registration writes it and credential lookup compares it.
pub fn hash_password(plain: &str) -> (r: String)
    ensures
        r@ == sha512_hex_of(encode_utf8(plain@)),
        r@.len() == 128,
{
    sha512_hex(plain.as_bytes())
}

/// The identity store: user records in insertion order.
pub struct UserRepository {
    pub users: Vec<User>,
}

impl UserRepository {
    /// An empty store.
    pub fn new() -> (r: UserRepository)
        ensures
            r.users@.len() == 0,
    {
        UserRepository { users: Vec::new() }
    }

    /// Look a principal up by credentials: the supplied password is hashed
    /// and compared against the stored hash; only a live record with the
    /// given email answers. `None` says nothing about which check failed.
    pub fn login(&self, email: &str, password: &str) -> (r: Option<User>)
        ensures
            ({
                let h = sha512_hex_of(encode_utf8(password@));
                match r {
                    Some(u) => exists|i: int|
                        0 <= i < self.users@.len() && u == self.users@[i] && #[trigger] live_match(
                            self.users@[i],
                            email@,
                            h,
                        ),
                    None => forall|i: int|
                        0 <= i < self.users@.len() ==> !#[trigger] live_match(
                            self.users@[i],
                            email@,
                            h,
                        ),
                }
            }),
    {
        let hash = sha512_hex(password.as_bytes());
        let mut i: usize = 0;
        while i < self.users.len()
            invariant
                i <= self.users@.len(),
                hash@ == sha512_hex_of(encode_utf8(password@)),
                forall|m: int|
                    0 <= m < i ==> !#[trigger] live_match(self.users@[m], email@, hash@),
            decreases self.users@.len() - i,
        {
            let u = &self.users[i];
            if u.deleted_at.is_none() && str_eq(u.email.as_str(), email) && str_eq(
                u.password.as_str(),
                hash.as_str(),
            ) {
                proof {
                    assert(live_match(self.users@[i as int], email@, hash@));
                }
                return Some(u.clone());
            }
            i = i + 1;
        }
        None
    }

    /// Add a record: its password is replaced by its hash, and the record
    /// is appended, unless the identifier is already taken, which the
    /// storage layer reports as its own failure. One row is affected.
    pub fn create(&mut self, user: &mut User) -> (r: Result<Option<u64>, AppError>)
        ensures
            final(user).password@ == sha512_hex_of(encode_utf8(old(user).password@)),
            final(user).id == old(user).id,
            final(user).lastname == old(user).lastname,
            final(user).firstname == old(user).firstname,
            final(user).email == old(user).email,
            final(user).created_at == old(user).created_at,
            final(user).updated_at == old(user).updated_at,
            final(user).deleted_at == old(user).deleted_at,
            match r {
                Ok(n) => n == Some(1u64) && final(self).users@ == old(self).users@.push(
                    *final(user),
                ) && count_id(old(self).users@, old(user).id@) == 0,
                Err(e) => e is InternalError && final(self).users@ == old(self).users@ && count_id(
                    old(self).users@,
                    old(user).id@,
                ) > 0,
            },
    {
        let hashed = sha512_hex(user.password.as_str().as_bytes());
        user.password = hashed;
        let mut i: usize = 0;
        proof {
            assert(self.users@.take(0) =~= Seq::<User>::empty());
        }
        while i < self.users.len()
            invariant
                i <= self.users@.len(),
                self.users@ == old(self).users@,
                user.password@ == sha512_hex_of(encode_utf8(old(user).password@)),
                user.id == old(user).id,
                user.lastname == old(user).lastname,
                user.firstname == old(user).firstname,
                user.email == old(user).email,
                user.created_at == old(user).created_at,
                user.updated_at == old(user).updated_at,
                user.deleted_at == old(user).deleted_at,
                count_id(self.users@.take(i as int), user.id@) == 0,
            decreases self.users@.len() - i,
        {
            proof {
                assert(self.users@.take(i + 1).drop_last() =~= self.users@.take(i as int));
                assert(self.users@.take(i + 1).last() == self.users@[i as int]);
            }
            if str_eq(self.users[i].id.as_str(), user.id.as_str()) {
                proof {
                    lemma_count_id_prefix(self.users@, user.id@, i as int);
                }
                return Err(
                    AppError::InternalError { message: "Database Error".to_owned() },
                );
            }
            i = i + 1;
        }
        proof {
            assert(self.users@.take(self.users@.len() as int) =~= self.users@);
        }
        self.users.push(user.clone());
        Ok(Some(1))
    }

    /// All live records, in insertion order.
    pub fn get_all(&self) -> (r: Vec<User>)
        ensures
            r@ == live_users(self.users@),
    {
        let mut out: Vec<User> = Vec::new();
        let mut i: usize = 0;
        proof {
            assert(self.users@.take(0) =~= Seq::<User>::empty());
        }
        while i < self.users.len()
            invariant
                i <= self.users@.len(),
                out@ == live_users(self.users@.take(i as int)),
            decreases self.users@.len() - i,
        {
            proof {
                assert(self.users@.take(i + 1).drop_last() =~= self.users@.take(i as int));
                assert(self.users@.take(i + 1).last() == self.users@[i as int]);
            }
            if self.users[i].deleted_at.is_none() {
                out.push(self.users[i].clone());
                proof {
                    assert(out@ =~= live_users(self.users@.take(i as int)) + seq![
                        self.users@[i as int],
                    ]);
                }
            }
            i = i + 1;
        }
        proof {
            assert(self.users@.take(self.users@.len() as int) =~= self.users@);
        }
        out
    }

    /// Look a record up by identifier; only a live record answers.
    pub fn get_by_id(&self, id: &str) -> (r: Option<User>)
        ensures
            match r {
                Some(u) => exists|i: int|
                    0 <= i < self.users@.len() && u == self.users@[i] && #[trigger] live_id_match(
                        self.users@[i],
                        id@,
                    ),
                None => forall|i: int|
                    0 <= i < self.users@.len() ==> !#[trigger] live_id_match(
                        self.users@[i],
                        id@,
                    ),
            },
    {
        let mut i: usize = 0;
        while i < self.users.len()
            invariant
                i <= self.users@.len(),
                forall|m: int| 0 <= m < i ==> !#[trigger] live_id_match(self.users@[m], id@),
            decreases self.users@.len() - i,
        {
            let u = &self.users[i];
            if u.deleted_at.is_none() && str_eq(u.id.as_str(), id) {
                proof {
                    assert(live_id_match(self.users@[i as int], id@));
                }
                return Some(u.clone());
            }
            i = i + 1;
        }
        None
    }

    /// Soft-delete every record with the given id, stamping the deletion
    /// time; the count of affected rows is returned, deleted rows included,
    /// as the storage layer counts them.
    pub fn delete(&mut self, id: &str, now: i64) -> (r: Result<Option<u64>, AppError>)
        ensures
            final(self).users@.len() == old(self).users@.len(),
            forall|i: int|
                0 <= i < old(self).users@.len() ==> #[trigger] final(self).users@[i] == (if old(self).users@[i].id@ == id@ {
                    (User {
                        deleted_at: Some(now),
                        ..old(self).users@[i]
                    })
                } else {
                    old(self).users@[i]
                }),
            r == Ok::<Option<u64>, AppError>(Some(count_id(old(self).users@, id@) as u64)),
    {
        let ghost orig = self.users@;
        let n = self.users.len();
        let mut out: Vec<User> = Vec::new();
        let mut count: u64 = 0;
        let mut i: usize = 0;
        proof {
            assert(orig.take(0) =~= Seq::<User>::empty());
            lemma_count_id_le(orig.take(0), id@);
        }
        while i < n
            invariant
                i <= orig.len(),
                n == orig.len(),
                self.users@ == orig,
                out@.len() == i,
                count == count_id(orig.take(i as int), id@),
                count <= i,
                forall|m: int|
                    0 <= m < i ==> #[trigger] out@[m] == (if orig[m].id@ == id@ {
                        (User { deleted_at: Some(now), ..orig[m] })
                    } else {
                        orig[m]
                    }),
            decreases orig.len() - i,
        {
            proof {
                assert(orig.take(i + 1).drop_last() =~= orig.take(i as int));
                assert(orig.take(i + 1).last() == orig[i as int]);
            }
            let u = &self.users[i];
            if str_eq(u.id.as_str(), id) {
                let mut v = u.clone();
                v.deleted_at = Some(now);
                let ghost gv = v;
                out.push(v);
                count = count + 1;
                proof {
                    assert(out@[i as int] == gv);
                }
            } else {
                let ghost gu = self.users@[i as int];
                out.push(u.clone());
                proof {
                    assert(out@[i as int] == gu);
                }
            }
            i = i + 1;
        }
        proof {
            assert(orig.take(orig.len() as int) =~= orig);
        }
        self.users = out;
        Ok(Some(count))
    }

    /// Update the names of every record with the given id, stamping the
    /// update time; the count of affected rows is returned.
    pub fn update(&mut self, id: &str, firstname: &str, lastname: &str, now: i64) -> (r: Result<
        Option<u64>,
        AppError,
    >)
        ensures
            final(self).users@.len() == old(self).users@.len(),
            forall|i: int|
                0 <= i < old(self).users@.len() && old(self).users@[i].id@ == id@
                    ==> updated_record(
                    old(self).users@[i],
                    #[trigger] final(self).users@[i],
                    firstname@,
                    lastname@,
                    now,
                ),
            forall|i: int|
                0 <= i < old(self).users@.len() && old(self).users@[i].id@ != id@
                    ==> #[trigger] final(self).users@[i] == old(self).users@[i],
            r == Ok::<Option<u64>, AppError>(Some(count_id(old(self).users@, id@) as u64)),
    {
        let ghost orig = self.users@;
        let n = self.users.len();
        let mut out: Vec<User> = Vec::new();
        let mut count: u64 = 0;
        let mut i: usize = 0;
        proof {
            assert(orig.take(0) =~= Seq::<User>::empty());
        }
        while i < n
            invariant
                i <= orig.len(),
                n == orig.len(),
                self.users@ == orig,
                out@.len() == i,
                count == count_id(orig.take(i as int), id@),
                count <= i,
                forall|m: int|
                    0 <= m < i && orig[m].id@ == id@ ==> updated_record(
                        orig[m],
                        #[trigger] out@[m],
                        firstname@,
                        lastname@,
                        now,
                    ),
                forall|m: int|
                    0 <= m < i && orig[m].id@ != id@ ==> #[trigger] out@[m] == orig[m],
            decreases orig.len() - i,
        {
            proof {
                assert(orig.take(i + 1).drop_last() =~= orig.take(i as int));
                assert(orig.take(i + 1).last() == orig[i as int]);
            }
            let u = &self.users[i];
            if str_eq(u.id.as_str(), id) {
                let mut v = u.clone();
                v.firstname = firstname.to_owned();
                v.lastname = lastname.to_owned();
                v.updated_at = now;
                let ghost gv = v;
                out.push(v);
                count = count + 1;
                proof {
                    assert(out@[i as int] == gv);
                }
            } else {
                let ghost gu = self.users@[i as int];
                out.push(u.clone());
                proof {
                    assert(out@[i as int] == gu);
                }
            }
            i = i + 1;
        }
        proof {
            assert(orig.take(orig.len() as int) =~= orig);
        }
        self.users = out;
        Ok(Some(count))
    }
}

/// The count of matching records is at most the number of records.
proof fn lemma_count_id_le(s: Seq<User>, id: Seq<char>)
    ensures
        count_id(s, id) <= s.len(),
    decreases s.len(),
{
    if s.len() > 0 {
        lemma_count_id_le(s.drop_last(), id);
    }
}

/// The handler's reading of a deletion count: success exactly when one row
/// was affected; any other count is the storage side's failure, as when no
/// such row exists or it was already deleted.
pub fn delete_outcome(affected: Option<u64>) -> (r: Result<(), AppError>)
    ensures
        r is Ok <==> affected == Some(1u64),
        r is Err ==> r->Err_0 is InternalError,
{
    match affected {
        Some(n) => {
            if n == 1 {
                Ok(())
            } else {
                Err(
                    AppError::InternalError {
                        message: "No user or user already deleted".to_owned(),
                    },
                )
            }
        },
        None => Err(
            AppError::InternalError { message: "No user or user already deleted".to_owned() },
        ),
    }
}

/// A prefix with a hit puts the total count above zero.
proof fn lemma_count_id_prefix(s: Seq<User>, id: Seq<char>, i: int)
    requires
        0 <= i < s.len(),
        s[i].id@ == id,
    ensures
        count_id(s, id) > 0,
    decreases s.len(),
{
    if s.len() > 0 {
        if i == s.len() - 1 {
        } else {
            lemma_count_id_prefix(s.drop_last(), id, i);
        }
    }
}

} // verus!
