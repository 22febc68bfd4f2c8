//! Users and the check of their passwords.
//!
//! Passwords are kept as bcrypt hashes. Hashing and checking are done by
//! the `bcrypt` crate; what to do with its answers is decided here.

use vstd::prelude::*;

verus! {

/// A user of the system.
#[derive(Clone, Debug, PartialEq, Eq)]
pub struct User {
    /// `None` until the user has been stored.
    pub id: Option<i64>,
    pub username: String,
    /// The bcrypt hash of the password; empty in a user that is handed
    /// out.
    pub password_hash: String,
    pub role: String,
    pub fullname: Option<String>,
}

/// Why a login or the creation of a user failed.
#[derive(Clone, Copy, Debug, PartialEq, Eq, Structural)]
pub enum AuthError {
    /// No user has the given name.
    UnknownUser,
    /// The password is not the user's.
    WrongPassword,
    /// The stored hash of the user is no bcrypt hash.
    UnreadableHash,
    /// The password could not be hashed.
    HashingFailed,
}

/// What `bcrypt::verify` answers for `password` and `hash`: whether
/// the password is the one that was hashed, or `None` when `hash` is
/// not a bcrypt hash.
pub uninterp spec fn bcrypt_verdict(password: Seq<char>, hash: Seq<char>) -> Option<bool>;

/// Calls `bcrypt::verify`. Its answer depends on the password and on
/// the hash alone, which carries its own salt and cost; an error of the
/// crate becomes `None`. Which passwords fit which hashes is not said
/// here; the one fact that is claimed of it stands at `hash_password`.
#[verifier::external_body]
fn check_password(password: &str, hash: &str) -> (verdict: Option<bool>)
    ensures
        verdict == bcrypt_verdict(password@, hash@),
{
    bcrypt::verify(password, hash).ok()
}

/// Calls `bcrypt::hash` with the crate's default cost. The hash holds
/// a salt drawn at random, so two calls on one password differ and the
/// hash itself has no name here; an error of the crate becomes `None`.
///
/// What is claimed of every hash that comes back: `bcrypt::verify`
/// accepts it for the password it was made from. The crate writes the
/// cost, the salt and the digest into the hash, and `verify` reads
/// them back, hashes the password again with that cost and salt, and
/// compares the digests.
#[verifier::external_body]
fn hash_password(password: &str) -> (hashed: Option<String>)
    ensures
        hashed matches Some(hash) ==> bcrypt_verdict(password@, hash@) == Some(true),
{
    bcrypt::hash(password, bcrypt::DEFAULT_COST).ok()
}

impl User {
    /// What `without_hash` hands out for `self`: the same user with an
    /// empty password hash.
    pub open spec fn shown_as(self, shown: User) -> bool {
        &&& shown.id == self.id
        &&& shown.username == self.username
        &&& shown.password_hash@ == Seq::<char>::empty()
        &&& shown.role == self.role
        &&& shown.fullname == self.fullname
    }

    /// The user as it may leave the system: without the password hash.
    pub fn without_hash(self) -> (shown: User)
        ensures
            self.shown_as(shown),
    {
        User {
            id: self.id,
            username: self.username,
            password_hash: String::new(),
            role: self.role,
            fullname: self.fullname,
        }
    }
}

/// What a login returns once the password has been checked: the user
/// without the hash when the password fits, else the reason of the
/// refusal.
pub fn login_outcome(user: User, verdict: Option<bool>) -> (result: Result<User, AuthError>)
    ensures
        match verdict {
            Some(true) => result matches Ok(shown) && user.shown_as(shown),
            Some(false) => result == Err::<User, AuthError>(AuthError::WrongPassword),
            None => result == Err::<User, AuthError>(AuthError::UnreadableHash),
        },
{
    match verdict {
        Some(true) => Ok(user.without_hash()),
        Some(false) => Err(AuthError::WrongPassword),
        None => Err(AuthError::UnreadableHash),
    }
}

/// Logs in the user `found` under the given name, if any, with
/// `password`. A user that does not exist is refused without a look at
/// the password; for one that exists the answer is that of
/// [`login_outcome`] for what bcrypt says of the password and the
/// stored hash.
pub fn verify_login(found: Option<User>, password: &str) -> (result: Result<User, AuthError>)
    ensures
        match found {
            None => result == Err::<User, AuthError>(AuthError::UnknownUser),
            Some(user) => match bcrypt_verdict(password@, user.password_hash@) {
                Some(true) => result matches Ok(shown) && user.shown_as(shown),
                Some(false) => result == Err::<User, AuthError>(AuthError::WrongPassword),
                None => result == Err::<User, AuthError>(AuthError::UnreadableHash),
            },
        },
{
    match found {
        None => Err(AuthError::UnknownUser),
        Some(user) => {
            let verdict = check_password(password, user.password_hash.as_str());
            login_outcome(user, verdict)
        },
    }
}

/// The user to be stored once the password has been hashed: it carries
/// the hash, or the hashing has failed.
pub fn user_with_hash(
    username: String,
    fullname: Option<String>,
    role: String,
    hashed: Option<String>,
) -> (result: Result<User, AuthError>)
    ensures
        result == match hashed {
            Some(password_hash) => Ok::<User, AuthError>(
                User { id: None, username, password_hash, role, fullname },
            ),
            None => Err::<User, AuthError>(AuthError::HashingFailed),
        },
{
    match hashed {
        Some(password_hash) => Ok(User { id: None, username, password_hash, role, fullname }),
        None => Err(AuthError::HashingFailed),
    }
}

/// A new user with the bcrypt hash of `password`. Whether hashing
/// succeeds is for the `bcrypt` crate and its source of randomness to
/// say; when it does, the user carries the given name, full name and
/// role, has no id yet, and holds a hash that `password` passes.
pub fn new_user(username: String, fullname: Option<String>, password: &str, role: String) -> (result:
    Result<User, AuthError>)
    ensures
        match result {
            Ok(user) => {
                &&& user.id is None
                &&& user.username == username
                &&& user.role == role
                &&& user.fullname == fullname
                &&& bcrypt_verdict(password@, user.password_hash@) == Some(true)
            },
            Err(error) => error == AuthError::HashingFailed,
        },
{
    user_with_hash(username, fullname, role, hash_password(password))
}

/// The hash to store when a user is changed: the old one when no new
/// password is given, else the hash of the new password.
pub fn changed_hash(current: String, hashed: Option<Option<String>>) -> (result: Result<
    String,
    AuthError,
>)
    ensures
        result == match hashed {
            None => Ok::<String, AuthError>(current),
            Some(Some(password_hash)) => Ok::<String, AuthError>(password_hash),
            Some(None) => Err::<String, AuthError>(AuthError::HashingFailed),
        },
{
    match hashed {
        None => Ok(current),
        Some(Some(password_hash)) => Ok(password_hash),
        Some(None) => Err(AuthError::HashingFailed),
    }
}

/// The hash to store when a user is changed. Without a new password it
/// is `current`, and the call succeeds. With a new password it is a
/// fresh bcrypt hash of that password, one that the new password
/// passes, whatever `current` was; the call fails only when the
/// hashing does.
pub fn rehash(current: String, password: Option<&str>) -> (result: Result<String, AuthError>)
    ensures
        match password {
            None => result == Ok::<String, AuthError>(current),
            Some(text) => match result {
                Ok(hash) => bcrypt_verdict(text@, hash@) == Some(true),
                Err(error) => error == AuthError::HashingFailed,
            },
        },
{
    match password {
        None => changed_hash(current, None),
        Some(text) => changed_hash(current, Some(hash_password(text))),
    }
}

} // verus!
