//! User accounts and groups: input checks, the stored records, and the
//! login check.

pub mod trimcheck;
pub mod types;
pub mod transaction;
pub mod util;

use vstd::prelude::*;

use crate::hash_util::{argon2_verify_outcome, verify_password, HashingError};
use self::transaction::TransactionError;
use self::trimcheck::{
    same_failure, trimcheck_password, trimcheck_spec, trimcheck_username,
    InputCheckFailure, PASSWORD_MAX, PASSWORD_MIN, USERNAME_MAX, USERNAME_MIN,
};
use self::types::{sessionid_hash, sessionid_hash_spec, SessionData, SessionIdHasher, User, UserId};
use self::util::UniqueError;

verus! {

#[derive(Debug)]
pub enum CheckAccessErrorKind {
    HashingError(HashingError),
    InputCheckFailure(InputCheckFailure),
    SQLitePosError(String),
    UniqueError(UniqueError),
    TransactionError(TransactionError),
}

#[derive(Debug)]
pub struct CheckAccessError(pub Box<CheckAccessErrorKind>);

/// `r` is what a login gives for `user` (looked up by name) with the
/// password bytes `pw`: the user when the password verifies against the
/// stored hash, `None` when it does not or there is no such user, an
/// error when the stored hash cannot be used.
pub open spec fn login_result(
    user: Option<User>,
    pw: Seq<u8>,
    r: Result<Option<User>, CheckAccessError>,
) -> bool {
    match user {
        None => r matches Ok(None),
        Some(u) => match argon2_verify_outcome(pw, u.hashed_pass@) {
            Some(true) => r matches Ok(Some(v)) && v == u,
            Some(false) => r matches Ok(None),
            None => r matches Err(e) && *e.0 is HashingError,
        },
    }
}

/// The login outcome for `user`, as looked up by the checked user name,
/// and the checked `password`.
pub fn check_password_of(user: Option<User>, password: &str) -> (r: Result<
    Option<User>,
    CheckAccessError,
>)
    ensures
        login_result(user, vstd::utf8::encode_utf8(password@), r),
{
    match user {
        None => Ok(None),
        Some(user) => match verify_password(password, user.hashed_pass.as_str()) {
            Ok(true) => Ok(Some(user)),
            Ok(false) => Ok(None),
            Err(e) => Err(CheckAccessError(Box::new(CheckAccessErrorKind::HashingError(e)))),
        },
    }
}

/// Checks a login: both inputs are trimmed and checked, the user is
/// looked up by the trimmed name with `lookup` (in a database
/// transaction), and the trimmed password is verified against the
/// user's stored hash.
pub fn check_username_password<F>(username: &str, password: &str, lookup: F) -> (r: Result<
    Option<User>,
    CheckAccessError,
>) where F: for <'a>FnOnce(&'a str) -> Result<Option<User>, CheckAccessError>
    requires
        forall|s: &str| lookup.requires((s,)),
    ensures
        match trimcheck_spec("username", USERNAME_MIN, USERNAME_MAX, username@) {
            Err(k) => r matches Err(e) && *e.0 matches CheckAccessErrorKind::InputCheckFailure(f)
                && same_failure(f.spec_kind(), k, USERNAME_MIN, USERNAME_MAX),
            Ok(u) => match trimcheck_spec("password", PASSWORD_MIN, PASSWORD_MAX, password@) {
                Err(k) => r matches Err(e) && *e.0 matches CheckAccessErrorKind::InputCheckFailure(
                    f,
                ) && same_failure(f.spec_kind(), k, PASSWORD_MIN, PASSWORD_MAX),
                Ok(p) => exists|t: &str, found: Result<Option<User>, CheckAccessError>|
                    t@ == u && #[trigger] lookup.ensures((t,), found) && match found {
                        Err(e) => r == Err::<Option<User>, CheckAccessError>(e),
                        Ok(user) => login_result(user, vstd::utf8::encode_utf8(p), r),
                    },
            },
        },
{
    let username = match trimcheck_username(username) {
        Ok(u) => u,
        Err(e) => {
            return Err(CheckAccessError(Box::new(CheckAccessErrorKind::InputCheckFailure(e))));
        },
    };
    let password = match trimcheck_password(password) {
        Ok(p) => p,
        Err(e) => {
            return Err(CheckAccessError(Box::new(CheckAccessErrorKind::InputCheckFailure(e))));
        },
    };
    let found = lookup(username);
    let ghost found_ghost = found;
    let r = match found {
        Err(e) => Err(e),
        Ok(user) => check_password_of(user, password),
    };
    assert(lookup.ensures((username,), found_ghost));
    r
}

/// The user logged in with the session `session_id`: the session data
/// is looked up by the session id's hash with `session_by_hash`, then,
/// if it names a user, the user by id with `user_by_id` (both in a
/// database transaction). A session without a user, or whose user is
/// gone, gives `None`.
pub fn user_from_session_id<FS, FU>(
    session_id: &str,
    hasher: &SessionIdHasher,
    session_by_hash: FS,
    user_by_id: FU,
) -> (r: Result<Option<User>, CheckAccessError>) where
    FS: for <'a>FnOnce(&'a [u8]) -> Result<Option<SessionData>, CheckAccessError>,
    FU: FnOnce(i64) -> Result<Option<User>, CheckAccessError>,

    requires
        forall|h: &[u8]| session_by_hash.requires((h,)),
        forall|id: i64| user_by_id.requires((id,)),
    ensures
        exists|h: &[u8], found: Result<Option<SessionData>, CheckAccessError>|
            h@ == sessionid_hash_spec(hasher, session_id) && #[trigger] session_by_hash.ensures(
                (h,),
                found,
            ) && match found {
                Err(e) => r == Err::<Option<User>, CheckAccessError>(e),
                Ok(None) => r matches Ok(None),
                Ok(Some(sd)) => match sd.user_id {
                    None => r matches Ok(None),
                    Some(UserId(id)) => user_by_id.ensures((id,), r),
                },
            },
{
    let hash = sessionid_hash(hasher, session_id);
    let hs = hash.as_slice();
    let found = session_by_hash(hs);
    let ghost found_ghost = found;
    let r = match found {
        Err(e) => Err(e),
        Ok(None) => Ok(None),
        Ok(Some(sd)) => match sd.user_id {
            None => Ok(None),
            Some(UserId(id)) => user_by_id(id),
        },
    };
    assert(session_by_hash.ensures((hs,), found_ghost));
    r
}

} // verus!
