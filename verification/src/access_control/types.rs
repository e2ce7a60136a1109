//! The records stored for access control.

use vstd::prelude::*;
use vstd::string::*;

use crate::ahtml::strutil::lemma_chars_le_bytes;
use crate::hash_util::{blake3_digest, blake3_hash};

verus! {

pub open spec fn is_ascii_alnum(c: char) -> bool {
    ('0' <= c && c <= '9') || ('a' <= c && c <= 'z') || ('A' <= c && c <= 'Z')
}

/// The characters allowed in a name are exactly the 62 ASCII letters
/// and digits (code points 48 to 57, 65 to 90 and 97 to 122), and a
/// letter is allowed in either case alike.
pub proof fn lemma_name_characters(c: char)
    ensures
        is_ascii_alnum(c) <==> (48 <= c as u32 <= 57 || 65 <= c as u32 <= 90 || 97 <= c as u32
            <= 122),
        97 <= c as u32 <= 122 ==> is_ascii_alnum(c) == is_ascii_alnum(((c as u32) - 32) as char),
{
}

/// Every name made of ASCII letters (of either case) and digits is
/// accepted: `UserOrGroupName::new` finds no invalid character in it.
pub proof fn lemma_alnum_names_accepted(s: Seq<char>)
    requires
        forall|i: int|
            0 <= i < s.len() ==> {
                let u = (#[trigger] s[i]) as u32;
                48 <= u <= 57 || 65 <= u <= 90 || 97 <= u <= 122
            },
    ensures
        first_invalid(s) is None,
{
    assert forall|i: int| 0 <= i < s.len() implies is_ascii_alnum(#[trigger] s[i]) by {
        lemma_name_characters(s[i]);
    }
}

/// A user or group name: ASCII letters and digits only.
#[derive(Debug)]
pub struct UserOrGroupName(String);

#[derive(Debug)]
pub enum UserOrGroupNameError {
    InvalidCharacter(usize, char),
}

/// The first position in `s` holding a character that is not an ASCII
/// letter or digit.
pub open spec fn first_invalid(s: Seq<char>) -> Option<int> {
    if exists|i: int| 0 <= i < s.len() && !is_ascii_alnum(#[trigger] s[i]) {
        Some(
            choose|i: int|
                0 <= i < s.len() && !is_ascii_alnum(#[trigger] s[i]) && forall|j: int|
                    0 <= j < i ==> is_ascii_alnum(#[trigger] s[j]),
        )
    } else {
        None
    }
}

impl View for UserOrGroupName {
    type V = Seq<char>;

    closed spec fn view(&self) -> Seq<char> {
        self.0@
    }
}

impl UserOrGroupName {
    pub fn new(s: String) -> (r: Result<Self, UserOrGroupNameError>)
        ensures
            r matches Ok(n) ==> n@ == s@ && forall|i: int| 0 <= i < s@.len() ==> is_ascii_alnum(
                #[trigger] s@[i],
            ),
            r matches Err(UserOrGroupNameError::InvalidCharacter(i, c)) ==> i < s@.len() && c
                == s@[i as int] && !is_ascii_alnum(c) && forall|j: int|
                0 <= j < i ==> is_ascii_alnum(#[trigger] s@[j]),
    {
        let ss = s.as_str();
        let sb = ss.as_bytes();
        let byte_len = sb.len();
        proof {
            lemma_chars_le_bytes(s@);
            assert(ss@ == s@);
            assert(sb@ == vstd::utf8::encode_utf8(ss@));
        }
        let mut i: usize = 0;
        for c in it: s.chars()
            invariant
                it.seq() == s@,
                s@.len() <= byte_len,
                i == it.index(),
                forall|j: int| 0 <= j < i ==> is_ascii_alnum(#[trigger] s@[j]),
        {
            if !(('0' <= c && c <= '9') || ('a' <= c && c <= 'z') || ('A' <= c && c <= 'Z')) {
                return Err(UserOrGroupNameError::InvalidCharacter(i, c));
            }
            i = i + 1;
        }
        Ok(UserOrGroupName(s))
    }

    pub fn to_string(self) -> (r: String)
        ensures
            r@ == self@,
    {
        self.0
    }

    pub fn as_str(&self) -> (r: &str)
        ensures
            r@ == self@,
    {
        self.0.as_str()
    }
}

/// Where the check fails it fails at the first invalid character.
pub proof fn lemma_first_invalid(s: Seq<char>, i: int)
    requires
        0 <= i < s.len(),
        !is_ascii_alnum(s[i]),
        forall|j: int| 0 <= j < i ==> is_ascii_alnum(#[trigger] s[j]),
    ensures
        first_invalid(s) == Some(i),
{
    let k = choose|k: int|
        0 <= k < s.len() && !is_ascii_alnum(#[trigger] s[k]) && forall|j: int|
            0 <= j < k ==> is_ascii_alnum(#[trigger] s[j]);
    assert(0 <= k < s.len() && !is_ascii_alnum(s[k]) && forall|j: int|
        0 <= j < k ==> is_ascii_alnum(#[trigger] s[j]));
    if k < i {
        assert(is_ascii_alnum(s[k]));
    }
    if i < k {
        assert(is_ascii_alnum(s[i]));
    }
}

#[derive(Debug, Clone, Copy, PartialEq, Eq, Structural)]
pub struct UserId(pub i64);

#[derive(Debug, Clone, Copy, PartialEq, Eq, Structural)]
pub struct GroupId(pub i64);

#[derive(Debug)]
pub struct User {
    pub id: Option<UserId>,
    pub username: UserOrGroupName,
    pub email: Option<String>,
    pub name: String,
    pub surname: String,
    pub hashed_pass: String,
}

/// The result of a `count(*)` query.
#[derive(Debug)]
pub struct Count(pub i64);

#[derive(Debug)]
pub struct Group {
    pub id: Option<GroupId>,
    pub groupname: UserOrGroupName,
}

#[derive(Debug)]
pub struct UserInGroup {
    pub user_id: UserId,
    pub group_id: GroupId,
}

#[derive(Debug)]
pub struct FailedLoginAttempt {
    pub id: Option<i64>,
    pub ip: Vec<u8>,
    pub username: String,
    pub unixtime_next_allowed: i64,
    pub seconds_next_wait: i64,
}

/// The secret that session ids are hashed with, before they are looked
/// up in the database.
pub struct SessionIdHasher {
    secret: Vec<u8>,
}

impl SessionIdHasher {
    pub closed spec fn spec_secret(&self) -> Seq<u8> {
        self.secret@
    }

    pub fn new(secret: Vec<u8>) -> (r: Self)
        ensures
            r.spec_secret() == secret@,
    {
        SessionIdHasher { secret }
    }
}

/// The hash stored for session id `sessionid`: the digest of the secret
/// followed by the session id's bytes.
pub open spec fn sessionid_hash_spec(hasher: &SessionIdHasher, sessionid: &str) -> Seq<u8> {
    blake3_digest(hasher.spec_secret() + sessionid.spec_bytes())
}

/// The hash under which the data of session `sessionid` is stored; it
/// avoids a timing side channel on database lookups of the
/// user-provided session ids.
pub fn sessionid_hash(hasher: &SessionIdHasher, sessionid: &str) -> (r: Vec<u8>)
    ensures
        r@ == sessionid_hash_spec(hasher, sessionid),
{
    let mut data: Vec<u8> = Vec::new();
    let mut i: usize = 0;
    while i < hasher.secret.len()
        invariant
            i <= hasher.secret@.len(),
            data@ == hasher.secret@.take(i as int),
        decreases hasher.secret@.len() - i,
    {
        data.push(hasher.secret[i]);
        i = i + 1;
        assert(data@ =~= hasher.secret@.take(i as int));
    }
    let bytes = sessionid.as_bytes();
    let mut j: usize = 0;
    while j < bytes.len()
        invariant
            j <= bytes@.len(),
            data@ == hasher.secret@ + bytes@.take(j as int),
        decreases bytes@.len() - j,
    {
        data.push(bytes[j]);
        j = j + 1;
        assert(data@ =~= hasher.secret@ + bytes@.take(j as int));
    }
    assert(hasher.secret@.take(hasher.secret@.len() as int) =~= hasher.secret@);
    assert(bytes@.take(bytes@.len() as int) =~= bytes@);
    blake3_hash(data.as_slice())
}

#[derive(Debug)]
pub struct SessionData {
    pub id: Option<i64>,
    pub sessionid_hash: Vec<u8>,
    pub last_request_time: i64,  // unixtime
    pub user_id: Option<UserId>,  // session data can exist even if not logged in
    pub ip: Option<Vec<u8>>,  // the IP that logged in
}

impl SessionData {
    pub closed spec fn spec_sessionid_hash(&self) -> Seq<u8> {
        self.sessionid_hash@
    }

    pub fn new(
        id: Option<i64>,
        sessionid: &str,
        last_request_time: i64,
        user_id: Option<UserId>,
        ip: Option<Vec<u8>>,
        hasher: &SessionIdHasher,
    ) -> (r: Self)
        ensures
            r.id == id,
            r.spec_sessionid_hash() == sessionid_hash_spec(hasher, sessionid),
            r.last_request_time == last_request_time,
            r.user_id == user_id,
            r.ip == ip,
    {
        SessionData {
            id,
            sessionid_hash: sessionid_hash(hasher, sessionid),
            last_request_time,
            user_id,
            ip,
        }
    }

    /// Data as read back from the database, with the stored hash.
    pub fn from_stored(
        id: Option<i64>,
        sessionid_hash: Vec<u8>,
        last_request_time: i64,
        user_id: Option<UserId>,
        ip: Option<Vec<u8>>,
    ) -> (r: Self)
        ensures
            r.id == id,
            r.spec_sessionid_hash() == sessionid_hash@,
            r.last_request_time == last_request_time,
            r.user_id == user_id,
            r.ip == ip,
    {
        SessionData { id, sessionid_hash, last_request_time, user_id, ip }
    }

    pub fn sessionid_hash(&self) -> (r: &[u8])
        ensures
            r@ == self.spec_sessionid_hash(),
    {
        self.sessionid_hash.as_slice()
    }
}

} // verus!
