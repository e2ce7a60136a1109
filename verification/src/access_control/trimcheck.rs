//! Sanitize user-provided inputs: trim them and check their length.

use std::ops::RangeInclusive;

use vstd::prelude::*;
use vstd::string::*;

verus! {

// Permitted lengths, in characters of the trimmed input: from the
// minimum to the maximum, both included.
pub const USERNAME_MIN: u32 = 2;
pub const USERNAME_MAX: u32 = 20;
pub const GROUPNAME_MIN: u32 = 1;
pub const GROUPNAME_MAX: u32 = 20;
pub const PASSWORD_MIN: u32 = 8;
pub const PASSWORD_MAX: u32 = 200;
pub const EMAIL_MIN: u32 = 3;
pub const EMAIL_MAX: u32 = 120;

#[derive(Debug)]
pub enum InputCheckFailureKind {
    TooLong(&'static str, RangeInclusive<u32>),
    TooShort(&'static str, RangeInclusive<u32>),
    ContainsNull(&'static str),
    MissingAt(&'static str),
}

/// A failed input check.
#[derive(Debug)]
pub struct InputCheckFailure(pub Box<InputCheckFailureKind>);

impl InputCheckFailure {
    pub open spec fn spec_kind(&self) -> InputCheckFailureKind {
        *self.0
    }

    pub fn kind(&self) -> (r: &InputCheckFailureKind)
        ensures
            *r == self.spec_kind(),
    {
        &self.0
    }
}

/// Unicode `White_Space`, the whitespace `str::trim` removes.
pub open spec fn is_white_space(c: char) -> bool {
    ('\t' <= c && c <= '\r') || c == ' ' || c == '\u{85}' || c == '\u{A0}' || c == '\u{1680}' || (
    '\u{2000}' <= c && c <= '\u{200A}') || c == '\u{2028}' || c == '\u{2029}' || c == '\u{202F}'
        || c == '\u{205F}' || c == '\u{3000}'
}

pub open spec fn trim_start_spec(s: Seq<char>) -> Seq<char>
    decreases s.len(),
{
    if s.len() > 0 && is_white_space(s[0]) {
        trim_start_spec(s.drop_first())
    } else {
        s
    }
}

pub open spec fn trim_end_spec(s: Seq<char>) -> Seq<char>
    decreases s.len(),
{
    if s.len() > 0 && is_white_space(s.last()) {
        trim_end_spec(s.drop_last())
    } else {
        s
    }
}

/// `s` without leading and trailing whitespace.
pub open spec fn trimmed(s: Seq<char>) -> Seq<char> {
    trim_end_spec(trim_start_spec(s))
}

fn white_space_char(c: char) -> (r: bool)
    ensures
        r == is_white_space(c),
{
    ('\t' <= c && c <= '\r') || c == ' ' || c == '\u{85}' || c == '\u{A0}' || c == '\u{1680}' || (
    '\u{2000}' <= c && c <= '\u{200A}') || c == '\u{2028}' || c == '\u{2029}' || c == '\u{202F}'
        || c == '\u{205F}' || c == '\u{3000}'
}

/// The part of `s` without leading and trailing Unicode whitespace (as
/// `str::trim` gives it).
fn str_trim(s: &str) -> (r: &str)
    ensures
        r@ == trimmed(s@),
{
    let n = s.unicode_len();
    let mut i: usize = 0;
    assert(s@.skip(0) =~= s@);
    while i < n && white_space_char(s.get_char(i))
        invariant
            i <= n,
            n == s@.len(),
            trim_start_spec(s@) == trim_start_spec(s@.skip(i as int)),
        decreases n - i,
    {
        assert(s@.skip(i as int).drop_first() =~= s@.skip(i + 1));
        i = i + 1;
    }
    assert(trim_start_spec(s@.skip(i as int)) == s@.skip(i as int)) by {
        if i < n {
            assert(s@.skip(i as int)[0] == s@[i as int]);
        }
    }
    let mut j: usize = n;
    assert(s@.skip(i as int) =~= s@.subrange(i as int, n as int));
    while j > i && white_space_char(s.get_char(j - 1))
        invariant
            i <= j <= n,
            n == s@.len(),
            trim_end_spec(s@.subrange(i as int, n as int)) == trim_end_spec(
                s@.subrange(i as int, j as int),
            ),
        decreases j - i,
    {
        assert(s@.subrange(i as int, j as int).drop_last() =~= s@.subrange(i as int, j - 1));
        assert(s@.subrange(i as int, j as int).last() == s@[j - 1]);
        j = j - 1;
    }
    assert(trim_end_spec(s@.subrange(i as int, j as int)) == s@.subrange(i as int, j as int)) by {
        if j > i {
            assert(s@.subrange(i as int, j as int).last() == s@[j - 1]);
        }
    }
    s.substring_char(i, j)
}

/// Whether the characters of `s` include `c`.
pub fn str_contains_char(s: &str, c: char) -> (r: bool)
    ensures
        r == s@.contains(c),
{
    let mut found = false;
    for d in it: s.chars()
        invariant
            it.seq() == s@,
            found == s@.take(it.index() as int).contains(c),
    {
        proof {
            let t = s@.take(it.index() + 1);
            assert(t.drop_last() =~= s@.take(it.index() as int));
            assert(t.last() == d);
            if found {
                let j = choose|j: int| 0 <= j < it.index() && s@.take(it.index() as int)[j] == c;
                assert(t[j] == c);
            }
            if d == c {
                assert(t[it.index() as int] == c);
            }
            if !found && d != c {
                assert forall|j: int| 0 <= j < t.len() implies t[j] != c by {
                    if j < it.index() {
                        assert(t[j] == s@.take(it.index() as int)[j]);
                    }
                }
            }
        }
        found = found || d == c;
    }
    assert(s@.take(s@.len() as int) =~= s@);
    found
}

/// What checking `s` as field `fieldname` with permitted lengths
/// `min ..= max` gives: the trimmed string, or the failure.
pub open spec fn trimcheck_spec(fieldname: &'static str, min: u32, max: u32, s: Seq<char>) -> Result<
    Seq<char>,
    InputCheckFailureKind,
> {
    if s.contains('\0') {
        Err(InputCheckFailureKind::ContainsNull(fieldname))
    } else if trimmed(s).len() < min {
        Err(InputCheckFailureKind::TooShort(fieldname, arbitrary()))
    } else if trimmed(s).len() > max {
        Err(InputCheckFailureKind::TooLong(fieldname, arbitrary()))
    } else {
        Ok(trimmed(s))
    }
}

/// The failure `r` is the one `trimcheck_spec` describes; a range it
/// carries is `min ..= max`.
pub open spec fn same_failure(r: InputCheckFailureKind, spec: InputCheckFailureKind, min: u32, max: u32) -> bool {
    match spec {
        InputCheckFailureKind::ContainsNull(f) => r == InputCheckFailureKind::ContainsNull(f),
        InputCheckFailureKind::MissingAt(f) => r == InputCheckFailureKind::MissingAt(f),
        InputCheckFailureKind::TooShort(f, _) => r matches InputCheckFailureKind::TooShort(g, rg)
            && g == f && rg@.start == min && rg@.end == max && !rg@.exhausted,
        InputCheckFailureKind::TooLong(f, _) => r matches InputCheckFailureKind::TooLong(g, rg)
            && g == f && rg@.start == min && rg@.end == max && !rg@.exhausted,
    }
}

/// The result of a check against what `trimcheck_spec` says.
pub open spec fn check_result_is(
    r: Result<&str, InputCheckFailure>,
    spec: Result<Seq<char>, InputCheckFailureKind>,
    min: u32,
    max: u32,
) -> bool {
    match spec {
        Ok(t) => r matches Ok(v) && v@ == t,
        Err(k) => r matches Err(e) && same_failure(e.spec_kind(), k, min, max),
    }
}

fn trimcheck_<'s>(fieldname: &'static str, min: u32, max: u32, s: &'s str) -> (r: Result<
    &'s str,
    InputCheckFailure,
>)
    ensures
        check_result_is(r, trimcheck_spec(fieldname, min, max, s@), min, max),
{
    if str_contains_char(s, '\0') {
        return Err(InputCheckFailure(Box::new(InputCheckFailureKind::ContainsNull(fieldname))));
    }
    let s = str_trim(s);
    let len = s.unicode_len();
    if len < min as usize {
        Err(InputCheckFailure(Box::new(InputCheckFailureKind::TooShort(fieldname, RangeInclusive::new(min, max)))))
    } else if len > max as usize {
        Err(InputCheckFailure(Box::new(InputCheckFailureKind::TooLong(fieldname, RangeInclusive::new(min, max)))))
    } else {
        Ok(s)
    }
}

pub fn trimcheck_username(s: &str) -> (r: Result<&str, InputCheckFailure>)
    ensures
        check_result_is(r, trimcheck_spec("username", USERNAME_MIN, USERNAME_MAX, s@), USERNAME_MIN, USERNAME_MAX),
{
    trimcheck_("username", USERNAME_MIN, USERNAME_MAX, s)
}

pub fn trimcheck_groupname(s: &str) -> (r: Result<&str, InputCheckFailure>)
    ensures
        check_result_is(r, trimcheck_spec("groupname", GROUPNAME_MIN, GROUPNAME_MAX, s@), GROUPNAME_MIN, GROUPNAME_MAX),
{
    trimcheck_("groupname", GROUPNAME_MIN, GROUPNAME_MAX, s)
}

pub fn trimcheck_password(s: &str) -> (r: Result<&str, InputCheckFailure>)
    ensures
        check_result_is(r, trimcheck_spec("password", PASSWORD_MIN, PASSWORD_MAX, s@), PASSWORD_MIN, PASSWORD_MAX),
{
    trimcheck_("password", PASSWORD_MIN, PASSWORD_MAX, s)
}

/// An email address is optional: blank input gives `None`; otherwise it
/// must contain '@' and is checked like the other fields.
pub open spec fn email_spec(s: Seq<char>) -> Result<Option<Seq<char>>, InputCheckFailureKind> {
    let t = trimmed(s);
    if t.len() == 0 {
        Ok(None)
    } else if !t.contains('@') {
        Err(InputCheckFailureKind::MissingAt("email"))
    } else {
        match trimcheck_spec("email", EMAIL_MIN, EMAIL_MAX, t) {
            Ok(v) => Ok(Some(v)),
            Err(e) => Err(e),
        }
    }
}

pub fn trimcheck_email(s: &str) -> (r: Result<Option<&str>, InputCheckFailure>)
    ensures
        match email_spec(s@) {
            Ok(None) => r matches Ok(None),
            Ok(Some(t)) => r matches Ok(Some(v)) && v@ == t,
            Err(k) => r matches Err(e) && same_failure(e.spec_kind(), k, EMAIL_MIN, EMAIL_MAX),
        },
{
    let s = str_trim(s);
    if s.as_bytes().len() == 0 {
        proof {
            vstd::utf8::encode_utf8_decode_utf8(s@);
            assert(s.spec_bytes() =~= Seq::<u8>::empty());
        }
        Ok(None)
    } else {
        if str_contains_char(s, '@') {
            match trimcheck_("email", EMAIL_MIN, EMAIL_MAX, s) {
                Ok(v) => Ok(Some(v)),
                Err(e) => Err(e),
            }
        } else {
            Err(InputCheckFailure(Box::new(InputCheckFailureKind::MissingAt("email"))))
        }
    }
}

} // verus!
