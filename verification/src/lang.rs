//! The languages the site is offered in.

use vstd::prelude::*;
use vstd::string::StrSliceExecFns;

use crate::ahtml::meta::str_eq;

verus! {

#[derive(Debug, PartialEq, Eq, Clone, Copy, Structural)]
pub enum Lang {
    En,
    De,
}

impl Lang {
    /// The language's code.
    pub open spec fn code(self) -> Seq<char> {
        match self {
            Lang::En => "en"@,
            Lang::De => "de"@,
        }
    }

    /// The language whose code is exactly `s`.
    pub open spec fn spec_maybe_from(s: Seq<char>) -> Option<Lang> {
        if s == "en"@ {
            Some(Lang::En)
        } else if s == "de"@ {
            Some(Lang::De)
        } else {
            None
        }
    }

    /// The language whose code `s` starts with (`s` has at least two
    /// characters).
    pub open spec fn spec_maybe_from_start(s: Seq<char>) -> Option<Lang> {
        if s.len() < 2 {
            None
        } else {
            Lang::spec_maybe_from(s.take(2))
        }
    }

    /// The language whose code `s` starts with, English if none.
    pub open spec fn spec_from(s: Seq<char>) -> Lang {
        match Lang::spec_maybe_from_start(s) {
            Some(l) => l,
            None => Lang::En,
        }
    }

    pub fn maybe_from(s: &str) -> (r: Option<Self>)
        ensures
            r == Lang::spec_maybe_from(s@),
    {
        if str_eq(s, "en") {
            Some(Lang::En)
        } else if str_eq(s, "de") {
            Some(Lang::De)
        } else {
            None
        }
    }

    pub fn maybe_from_start(s: &str) -> (r: Option<Self>)
        ensures
            r == Lang::spec_maybe_from_start(s@),
    {
        if s.unicode_len() < 2 {
            return None;
        }
        let start = s.substring_char(0, 2);
        assert(start@ =~= s@.take(2));
        Self::maybe_from(start)
    }

    /// The language's code.
    pub fn code_str(self) -> (r: &'static str)
        ensures
            r@ == self.code(),
    {
        match self {
            Lang::En => "en",
            Lang::De => "de",
        }
    }

    /// The codes of all languages.
    pub fn strs() -> (r: Vec<&'static str>)
        ensures
            r@.len() == 2,
            r@[0]@ == Lang::En.code(),
            r@[1]@ == Lang::De.code(),
    {
        vec!["en", "de"]
    }
}

impl Default for Lang {
    fn default() -> (r: Self)
        ensures
            r == Lang::En,
    {
        Lang::En
    }
}

impl<'a> From<&'a str> for Lang {
    /// The language whose code `s` starts with, English if none.
    fn from(s: &'a str) -> (r: Self) {
        match Lang::maybe_from_start(s) {
            Some(l) => l,
            None => Lang::En,
        }
    }
}

impl<'a> vstd::std_specs::convert::FromSpecImpl<&'a str> for Lang {
    open spec fn obeys_from_spec() -> bool {
        true
    }

    open spec fn from_spec(s: &'a str) -> Lang {
        Lang::spec_from(s@)
    }
}

/// Each language's code is recognized as that language, also at the
/// start of a longer string.
pub proof fn lemma_code_roundtrip(l: Lang, rest: Seq<char>)
    ensures
        Lang::spec_maybe_from(l.code()) == Some(l),
        Lang::spec_maybe_from_start(l.code() + rest) == Some(l),
{
    reveal_strlit("en");
    reveal_strlit("de");
    assert("en"@[0] != "de"@[0]);
    assert((l.code() + rest).take(2) =~= l.code());
}

} // verus!
