//! Per-request state: the language chosen for a request, and the
//! cookie that remembers it.

use vstd::prelude::*;

use crate::lang::Lang;
use crate::ahtml::util::softpre::strs_view;

verus! {

pub trait CookieKey {
    spec fn key_name(&self) -> Seq<char>;

    spec fn default_text(&self) -> Seq<char>;

    fn as_str(&self) -> (r: &'static str)
        ensures
            r@ == self.key_name(),
    ;

    fn default_value(&self) -> (r: &'static str)
        ensures
            r@ == self.default_text(),
    ;
}

/// The change to make to a cookie in the response.
#[derive(Debug)]
pub enum NewCookieValue<T> {
    Unchanged,
    /// New value and its Max-Age in seconds.
    Updated(T, i32),
    Deleted,
}

/// The present and desired cookie state for a key.
pub struct Cookie<K: CookieKey> {
    key: K,
    // From the request.
    got: Option<String>,
    // The change to send in the response.
    out: NewCookieValue<String>,
}

impl<K: CookieKey> Cookie<K> {
    pub closed spec fn spec_key(&self) -> K {
        self.key
    }

    pub closed spec fn spec_got(&self) -> Option<String> {
        self.got
    }

    pub closed spec fn spec_out(&self) -> NewCookieValue<String> {
        self.out
    }

    pub fn new(key: K, got: Option<String>) -> (r: Self)
        ensures
            r.spec_key() == key,
            r.spec_got() == got,
            r.spec_out() == NewCookieValue::<String>::Unchanged,
    {
        Cookie { key, got, out: NewCookieValue::Unchanged }
    }

    pub fn key(&self) -> (r: &str)
        ensures
            r@ == self.spec_key().key_name(),
    {
        self.key.as_str()
    }

    /// The value from the request, or the key's default.
    pub fn value(&self) -> (r: &str)
        ensures
            r@ == match self.spec_got() {
                Some(s) => s@,
                None => self.spec_key().default_text(),
            },
    {
        match &self.got {
            Some(s) => s.as_str(),
            None => self.key.default_value(),
        }
    }

    /// Claims the change to send; afterwards there is none again.
    pub fn take_out_value(&mut self) -> (r: NewCookieValue<String>)
        ensures
            r == old(self).spec_out(),
            final(self).spec_out() == NewCookieValue::<String>::Unchanged,
            final(self).spec_key() == old(self).spec_key(),
            final(self).spec_got() == old(self).spec_got(),
    {
        let mut out = NewCookieValue::Unchanged;
        std::mem::swap(&mut out, &mut self.out);
        out
    }

    /// `max_age` is the Set-Cookie Max-Age value in seconds.
    pub fn set(&mut self, value: String, max_age: i32)
        ensures
            final(self).spec_out() == NewCookieValue::Updated(value, max_age),
            final(self).spec_key() == old(self).spec_key(),
            final(self).spec_got() == old(self).spec_got(),
    {
        self.out = NewCookieValue::Updated(value, max_age);
    }

    pub fn clear(&mut self)
        ensures
            final(self).spec_out() == NewCookieValue::<String>::Deleted,
            final(self).spec_key() == old(self).spec_key(),
            final(self).spec_got() == old(self).spec_got(),
    {
        self.out = NewCookieValue::Deleted;
    }
}

pub const LANG_COOKIE_MAX_AGE_SECONDS: i32 = 5184000;  // 60 days

/// The cookie holding the chosen language.
pub struct LangKey;

impl CookieKey for LangKey {
    open spec fn key_name(&self) -> Seq<char> {
        "lang"@
    }

    open spec fn default_text(&self) -> Seq<char> {
        "en"@
    }

    fn as_str(&self) -> (r: &'static str) {
        "lang"
    }

    fn default_value(&self) -> (r: &'static str) {
        "en"
    }
}

/// The language for a request: the one in the path, else the one in the
/// cookie, else the one the browser prefers.
pub open spec fn chosen_lang(path_lang: Option<Lang>, cookie_lang: Option<Lang>, browser_lang: Option<Lang>) -> Option<Lang> {
    if path_lang is Some {
        path_lang
    } else if cookie_lang is Some {
        cookie_lang
    } else {
        browser_lang
    }
}

/// Chooses the request's language and updates the language cookie: it
/// is cleared where the browser's preference gives the chosen language
/// anyway, set where it differs from the chosen language otherwise,
/// and left alone where it already holds it.
pub fn choose_lang(
    path_lang: Option<Lang>,
    cookie_lang: Option<Lang>,
    browser_lang: Option<Lang>,
    cookie: &mut Cookie<LangKey>,
) -> (r: Option<Lang>)
    ensures
        r == chosen_lang(path_lang, cookie_lang, browser_lang),
        final(cookie).spec_got() == old(cookie).spec_got(),
        final(cookie).spec_key() == old(cookie).spec_key(),
        r is None || r == cookie_lang ==> final(cookie).spec_out() == old(cookie).spec_out(),
        r is Some && r != cookie_lang && r == browser_lang ==> final(cookie).spec_out()
            == NewCookieValue::<String>::Deleted,
        r is Some && r != cookie_lang && r != browser_lang ==> (final(cookie).spec_out() matches NewCookieValue::Updated(v, a)
            && v@ == r->0.code() && a == LANG_COOKIE_MAX_AGE_SECONDS),
{
    let lang = if path_lang.is_some() {
        path_lang
    } else if cookie_lang.is_some() {
        cookie_lang
    } else {
        browser_lang
    };
    if let Some(langval) = lang {
        if lang != cookie_lang {
            if lang == browser_lang {
                cookie.clear();
            } else {
                let code = langval.code_str();
                cookie.set(code.to_owned(), LANG_COOKIE_MAX_AGE_SECONDS);
            }
        }
    }
    lang
}

/// What `rouille::input::priority_header_preferred` gives for the
/// priority header `header` (such as `Accept-Language`) and the handled
/// values `candidates`: the position of the preferred candidate.
pub uninterp spec fn header_preferred(header: Seq<char>, candidates: Seq<Seq<char>>) -> Option<nat>;

/// `rouille::input::priority_header_preferred`: the position among
/// `candidates` of the value that `header` prefers, if any. It parses
/// the header alone, so its result depends on the two arguments only;
/// a position it returns is one of the candidates'.
#[verifier::external_body]
fn priority_header_preferred(header: &str, candidates: &Vec<&str>) -> (r: Option<usize>)
    ensures
        match r {
            Some(i) => header_preferred(header@, strs_view(candidates@)) == Some(i as nat) && i
                < candidates@.len(),
            None => header_preferred(header@, strs_view(candidates@)) is None,
        },
{
    rouille::input::priority_header_preferred(header, candidates.iter().cloned())
}

/// The codes of the languages, in the order `Lang::strs` gives them.
pub open spec fn lang_codes() -> Seq<Seq<char>> {
    seq![Lang::En.code(), Lang::De.code()]
}

/// The language the browser prefers by its `Accept-Language` header.
pub open spec fn browser_lang_spec(accept_language: Option<Seq<char>>) -> Option<Lang> {
    match accept_language {
        None => None,
        Some(h) => match header_preferred(h, lang_codes()) {
            Some(i) => if i == 0 {
                Some(Lang::En)
            } else if i == 1 {
                Some(Lang::De)
            } else {
                None
            },
            None => None,
        },
    }
}

pub open spec fn opt_str_view(s: Option<&str>) -> Option<Seq<char>> {
    match s {
        Some(t) => Some(t@),
        None => None,
    }
}

/// The language for a cookie value (its exact code).
pub open spec fn cookie_lang_spec(s: Option<&str>) -> Option<Lang> {
    match s {
        Some(t) => Lang::spec_maybe_from(t@),
        None => None,
    }
}

/// The language that the browser prefers, by its `Accept-Language`
/// header (if it sent one) among the languages' codes.
pub fn browser_lang(accept_language: Option<&str>) -> (r: Option<Lang>)
    ensures
        r == browser_lang_spec(opt_str_view(accept_language)),
{
    match accept_language {
        None => None,
        Some(h) => {
            let ss = Lang::strs();
            proof {
                assert(strs_view(ss@) =~= lang_codes());
                reveal_strlit("en");
                reveal_strlit("de");
                assert("de"@ != "en"@) by {
                    assert("de"@[0] != "en"@[0]);
                }
            }
            match priority_header_preferred(h, &ss) {
                Some(i) => Lang::maybe_from(ss[i]),
                None => None,
            }
        },
    }
}

/// The language of a cookie value, if it is a language code.
fn cookie_lang(lang_cookie: Option<&str>) -> (r: Option<Lang>)
    ensures
        r == cookie_lang_spec(lang_cookie),
{
    match lang_cookie {
        Some(s) => Lang::maybe_from(s),
        None => None,
    }
}

/// The language of a request context, from the language named by its
/// path, the `lang` cookie's value and the `Accept-Language` header,
/// in that order of precedence; the cookie is updated as `choose_lang`
/// says.
pub fn request_lang(
    path_lang: Option<Lang>,
    lang_cookie: Option<&str>,
    accept_language: Option<&str>,
    cookie: &mut Cookie<LangKey>,
) -> (r: Option<Lang>)
    ensures
        ({
            let cl = cookie_lang_spec(lang_cookie);
            let bl = browser_lang_spec(opt_str_view(accept_language));
            &&& r == chosen_lang(path_lang, cl, bl)
            &&& final(cookie).spec_got() == old(cookie).spec_got()
            &&& final(cookie).spec_key() == old(cookie).spec_key()
            &&& (r is None || r == cl ==> final(cookie).spec_out() == old(cookie).spec_out())
            &&& (r is Some && r != cl && r == bl ==> final(cookie).spec_out()
                == NewCookieValue::<String>::Deleted)
            &&& (r is Some && r != cl && r != bl ==> (final(cookie).spec_out() matches NewCookieValue::Updated(v, a)
                && v@ == r->0.code() && a == LANG_COOKIE_MAX_AGE_SECONDS))
        }),
{
    let cl = cookie_lang(lang_cookie);
    let bl = browser_lang(accept_language);
    choose_lang(path_lang, cl, bl, cookie)
}

/// The language of a plain request: the one named by the first path
/// segment, else the `lang` cookie's, else the browser's preference.
pub fn arequest_lang(
    first_segment: Option<&str>,
    lang_cookie: Option<&str>,
    accept_language: Option<&str>,
) -> (r: Option<Lang>)
    ensures
        r == chosen_lang(
            cookie_lang_spec(first_segment),
            cookie_lang_spec(lang_cookie),
            browser_lang_spec(opt_str_view(accept_language)),
        ),
{
    let pl = cookie_lang(first_segment);
    if pl.is_some() {
        return pl;
    }
    let cl = cookie_lang(lang_cookie);
    if cl.is_some() {
        return cl;
    }
    browser_lang(accept_language)
}

} // verus!
