//! Pattern matching and processing help for HTTP request methods.

use vstd::prelude::*;

use crate::ahtml::meta::str_eq;

verus! {

#[derive(Debug, Clone, Copy, PartialEq, Eq, Structural)]
pub enum HttpRequestMethod {
    GET,
    HEAD,
    POST,
    PUT,
    DELETE,
    CONNECT,
    OPTIONS,
    TRACE,
    PATCH,
}

#[derive(Debug, Clone, Copy, PartialEq, Eq, Structural)]
pub enum HttpRequestMethodSimple {
    GET,
    HEAD,
    POST,
}

#[derive(Debug, Clone, Copy, PartialEq, Eq, Structural)]
pub enum HttpRequestMethodDocument {
    PUT,
    DELETE,
    PATCH,
}

#[derive(Debug, Clone, Copy, PartialEq, Eq, Structural)]
pub enum HttpRequestMethodSpecial {
    OPTIONS,
    TRACE,
    CONNECT,
}

pub enum HttpRequestMethodGrouped {
    Simple(HttpRequestMethodSimple),
    Document(HttpRequestMethodDocument),
    Special(HttpRequestMethodSpecial),
}

/// A string that names no HTTP request method.
#[derive(Debug)]
pub struct InvalidHttpRequestMethod {
    pub method: String,
}

impl HttpRequestMethodSimple {
    pub open spec fn method(self) -> HttpRequestMethod {
        match self {
            HttpRequestMethodSimple::GET => HttpRequestMethod::GET,
            HttpRequestMethodSimple::HEAD => HttpRequestMethod::HEAD,
            HttpRequestMethodSimple::POST => HttpRequestMethod::POST,
        }
    }

    pub fn is_post(self) -> (r: bool)
        ensures
            r == (self == HttpRequestMethodSimple::POST),
    {
        match self {
            HttpRequestMethodSimple::GET => false,
            HttpRequestMethodSimple::HEAD => false,
            HttpRequestMethodSimple::POST => true,
        }
    }

    pub fn to_http_request_method(self) -> (r: HttpRequestMethod)
        ensures
            r == self.method(),
    {
        match self {
            HttpRequestMethodSimple::GET => HttpRequestMethod::GET,
            HttpRequestMethodSimple::HEAD => HttpRequestMethod::HEAD,
            HttpRequestMethodSimple::POST => HttpRequestMethod::POST,
        }
    }
}

impl HttpRequestMethodDocument {
    pub open spec fn method(self) -> HttpRequestMethod {
        match self {
            HttpRequestMethodDocument::PUT => HttpRequestMethod::PUT,
            HttpRequestMethodDocument::DELETE => HttpRequestMethod::DELETE,
            HttpRequestMethodDocument::PATCH => HttpRequestMethod::PATCH,
        }
    }

    pub fn to_http_request_method(self) -> (r: HttpRequestMethod)
        ensures
            r == self.method(),
    {
        match self {
            HttpRequestMethodDocument::PUT => HttpRequestMethod::PUT,
            HttpRequestMethodDocument::DELETE => HttpRequestMethod::DELETE,
            HttpRequestMethodDocument::PATCH => HttpRequestMethod::PATCH,
        }
    }
}

impl HttpRequestMethodSpecial {
    pub open spec fn method(self) -> HttpRequestMethod {
        match self {
            HttpRequestMethodSpecial::OPTIONS => HttpRequestMethod::OPTIONS,
            HttpRequestMethodSpecial::TRACE => HttpRequestMethod::TRACE,
            HttpRequestMethodSpecial::CONNECT => HttpRequestMethod::CONNECT,
        }
    }

    pub fn to_http_request_method(self) -> (r: HttpRequestMethod)
        ensures
            r == self.method(),
    {
        match self {
            HttpRequestMethodSpecial::OPTIONS => HttpRequestMethod::OPTIONS,
            HttpRequestMethodSpecial::TRACE => HttpRequestMethod::TRACE,
            HttpRequestMethodSpecial::CONNECT => HttpRequestMethod::CONNECT,
        }
    }
}

impl HttpRequestMethodGrouped {
    pub open spec fn method(self) -> HttpRequestMethod {
        match self {
            HttpRequestMethodGrouped::Simple(v) => v.method(),
            HttpRequestMethodGrouped::Document(v) => v.method(),
            HttpRequestMethodGrouped::Special(v) => v.method(),
        }
    }

    pub fn to_http_request_method(self) -> (r: HttpRequestMethod)
        ensures
            r == self.method(),
    {
        match self {
            HttpRequestMethodGrouped::Simple(v) => v.to_http_request_method(),
            HttpRequestMethodGrouped::Document(v) => v.to_http_request_method(),
            HttpRequestMethodGrouped::Special(v) => v.to_http_request_method(),
        }
    }
}

impl HttpRequestMethod {
    /// The method's name as it stands in a request line.
    pub open spec fn name(self) -> Seq<char> {
        match self {
            HttpRequestMethod::GET => "GET"@,
            HttpRequestMethod::HEAD => "HEAD"@,
            HttpRequestMethod::POST => "POST"@,
            HttpRequestMethod::PUT => "PUT"@,
            HttpRequestMethod::PATCH => "PATCH"@,
            HttpRequestMethod::DELETE => "DELETE"@,
            HttpRequestMethod::OPTIONS => "OPTIONS"@,
            HttpRequestMethod::CONNECT => "CONNECT"@,
            HttpRequestMethod::TRACE => "TRACE"@,
        }
    }

    /// The group (simple, document, special) the method belongs to.
    pub open spec fn grouped(self) -> HttpRequestMethodGrouped {
        match self {
            HttpRequestMethod::GET => HttpRequestMethodGrouped::Simple(HttpRequestMethodSimple::GET),
            HttpRequestMethod::HEAD => HttpRequestMethodGrouped::Simple(
                HttpRequestMethodSimple::HEAD,
            ),
            HttpRequestMethod::POST => HttpRequestMethodGrouped::Simple(
                HttpRequestMethodSimple::POST,
            ),
            HttpRequestMethod::PUT => HttpRequestMethodGrouped::Document(
                HttpRequestMethodDocument::PUT,
            ),
            HttpRequestMethod::PATCH => HttpRequestMethodGrouped::Document(
                HttpRequestMethodDocument::PATCH,
            ),
            HttpRequestMethod::DELETE => HttpRequestMethodGrouped::Document(
                HttpRequestMethodDocument::DELETE,
            ),
            HttpRequestMethod::OPTIONS => HttpRequestMethodGrouped::Special(
                HttpRequestMethodSpecial::OPTIONS,
            ),
            HttpRequestMethod::CONNECT => HttpRequestMethodGrouped::Special(
                HttpRequestMethodSpecial::CONNECT,
            ),
            HttpRequestMethod::TRACE => HttpRequestMethodGrouped::Special(
                HttpRequestMethodSpecial::TRACE,
            ),
        }
    }

    /// Parses a method name (exact, upper case).
    pub fn from_str(s: &str) -> (r: Result<Self, InvalidHttpRequestMethod>)
        ensures
            r matches Ok(m) ==> m.name() == s@,
            r matches Err(e) ==> e.method@ == s@ && forall|m: HttpRequestMethod| #[trigger] m.name() != s@,
    {
        if str_eq(s, "GET") {
            Ok(Self::GET)
        } else if str_eq(s, "HEAD") {
            Ok(Self::HEAD)
        } else if str_eq(s, "POST") {
            Ok(Self::POST)
        } else if str_eq(s, "PUT") {
            Ok(Self::PUT)
        } else if str_eq(s, "PATCH") {
            Ok(Self::PATCH)
        } else if str_eq(s, "DELETE") {
            Ok(Self::DELETE)
        } else if str_eq(s, "OPTIONS") {
            Ok(Self::OPTIONS)
        } else if str_eq(s, "CONNECT") {
            Ok(Self::CONNECT)
        } else if str_eq(s, "TRACE") {
            Ok(Self::TRACE)
        } else {
            Err(InvalidHttpRequestMethod { method: s.to_owned() })
        }
    }

    pub fn as_str(self) -> (r: &'static str)
        ensures
            r@ == self.name(),
    {
        match self {
            Self::GET => "GET",
            Self::HEAD => "HEAD",
            Self::POST => "POST",
            Self::PUT => "PUT",
            Self::PATCH => "PATCH",
            Self::DELETE => "DELETE",
            Self::OPTIONS => "OPTIONS",
            Self::CONNECT => "CONNECT",
            Self::TRACE => "TRACE",
        }
    }

    pub fn is_post(self) -> (r: bool)
        ensures
            r == (self == HttpRequestMethod::POST),
    {
        match self {
            Self::POST => true,
            _ => false,
        }
    }

    /// A sentence describing what the method does.
    pub fn description(self) -> (r: &'static str)
        ensures
            r@ == self.description_text(),
    {
        match self {
            Self::GET => "The GET method requests a representation of the specified resource. Requests using GET should only retrieve data.",
            Self::HEAD => "The HEAD method asks for a response identical to a GET request, but without the response body.",
            Self::POST => "The POST method submits an entity to the specified resource, often causing a change in state or side effects on the server.",
            Self::PUT => "The PUT method replaces all current representations of the target resource with the request payload.",
            Self::PATCH => "The PATCH method applies partial modifications to a resource.",
            Self::DELETE => "The DELETE method deletes the specified resource.",
            Self::OPTIONS => "The OPTIONS method describes the communication options for the target resource.",
            Self::CONNECT => "The CONNECT method establishes a tunnel to the server identified by the target resource.",
            Self::TRACE => "The TRACE method performs a message loop-back test along the path to the target resource.",
        }
    }

    pub open spec fn description_text(self) -> Seq<char> {
        match self {
            Self::GET => "The GET method requests a representation of the specified resource. Requests using GET should only retrieve data."@,
            Self::HEAD => "The HEAD method asks for a response identical to a GET request, but without the response body."@,
            Self::POST => "The POST method submits an entity to the specified resource, often causing a change in state or side effects on the server."@,
            Self::PUT => "The PUT method replaces all current representations of the target resource with the request payload."@,
            Self::PATCH => "The PATCH method applies partial modifications to a resource."@,
            Self::DELETE => "The DELETE method deletes the specified resource."@,
            Self::OPTIONS => "The OPTIONS method describes the communication options for the target resource."@,
            Self::CONNECT => "The CONNECT method establishes a tunnel to the server identified by the target resource."@,
            Self::TRACE => "The TRACE method performs a message loop-back test along the path to the target resource."@,
        }
    }

    /// Each method's description starts with "The <name> method ", so
    /// different methods have different descriptions.
    pub proof fn lemma_description_names_method(self)
        ensures
            ("The "@ + self.name() + " method "@).is_prefix_of(self.description_text()),
    {
        reveal_strlit("The ");
        reveal_strlit(" method ");
        match self {
            HttpRequestMethod::GET => {
                reveal_strlit("The GET method requests a representation of the specified resource. Requests using GET should only retrieve data.");
                reveal_strlit("GET");
                assert(("The "@ + "GET"@ + " method "@) =~= "The GET method requests a representation of the specified resource. Requests using GET should only retrieve data."@.take(15));
            },
            HttpRequestMethod::HEAD => {
                reveal_strlit("The HEAD method asks for a response identical to a GET request, but without the response body.");
                reveal_strlit("HEAD");
                assert(("The "@ + "HEAD"@ + " method "@) =~= "The HEAD method asks for a response identical to a GET request, but without the response body."@.take(16));
            },
            HttpRequestMethod::POST => {
                reveal_strlit("The POST method submits an entity to the specified resource, often causing a change in state or side effects on the server.");
                reveal_strlit("POST");
                assert(("The "@ + "POST"@ + " method "@) =~= "The POST method submits an entity to the specified resource, often causing a change in state or side effects on the server."@.take(16));
            },
            HttpRequestMethod::PUT => {
                reveal_strlit("The PUT method replaces all current representations of the target resource with the request payload.");
                reveal_strlit("PUT");
                assert(("The "@ + "PUT"@ + " method "@) =~= "The PUT method replaces all current representations of the target resource with the request payload."@.take(15));
            },
            HttpRequestMethod::PATCH => {
                reveal_strlit("The PATCH method applies partial modifications to a resource.");
                reveal_strlit("PATCH");
                assert(("The "@ + "PATCH"@ + " method "@) =~= "The PATCH method applies partial modifications to a resource."@.take(17));
            },
            HttpRequestMethod::DELETE => {
                reveal_strlit("The DELETE method deletes the specified resource.");
                reveal_strlit("DELETE");
                assert(("The "@ + "DELETE"@ + " method "@) =~= "The DELETE method deletes the specified resource."@.take(18));
            },
            HttpRequestMethod::OPTIONS => {
                reveal_strlit("The OPTIONS method describes the communication options for the target resource.");
                reveal_strlit("OPTIONS");
                assert(("The "@ + "OPTIONS"@ + " method "@) =~= "The OPTIONS method describes the communication options for the target resource."@.take(19));
            },
            HttpRequestMethod::CONNECT => {
                reveal_strlit("The CONNECT method establishes a tunnel to the server identified by the target resource.");
                reveal_strlit("CONNECT");
                assert(("The "@ + "CONNECT"@ + " method "@) =~= "The CONNECT method establishes a tunnel to the server identified by the target resource."@.take(19));
            },
            HttpRequestMethod::TRACE => {
                reveal_strlit("The TRACE method performs a message loop-back test along the path to the target resource.");
                reveal_strlit("TRACE");
                assert(("The "@ + "TRACE"@ + " method "@) =~= "The TRACE method performs a message loop-back test along the path to the target resource."@.take(17));
            },
        }
    }

    pub fn to_grouped(self) -> (r: HttpRequestMethodGrouped)
        ensures
            r == self.grouped(),
    {
        match self {
            Self::GET => HttpRequestMethodGrouped::Simple(HttpRequestMethodSimple::GET),
            Self::HEAD => HttpRequestMethodGrouped::Simple(HttpRequestMethodSimple::HEAD),
            Self::POST => HttpRequestMethodGrouped::Simple(HttpRequestMethodSimple::POST),
            Self::PUT => HttpRequestMethodGrouped::Document(HttpRequestMethodDocument::PUT),
            Self::PATCH => HttpRequestMethodGrouped::Document(HttpRequestMethodDocument::PATCH),
            Self::DELETE => HttpRequestMethodGrouped::Document(HttpRequestMethodDocument::DELETE),
            Self::OPTIONS => HttpRequestMethodGrouped::Special(HttpRequestMethodSpecial::OPTIONS),
            Self::CONNECT => HttpRequestMethodGrouped::Special(HttpRequestMethodSpecial::CONNECT),
            Self::TRACE => HttpRequestMethodGrouped::Special(HttpRequestMethodSpecial::TRACE),
        }
    }
}

/// Grouping a method and taking the method back out of the group gives
/// the method.
pub proof fn lemma_grouped_roundtrip(m: HttpRequestMethod)
    ensures
        m.grouped().method() == m,
{
}

/// Each method is the only one of its group with its member.
pub proof fn lemma_group_member_roundtrip(g: HttpRequestMethodGrouped)
    ensures
        g.method().grouped() == g,
{
}

/// Different methods have different names, so parsing a method's name
/// gives that method back.
pub proof fn lemma_name_injective(m1: HttpRequestMethod, m2: HttpRequestMethod)
    ensures
        m1.name() == m2.name() ==> m1 == m2,
{
    reveal_strlit("GET");
    reveal_strlit("HEAD");
    reveal_strlit("POST");
    reveal_strlit("PUT");
    reveal_strlit("PATCH");
    reveal_strlit("DELETE");
    reveal_strlit("OPTIONS");
    reveal_strlit("CONNECT");
    reveal_strlit("TRACE");
    if m1.name() == m2.name() && m1 != m2 {
        assert(m1.name().len() == m2.name().len());
        assert(m1.name()[0] == m2.name()[0]);
        assert(m1.name()[1] == m2.name()[1]);
    }
}

/// A simple method is a POST exactly when it stands for POST.
pub proof fn lemma_simple_is_post(s: HttpRequestMethodSimple)
    ensures
        (s == HttpRequestMethodSimple::POST) == (s.method() == HttpRequestMethod::POST),
{
}

} // verus!
