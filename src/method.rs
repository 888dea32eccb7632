use vstd::prelude::*;

use crate::text::same_text;

verus! {

/// The request methods that routes can name.
#[allow(non_camel_case_types)]
#[derive(Clone, Copy, Debug, PartialEq, Eq, Structural)]
pub enum Method {
    GET,
    POST,
    PUT,
    PATCH,
    OPTION,
    DELETE,
}

/// The method that `token` names, if it names one.
pub open spec fn method_of(token: Seq<char>) -> Option<Method> {
    if token == "GET"@ {
        Some(Method::GET)
    } else if token == "POST"@ {
        Some(Method::POST)
    } else if token == "PUT"@ {
        Some(Method::PUT)
    } else if token == "PATCH"@ {
        Some(Method::PATCH)
    } else if token == "OPTION"@ {
        Some(Method::OPTION)
    } else if token == "DELETE"@ {
        Some(Method::DELETE)
    } else {
        None
    }
}

/// The method of a request line's token: an unrecognised token reads as `GET`.
pub open spec fn method_or_get(token: Seq<char>) -> Method {
    match method_of(token) {
        Some(m) => m,
        None => Method::GET,
    }
}

/// The token that names `m`.
pub open spec fn method_name(m: Method) -> Seq<char> {
    match m {
        Method::GET => "GET"@,
        Method::POST => "POST"@,
        Method::PUT => "PUT"@,
        Method::PATCH => "PATCH"@,
        Method::OPTION => "OPTION"@,
        Method::DELETE => "DELETE"@,
    }
}

impl Method {
    /// The method that `token` names, or `None` for any other token.
    pub fn parse(token: &String) -> (r: Option<Method>)
        ensures
            r == method_of(token@),
    {
        if same_text(token, "GET") {
            Some(Method::GET)
        } else if same_text(token, "POST") {
            Some(Method::POST)
        } else if same_text(token, "PUT") {
            Some(Method::PUT)
        } else if same_text(token, "PATCH") {
            Some(Method::PATCH)
        } else if same_text(token, "OPTION") {
            Some(Method::OPTION)
        } else if same_text(token, "DELETE") {
            Some(Method::DELETE)
        } else {
            None
        }
    }

    /// The method of a request line's token, reading an unrecognised token as `GET`.
    pub fn from_token(token: &String) -> (r: Method)
        ensures
            r == method_or_get(token@),
    {
        match Method::parse(token) {
            Some(m) => m,
            None => Method::GET,
        }
    }

    /// The token that names this method.
    pub fn name(&self) -> (r: String)
        ensures
            r@ == method_name(*self),
    {
        match self {
            Method::GET => "GET".to_owned(),
            Method::POST => "POST".to_owned(),
            Method::PUT => "PUT".to_owned(),
            Method::PATCH => "PATCH".to_owned(),
            Method::OPTION => "OPTION".to_owned(),
            Method::DELETE => "DELETE".to_owned(),
        }
    }
}

impl From<String> for Method {
    /// The method of a request line's token, reading an unrecognised token as `GET`.
    fn from(s: String) -> Method {
        Method::from_token(&s)
    }
}

impl vstd::std_specs::convert::FromSpecImpl<String> for Method {
    open spec fn obeys_from_spec() -> bool {
        true
    }

    open spec fn from_spec(s: String) -> Method {
        method_or_get(s@)
    }
}

} // verus!
