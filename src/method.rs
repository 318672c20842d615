//! The request methods this server recognizes.
use vstd::prelude::*;
use crate::text::{append, chars_eq, chars_of};

verus! {

/// Why a method token was refused.
#[derive(Debug, Clone, PartialEq, Eq)]
pub enum HttpMethodError {
    /// The token was empty.
    NoMethod,
    /// The token names no method of [`HttpMethod`]; it is kept as given.
    UnsupportedMethod(String),
}

/// An HTTP request method.
#[derive(Debug, Clone, Copy, PartialEq, Eq, Hash, Structural)]
pub enum HttpMethod {
    Options,
    Head,
    Get,
    Post,
}

/// The canonical wire token of a method.
pub open spec fn method_token(m: HttpMethod) -> Seq<char> {
    match m {
        HttpMethod::Options => seq!['O', 'P', 'T', 'I', 'O', 'N', 'S'],
        HttpMethod::Head => seq!['H', 'E', 'A', 'D'],
        HttpMethod::Get => seq!['G', 'E', 'T'],
        HttpMethod::Post => seq!['P', 'O', 'S', 'T'],
    }
}

/// The method whose token is exactly `s`, if any.
pub open spec fn parse_method(s: Seq<char>) -> Option<HttpMethod> {
    if s == method_token(HttpMethod::Options) {
        Some(HttpMethod::Options)
    } else if s == method_token(HttpMethod::Head) {
        Some(HttpMethod::Head)
    } else if s == method_token(HttpMethod::Get) {
        Some(HttpMethod::Get)
    } else if s == method_token(HttpMethod::Post) {
        Some(HttpMethod::Post)
    } else {
        None
    }
}

/// Whether `r` is what [`HttpMethod::get`] owes for the token `s`.
pub open spec fn method_result_matches(s: Seq<char>, r: Result<HttpMethod, HttpMethodError>) -> bool {
    match r {
        Ok(m) => s.len() > 0 && parse_method(s) == Some(m),
        Err(HttpMethodError::NoMethod) => s.len() == 0,
        Err(HttpMethodError::UnsupportedMethod(t)) => s.len() > 0 && parse_method(s) is None
            && t@ == s,
    }
}

impl HttpMethod {
    /// The canonical token, as a static string.
    pub fn as_str(&self) -> (r: &'static str)
        ensures
            r@ == method_token(*self),
    {
        match self {
            HttpMethod::Options => {
                proof {
                    reveal_strlit("OPTIONS");
                }
                "OPTIONS"
            },
            HttpMethod::Head => {
                proof {
                    reveal_strlit("HEAD");
                }
                "HEAD"
            },
            HttpMethod::Get => {
                proof {
                    reveal_strlit("GET");
                }
                "GET"
            },
            HttpMethod::Post => {
                proof {
                    reveal_strlit("POST");
                }
                "POST"
            },
        }
    }

    /// The canonical token, as an owned string.
    pub fn to_string(&self) -> (r: String)
        ensures
            r@ == method_token(*self),
    {
        self.as_str().to_owned()
    }

    /// Parses a wire token; only the exact upper-case tokens are accepted.
    pub fn from_str(s: &str) -> (r: Option<Self>)
        ensures
            r == parse_method(s@),
    {
        let v = chars_of(s);
        let all: [HttpMethod; 4] = [HttpMethod::Options, HttpMethod::Head, HttpMethod::Get, HttpMethod::Post];
        let mut i: usize = 0;
        while i < 4
            invariant
                v@ == s@,
                0 <= i <= 4,
                all@ == seq![HttpMethod::Options, HttpMethod::Head, HttpMethod::Get, HttpMethod::Post],
                forall|j: int| 0 <= j < i ==> v@ != method_token(#[trigger] all@[j]),
            decreases 4 - i,
        {
            let m = all[i];
            let t = chars_of(m.as_str());
            if chars_eq(&v, &t) {
                return Some(m);
            }
            i += 1;
        }
        assert(v@ != method_token(all@[0]));
        assert(v@ != method_token(all@[1]));
        assert(v@ != method_token(all@[2]));
        assert(v@ != method_token(all@[3]));
        None
    }

    /// Whether `s` is the token of a method.
    pub fn is_valid(s: &str) -> (r: bool)
        ensures
            r == (parse_method(s@) is Some),
    {
        HttpMethod::from_str(s).is_some()
    }

    /// Parses a wire token, telling an empty token from an unknown one.
    pub fn get(s: &str) -> (r: Result<Self, HttpMethodError>)
        ensures
            method_result_matches(s@, r),
    {
        if s.is_empty() {
            return Err(HttpMethodError::NoMethod);
        }
        match HttpMethod::from_str(s) {
            Some(m) => Ok(m),
            None => Err(HttpMethodError::UnsupportedMethod(s.to_owned())),
        }
    }
}

impl HttpMethodError {
    /// The description of the error.
    pub open spec fn text(&self) -> Seq<char> {
        match self {
            HttpMethodError::NoMethod => "No HTTP method was provided"@,
            HttpMethodError::UnsupportedMethod(t) => "Unsupported HTTP method: "@ + t@,
        }
    }

    /// A description of the error, for a diagnostic body.
    pub fn to_string(&self) -> (r: String)
        ensures
            r@ == self.text(),
    {
        match self {
            HttpMethodError::NoMethod => "No HTTP method was provided".to_owned(),
            HttpMethodError::UnsupportedMethod(t) => {
                let mut r = "Unsupported HTTP method: ".to_owned();
                append(&mut r, t.as_str());
                r
            },
        }
    }
}

/// Parsing a method token and rendering the result gives the token back, and
/// every method's rendering parses to that method.
pub proof fn lemma_method_round_trip(s: Seq<char>, m: HttpMethod)
    ensures
        parse_method(s) == Some(m) ==> method_token(m) == s,
        parse_method(method_token(m)) == Some(m),
{
    assert(method_token(HttpMethod::Options) != method_token(HttpMethod::Head));
    assert(method_token(HttpMethod::Options) != method_token(HttpMethod::Get));
    assert(method_token(HttpMethod::Options) != method_token(HttpMethod::Post));
    assert(method_token(HttpMethod::Head) != method_token(HttpMethod::Get));
    assert(method_token(HttpMethod::Head)[0] != method_token(HttpMethod::Post)[0]);
    assert(method_token(HttpMethod::Get) != method_token(HttpMethod::Post));
}

} // verus!
