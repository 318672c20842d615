//! Request paths: a non-empty string that begins with `/`.
use vstd::prelude::*;
use crate::text::{append, chars_eq, chars_of};

verus! {

/// Why a path token was refused.
#[derive(Debug, Clone, PartialEq, Eq)]
pub enum HttpPathError {
    /// The token was empty.
    NoPath,
    /// The token does not begin with `/`; it is kept as given.
    UnsupportedPath(String),
}

/// A validated request path, kept exactly as received.
#[derive(Debug, Clone)]
pub struct HttpPath {
    path: String,
}

/// Whether `s` is a valid path: non-empty and starting with `/`.
pub open spec fn valid_path(s: Seq<char>) -> bool {
    s.len() > 0 && s[0] == '/'
}

/// Whether `r` is what [`HttpPath::get`] owes for the token `s`.
pub open spec fn path_result_matches(s: Seq<char>, r: Result<HttpPath, HttpPathError>) -> bool {
    match r {
        Ok(p) => valid_path(s) && p@ == s,
        Err(HttpPathError::NoPath) => s.len() == 0,
        Err(HttpPathError::UnsupportedPath(t)) => s.len() > 0 && !valid_path(s) && t@ == s,
    }
}

impl View for HttpPath {
    type V = Seq<char>;

    closed spec fn view(&self) -> Seq<char> {
        self.path@
    }
}

impl HttpPath {
    /// Whether the path is well formed.
    pub open spec fn wf(&self) -> bool {
        valid_path(self@)
    }

    /// Parses a path token; no normalization is applied.
    pub fn from_str(s: &str) -> (r: Option<Self>)
        ensures
            r is Some <==> valid_path(s@),
            r matches Some(p) ==> p@ == s@,
    {
        if HttpPath::is_valid(s) {
            Some(HttpPath { path: s.to_owned() })
        } else {
            None
        }
    }

    /// Whether `s` is a valid path.
    pub fn is_valid(s: &str) -> (r: bool)
        ensures
            r == valid_path(s@),
    {
        let v = chars_of(s);
        v.len() > 0 && v[0] == '/'
    }

    /// Parses a path token, telling an empty token from an invalid one.
    pub fn get(s: &str) -> (r: Result<Self, HttpPathError>)
        ensures
            path_result_matches(s@, r),
    {
        if s.is_empty() {
            return Err(HttpPathError::NoPath);
        }
        match HttpPath::from_str(s) {
            Some(p) => Ok(p),
            None => Err(HttpPathError::UnsupportedPath(s.to_owned())),
        }
    }

    /// The path as received.
    pub fn as_str(&self) -> (r: &str)
        ensures
            r@ == self@,
    {
        self.path.as_str()
    }

    /// The path as an owned string.
    pub fn to_string(&self) -> (r: String)
        ensures
            r@ == self@,
    {
        self.path.clone()
    }

    /// Whether two paths are the same string.
    pub fn same(&self, other: &HttpPath) -> (r: bool)
        ensures
            r == (self@ == other@),
    {
        let a = chars_of(self.path.as_str());
        let b = chars_of(other.path.as_str());
        chars_eq(&a, &b)
    }
}

impl HttpPathError {
    /// The description of the error.
    pub open spec fn text(&self) -> Seq<char> {
        match self {
            HttpPathError::NoPath => "No HTTP path was provided"@,
            HttpPathError::UnsupportedPath(t) => "Unsupported HTTP path: "@ + t@,
        }
    }

    /// A description of the error, for a diagnostic body.
    pub fn to_string(&self) -> (r: String)
        ensures
            r@ == self.text(),
    {
        match self {
            HttpPathError::NoPath => "No HTTP path was provided".to_owned(),
            HttpPathError::UnsupportedPath(t) => {
                let mut r = "Unsupported HTTP path: ".to_owned();
                append(&mut r, t.as_str());
                r
            },
        }
    }
}

/// A valid path token parses, and rendering the parsed path gives the token back.
pub proof fn lemma_path_round_trip(s: Seq<char>, p: HttpPath)
    requires
        valid_path(s),
        path_result_matches(s, Ok(p)),
    ensures
        p@ == s,
        p.wf(),
{
}

} // verus!
