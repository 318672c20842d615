//! The protocol version tokens this server recognizes. The version is kept
//! for display only; the decoder reads every request with the same grammar.
use vstd::prelude::*;
use crate::text::{append, chars_eq, chars_of};

verus! {

/// Why a version token was refused.
#[derive(Debug, Clone, PartialEq, Eq)]
pub enum HttpVersionError {
    /// The token was empty.
    NoVersion,
    /// The token names no version of [`HttpVersion`]; it is kept as given.
    UnsupportedVersion(String),
}

/// A recognized HTTP version.
#[derive(Debug, Clone, Copy, PartialEq, Eq, Hash, Structural)]
pub enum HttpVersion {
    Http09,
    Http10,
    Http11,
    Http2,
    Http3,
}

/// The token that parses to each version.
pub open spec fn version_token(v: HttpVersion) -> Seq<char> {
    match v {
        HttpVersion::Http09 => seq!['H', 'T', 'T', 'P', '/', '0', '.', '9'],
        HttpVersion::Http10 => seq!['H', 'T', 'T', 'P', '/', '1', '.', '0'],
        HttpVersion::Http11 => seq!['H', 'T', 'T', 'P', '/', '1', '.', '1'],
        HttpVersion::Http2 => seq!['H', 'T', 'T', 'P', '/', '2'],
        HttpVersion::Http3 => seq!['H', 'T', 'T', 'P', '/', '3'],
    }
}

/// The version whose token is exactly `s`, if any.
pub open spec fn parse_version(s: Seq<char>) -> Option<HttpVersion> {
    if s == version_token(HttpVersion::Http09) {
        Some(HttpVersion::Http09)
    } else if s == version_token(HttpVersion::Http10) {
        Some(HttpVersion::Http10)
    } else if s == version_token(HttpVersion::Http11) {
        Some(HttpVersion::Http11)
    } else if s == version_token(HttpVersion::Http2) {
        Some(HttpVersion::Http2)
    } else if s == version_token(HttpVersion::Http3) {
        Some(HttpVersion::Http3)
    } else {
        None
    }
}

/// Whether `r` is what [`HttpVersion::get`] owes for the token `s`.
pub open spec fn version_result_matches(s: Seq<char>, r: Result<HttpVersion, HttpVersionError>) -> bool {
    match r {
        Ok(v) => s.len() > 0 && parse_version(s) == Some(v),
        Err(HttpVersionError::NoVersion) => s.len() == 0,
        Err(HttpVersionError::UnsupportedVersion(t)) => s.len() > 0 && parse_version(s) is None
            && t@ == s,
    }
}

impl HttpVersion {
    /// The token that parses to this version.
    pub fn token(&self) -> (r: &'static str)
        ensures
            r@ == version_token(*self),
    {
        match self {
            HttpVersion::Http09 => {
                proof {
                    reveal_strlit("HTTP/0.9");
                }
                "HTTP/0.9"
            },
            HttpVersion::Http10 => {
                proof {
                    reveal_strlit("HTTP/1.0");
                }
                "HTTP/1.0"
            },
            HttpVersion::Http11 => {
                proof {
                    reveal_strlit("HTTP/1.1");
                }
                "HTTP/1.1"
            },
            HttpVersion::Http2 => {
                proof {
                    reveal_strlit("HTTP/2");
                }
                "HTTP/2"
            },
            HttpVersion::Http3 => {
                proof {
                    reveal_strlit("HTTP/3");
                }
                "HTTP/3"
            },
        }
    }

    /// The canonical token of this version, as an owned string.
    pub fn to_string(&self) -> (r: String)
        ensures
            r@ == version_token(*self),
    {
        self.token().to_owned()
    }

    /// Parses a wire token; only the exact tokens are accepted.
    pub fn from_str(s: &str) -> (r: Option<Self>)
        ensures
            r == parse_version(s@),
    {
        let v = chars_of(s);
        let all: [HttpVersion; 5] = [
            HttpVersion::Http09,
            HttpVersion::Http10,
            HttpVersion::Http11,
            HttpVersion::Http2,
            HttpVersion::Http3,
        ];
        let mut i: usize = 0;
        while i < 5
            invariant
                v@ == s@,
                0 <= i <= 5,
                all@ == seq![
                    HttpVersion::Http09,
                    HttpVersion::Http10,
                    HttpVersion::Http11,
                    HttpVersion::Http2,
                    HttpVersion::Http3,
                ],
                forall|j: int| 0 <= j < i ==> v@ != version_token(#[trigger] all@[j]),
            decreases 5 - i,
        {
            let m = all[i];
            let t = chars_of(m.token());
            if chars_eq(&v, &t) {
                return Some(m);
            }
            i += 1;
        }
        assert(v@ != version_token(all@[0]));
        assert(v@ != version_token(all@[1]));
        assert(v@ != version_token(all@[2]));
        assert(v@ != version_token(all@[3]));
        assert(v@ != version_token(all@[4]));
        None
    }

    /// Whether `s` is the token of a version.
    pub fn is_valid(s: &str) -> (r: bool)
        ensures
            r == (parse_version(s@) is Some),
    {
        HttpVersion::from_str(s).is_some()
    }

    /// Parses a version token, telling an empty token from an unknown one.
    pub fn get(s: &str) -> (r: Result<Self, HttpVersionError>)
        ensures
            version_result_matches(s@, r),
    {
        if s.is_empty() {
            return Err(HttpVersionError::NoVersion);
        }
        match HttpVersion::from_str(s) {
            Some(v) => Ok(v),
            None => Err(HttpVersionError::UnsupportedVersion(s.to_owned())),
        }
    }
}

impl HttpVersionError {
    /// The description of the error.
    pub open spec fn text(&self) -> Seq<char> {
        match self {
            HttpVersionError::NoVersion => "No HTTP version was provided"@,
            HttpVersionError::UnsupportedVersion(t) => "Unsupported HTTP version: "@ + t@,
        }
    }

    /// A description of the error, for a diagnostic body.
    pub fn to_string(&self) -> (r: String)
        ensures
            r@ == self.text(),
    {
        match self {
            HttpVersionError::NoVersion => "No HTTP version was provided".to_owned(),
            HttpVersionError::UnsupportedVersion(t) => {
                let mut r = "Unsupported HTTP version: ".to_owned();
                append(&mut r, t.as_str());
                r
            },
        }
    }
}

/// Parsing a version token and rendering the result gives the token back,
/// and the rendering of every version parses to that version.
pub proof fn lemma_version_round_trip(s: Seq<char>, v: HttpVersion)
    ensures
        parse_version(s) == Some(v) ==> version_token(v) == s,
        parse_version(version_token(v)) == Some(v),
{
    let t = |x: HttpVersion| version_token(x);
    assert(t(HttpVersion::Http09)[7] != t(HttpVersion::Http10)[7]);
    assert(t(HttpVersion::Http09)[7] != t(HttpVersion::Http11)[7]);
    assert(t(HttpVersion::Http10)[7] != t(HttpVersion::Http11)[7]);
    assert(t(HttpVersion::Http09).len() != t(HttpVersion::Http2).len());
    assert(t(HttpVersion::Http09).len() != t(HttpVersion::Http3).len());
    assert(t(HttpVersion::Http10).len() != t(HttpVersion::Http2).len());
    assert(t(HttpVersion::Http10).len() != t(HttpVersion::Http3).len());
    assert(t(HttpVersion::Http11).len() != t(HttpVersion::Http2).len());
    assert(t(HttpVersion::Http11).len() != t(HttpVersion::Http3).len());
    assert(t(HttpVersion::Http2)[5] != t(HttpVersion::Http3)[5]);
}

} // verus!
