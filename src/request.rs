//! The request decoder: from the bytes a client sent to a structured request.
use vstd::prelude::*;
use vstd::utf8::{decode_utf8, valid_utf8};
use crate::fields::{fields_map, fields_view, sorted_names, upsert, lookup};
use crate::method::{HttpMethod, HttpMethodError, method_result_matches, parse_method};
use crate::path::{HttpPath, HttpPathError, path_result_matches, valid_path};
use crate::text::{append, chars_of, is_first, slice_of, split_once, split_once_chars, string_of, trim, trim_chars};
use crate::version::{HttpVersion, HttpVersionError, parse_version, version_result_matches};

verus! {

#[verifier::external_type_specification]
#[verifier::external_body]
pub struct ExJsonValue(serde_json::Value);

/// Whether serde_json accepts `s` as one JSON value.
pub uninterp spec fn json_accepts(s: Seq<char>) -> bool;

/// The text that lossy UTF-8 decoding makes of `b`.
pub uninterp spec fn lossy_text(b: Seq<u8>) -> Seq<char>;

/// Relies on `std::str::from_utf8`: the text of `b` exactly when `b` is valid UTF-8.
#[verifier::external_body]
fn utf8_text(b: &[u8]) -> (r: Option<String>)
    ensures
        r is Some == valid_utf8(b@),
        r matches Some(s) ==> s@ == decode_utf8(b@),
{
    std::str::from_utf8(b).ok().map(|s| s.to_owned())
}

/// Relies on `String::from_utf8_lossy`: a function of the bytes alone, which
/// is the plain decoding where the bytes are valid UTF-8.
#[verifier::external_body]
fn utf8_lossy(b: &[u8]) -> (r: String)
    ensures
        r@ == lossy_text(b@),
        valid_utf8(b@) ==> r@ == decode_utf8(b@),
{
    String::from_utf8_lossy(b).into_owned()
}

/// Relies on `serde_json::from_str::<Value>`: a value exactly when the text is
/// accepted; otherwise the error's description.
#[verifier::external_body]
fn parse_json(s: &str) -> (r: Result<serde_json::Value, String>)
    ensures
        r is Ok == json_accepts(s@),
{
    serde_json::from_str::<serde_json::Value>(s).map_err(|e| e.to_string())
}

/// Why the bytes read so far do not make a request.
#[derive(Debug)]
pub enum RequestError {
    /// Reading the connection failed; the reader's description.
    Io(String),
    /// The bytes end before the request does.
    Incomplete,
    /// A request or header line is not valid UTF-8.
    NotText,
    HttpMethodError(HttpMethodError),
    HttpPathError(HttpPathError),
    HttpVersionError(HttpVersionError),
    /// The body is not one JSON value; serde_json's description.
    Body(String),
}

/// A decoded request.
#[derive(Debug)]
pub struct Request {
    pub method: HttpMethod,
    pub path: HttpPath,
    pub http_version: HttpVersion,
    /// Header names and values, trimmed, sorted by name.
    pub headers: Vec<(String, String)>,
    /// Query parameters of a GET request, sorted by name.
    pub params: Vec<(String, String)>,
    /// The body as JSON, where a body was sent.
    pub body: Option<serde_json::Value>,
}

/// `i` is the first line feed at or after `from`.
pub open spec fn is_first_lf(d: Seq<u8>, from: int, i: int) -> bool {
    from <= i < d.len() && d[i] == 10 && forall|j: int| from <= j < i ==> d[j] != 10
}

/// The first line feed at or after `from`.
pub open spec fn next_lf(d: Seq<u8>, from: int) -> Option<int> {
    if exists|i: int| is_first_lf(d, from, i) {
        Some(choose|i: int| is_first_lf(d, from, i))
    } else {
        None
    }
}

/// The value of a string of decimal digits.
pub open spec fn digits_value(s: Seq<char>) -> int
    decreases s.len(),
{
    if s.len() == 0 {
        0
    } else {
        digits_value(s.drop_last()) * 10 + (s.last() as int - '0' as int)
    }
}

pub open spec fn all_digits(s: Seq<char>) -> bool {
    forall|i: int| 0 <= i < s.len() ==> '0' <= #[trigger] s[i] && s[i] <= '9'
}

/// `s` without one leading `+`.
pub open spec fn unsigned_part(s: Seq<char>) -> Seq<char> {
    if s.len() > 0 && s[0] == '+' {
        s.drop_first()
    } else {
        s
    }
}

/// An unsigned integer as `usize::from_str` reads it: an optional `+`, then
/// one or more decimal digits, with a value that fits.
pub open spec fn parse_usize(s: Seq<char>) -> Option<int> {
    let t = unsigned_part(s);
    if t.len() > 0 && all_digits(t) && digits_value(t) <= usize::MAX {
        Some(digits_value(t))
    } else {
        None
    }
}

pub open spec fn content_length_name() -> Seq<char> {
    seq!['C', 'o', 'n', 't', 'e', 'n', 't', '-', 'L', 'e', 'n', 'g', 't', 'h']
}

/// The number of body bytes that the headers announce: the `Content-Length`
/// value where it reads as an integer, else none.
pub open spec fn content_length(h: Map<Seq<char>, Seq<char>>) -> int {
    if h.contains_key(content_length_name()) {
        match parse_usize(h[content_length_name()]) {
            Some(n) => n,
            None => 0,
        }
    } else {
        0
    }
}

/// What the header section holds, or why it cannot be read.
pub enum HeaderScan {
    NeedMore,
    NotText,
    /// The headers, and the position just past the blank line.
    Done(Map<Seq<char>, Seq<char>>, int),
}

/// The header lines from `pos` on, added to `acc`; a later line with the same
/// name wins, a line without `:` is skipped.
pub open spec fn scan_headers(d: Seq<u8>, pos: int, acc: Map<Seq<char>, Seq<char>>) -> HeaderScan
    decreases d.len() - pos,
{
    match next_lf(d, pos) {
        None => HeaderScan::NeedMore,
        Some(e) => if !(0 <= pos <= e < d.len()) {
            HeaderScan::NeedMore
        } else if !valid_utf8(d.subrange(pos, e)) {
            HeaderScan::NotText
        } else {
            let line = decode_utf8(d.subrange(pos, e));
            if trim(line).len() == 0 {
                HeaderScan::Done(acc, e + 1)
            } else {
                let (name, value) = split_once(line, ':');
                let acc2 = match value {
                    Some(v) => acc.insert(trim(name), trim(v)),
                    None => acc,
                };
                scan_headers(d, e + 1, acc2)
            }
        },
    }
}

/// The parameters of a query string from `q` on, added to `acc`: pairs are
/// split at `&`, each at its first `=`; a pair needs a non-empty name and a
/// non-empty value, and a later pair with the same name wins.
pub open spec fn query_params(q: Seq<char>, acc: Map<Seq<char>, Seq<char>>) -> Map<Seq<char>, Seq<char>>
    decreases q.len(),
{
    let (pair, rest) = split_once(q, '&');
    let (k, v) = split_once(pair, '=');
    let acc2 = match v {
        Some(v) => if k.len() > 0 && v.len() > 0 {
            acc.insert(k, v)
        } else {
            acc
        },
        None => acc,
    };
    match rest {
        Some(r) => if r.len() < q.len() {
            query_params(r, acc2)
        } else {
            acc2
        },
        None => acc2,
    }
}

/// The request line of `d`, trimmed, where `d` holds a whole line of text.
pub open spec fn request_line(d: Seq<u8>) -> Seq<char> {
    trim(decode_utf8(d.subrange(0, next_lf(d, 0)->0)))
}

/// Whether `r` is what [`Request::decode`] owes for the bytes `d`.
pub open spec fn decode_matches(d: Seq<u8>, r: Result<(Request, usize), RequestError>) -> bool {
    match next_lf(d, 0) {
        None => r matches Err(RequestError::Incomplete),
        Some(e0) => if !valid_utf8(d.subrange(0, e0)) {
            r matches Err(RequestError::NotText)
        } else {
            let line = request_line(d);
            let (m, rest1) = split_once(line, ' ');
            if m.len() == 0 || parse_method(m) is None {
                r matches Err(RequestError::HttpMethodError(e)) && method_result_matches(m, Err(e))
            } else if rest1 is None {
                r matches Err(RequestError::HttpPathError(HttpPathError::NoPath))
            } else {
                let (target, rest2) = split_once(rest1->0, ' ');
                let (p, query) = split_once(target, '?');
                if !valid_path(p) {
                    r matches Err(RequestError::HttpPathError(e)) && path_result_matches(p, Err(e))
                } else if rest2 is None {
                    r matches Err(RequestError::HttpVersionError(HttpVersionError::NoVersion))
                } else if rest2->0.len() == 0 || parse_version(rest2->0) is None {
                    r matches Err(RequestError::HttpVersionError(e))
                        && version_result_matches(rest2->0, Err(e))
                } else {
                    match scan_headers(d, e0 + 1, Map::empty()) {
                        HeaderScan::NeedMore => r matches Err(RequestError::Incomplete),
                        HeaderScan::NotText => r matches Err(RequestError::NotText),
                        HeaderScan::Done(h, end) => {
                            let n = content_length(h);
                            if end + n > d.len() {
                                r matches Err(RequestError::Incomplete)
                            } else if n > 0 && !json_accepts(lossy_text(d.subrange(end, end + n))) {
                                r matches Err(RequestError::Body(_))
                            } else {
                                r matches Ok((req, used)) && {
                                    &&& used == end + n
                                    &&& Some(req.method) == parse_method(m)
                                    &&& req.path@ == p
                                    &&& Some(req.http_version) == parse_version(rest2->0)
                                    &&& sorted_names(fields_view(req.headers@))
                                    &&& fields_map(fields_view(req.headers@)) == h
                                    &&& sorted_names(fields_view(req.params@))
                                    &&& fields_map(fields_view(req.params@)) == if req.method
                                        == HttpMethod::Get && query is Some {
                                        query_params(query->0, Map::empty())
                                    } else {
                                        Map::empty()
                                    }
                                    &&& req.body is Some == (n > 0)
                                }
                            }
                        },
                    }
                }
            }
        },
    }
}

/// The first line feed at or after `from`.
fn find_lf(d: &[u8], from: usize) -> (r: Option<usize>)
    ensures
        r matches Some(i) ==> next_lf(d@, from as int) == Some(i as int) && is_first_lf(
            d@,
            from as int,
            i as int,
        ) && i < d@.len(),
        r is None ==> next_lf(d@, from as int) is None,
{
    let mut i: usize = from;
    while i < d.len()
        invariant
            from <= i,
            forall|j: int| from <= j < i && j < d@.len() ==> d@[j] != 10,
        decreases d.len() - i,
    {
        if d[i] == 10 {
            proof {
                assert(is_first_lf(d@, from as int, i as int));
                let k = choose|k: int| is_first_lf(d@, from as int, k);
                if k < i {
                    assert(d@[k] != 10);
                } else if k > i {
                    assert(d@[i as int] != 10);
                }
            }
            return Some(i);
        }
        i += 1;
    }
    None
}

/// A prefix of a digit string has no greater value.
proof fn lemma_digits_prefix(t: Seq<char>, i: int)
    requires
        all_digits(t),
        0 <= i <= t.len(),
    ensures
        digits_value(t.subrange(0, i)) <= digits_value(t),
        0 <= digits_value(t.subrange(0, i)),
    decreases t.len(),
{
    if t.len() > 0 {
        let u = t.drop_last();
        assert(all_digits(u)) by {
            assert forall|j: int| 0 <= j < u.len() implies '0' <= #[trigger] u[j] && u[j] <= '9' by {
                assert(u[j] == t[j]);
            }
        }
        assert(t.last() == t[t.len() - 1]);
        if i < t.len() {
            assert(t.subrange(0, i) == u.subrange(0, i));
            lemma_digits_prefix(u, i);
            lemma_digits_prefix(u, u.len() as int);
            assert(u.subrange(0, u.len() as int) == u);
        } else {
            assert(t.subrange(0, i) == t);
            lemma_digits_prefix(u, u.len() as int);
            assert(u.subrange(0, u.len() as int) == u);
        }
    } else {
        assert(t.subrange(0, i) == t);
    }
}

/// Reads an unsigned integer as `usize::from_str` does.
fn parse_usize_chars(s: &[char]) -> (r: Option<usize>)
    ensures
        r matches Some(n) ==> parse_usize(s@) == Some(n as int),
        r is None ==> parse_usize(s@) is None,
{
    let start: usize = if s.len() > 0 && s[0] == '+' { 1 } else { 0 };
    let ghost t = unsigned_part(s@);
    assert(t == s@.subrange(start as int, s@.len() as int));
    if start == s.len() {
        return None;
    }
    let mut val: usize = 0;
    let mut i: usize = start;
    assert(t.subrange(0, 0) =~= Seq::<char>::empty());
    while i < s.len()
        invariant
            start <= i <= s@.len(),
            t == s@.subrange(start as int, s@.len() as int),
            t == unsigned_part(s@),
            forall|j: int| 0 <= j < i - start ==> '0' <= #[trigger] t[j] && t[j] <= '9',
            val as int == digits_value(t.subrange(0, i - start)),
        decreases s.len() - i,
    {
        let c = s[i];
        if c < '0' || c > '9' {
            assert(!all_digits(t)) by {
                assert(t[i - start] == c);
            }
            assert(parse_usize(s@) is None);
            return None;
        }
        let ghost k = (i - start) as int;
        assert(t.subrange(0, k + 1).drop_last() == t.subrange(0, k));
        let d: usize = (c as u32 - '0' as u32) as usize;
        assert(t.subrange(0, k + 1).last() == c);
        match val.checked_mul(10) {
            Some(v10) => match v10.checked_add(d) {
                Some(v) => {
                    val = v;
                },
                None => {
                    proof {
                        assert(t.subrange(0, k + 1).last() == c);
                        assert(d as int == c as int - '0' as int);
                        assert(digits_value(t.subrange(0, k + 1)) > usize::MAX);
                        assert(forall|j: int| 0 <= j < k + 1 ==> '0' <= #[trigger] t[j] && t[j] <= '9');
                        if all_digits(t) {
                            lemma_digits_prefix(t, k + 1);
                        }
                    }
                    return None;
                },
            },
            None => {
                proof {
                    if all_digits(t) {
                        lemma_digits_prefix(t, k + 1);
                    }
                }
                return None;
            },
        }
        i += 1;
    }
    assert(t.subrange(0, t.len() as int) == t);
    Some(val)
}

/// The query parameters of `q`.
fn params_of(q: &[char]) -> (r: Vec<(String, String)>)
    ensures
        sorted_names(fields_view(r@)),
        fields_map(fields_view(r@)) == query_params(q@, Map::empty()),
{
    let mut r: Vec<(String, String)> = Vec::new();
    let mut rest: Vec<char> = slice_of(q, 0, q.len());
    assert(q@.subrange(0, q@.len() as int) == q@);
    assert(fields_map(fields_view(r@)) =~= Map::empty());
    loop
        invariant
            sorted_names(fields_view(r@)),
            query_params(rest@, fields_map(fields_view(r@))) == query_params(q@, Map::empty()),
        decreases rest@.len(),
    {
        let (pair, next) = split_once_chars(&rest, '&');
        let (k, v) = split_once_chars(&pair, '=');
        if let Some(v) = v {
            if k.len() > 0 && v.len() > 0 {
                upsert(&mut r, string_of(&k), string_of(&v));
            }
        }
        match next {
            Some(n) => {
                if n.len() >= rest.len() {
                    return r;
                }
                rest = n;
            },
            None => {
                return r;
            },
        }
    }
}

/// The bytes of `d` from `a` up to `b`.
fn bytes_between(d: &[u8], a: usize, b: usize) -> (r: Vec<u8>)
    requires
        a <= b <= d@.len(),
    ensures
        r@ == d@.subrange(a as int, b as int),
{
    let mut r: Vec<u8> = Vec::new();
    let mut i: usize = a;
    while i < b
        invariant
            a <= i <= b <= d@.len(),
            r@ == d@.subrange(a as int, i as int),
        decreases b - i,
    {
        r.push(d[i]);
        assert(d@.subrange(a as int, i + 1) == d@.subrange(a as int, i as int).push(d@[i as int]));
        i += 1;
    }
    r
}

/// Reads the header lines that start at `start`.
fn read_headers(d: &[u8], start: usize) -> (r: Result<(Vec<(String, String)>, usize), RequestError>)
    requires
        start <= d@.len(),
    ensures
        match scan_headers(d@, start as int, Map::empty()) {
            HeaderScan::NeedMore => r matches Err(RequestError::Incomplete),
            HeaderScan::NotText => r matches Err(RequestError::NotText),
            HeaderScan::Done(h, end) => r matches Ok((t, e)) && e == end && sorted_names(
                fields_view(t@),
            ) && fields_map(fields_view(t@)) == h,
        },
        r matches Ok((_, e)) ==> e <= d@.len(),
{
    let dlen = d.len();
    let mut headers: Vec<(String, String)> = Vec::new();
    let mut pos: usize = start;
    assert(fields_map(fields_view(headers@)) =~= Map::empty());
    loop
        invariant
            pos <= d@.len(),
            dlen == d@.len(),
            sorted_names(fields_view(headers@)),
            scan_headers(d@, pos as int, fields_map(fields_view(headers@))) == scan_headers(
                d@,
                start as int,
                Map::empty(),
            ),
        decreases d@.len() - pos,
    {
        let e = match find_lf(d, pos) {
            None => {
                return Err(RequestError::Incomplete);
            },
            Some(e) => e,
        };
        assert(is_first_lf(d@, pos as int, e as int)) by {
            let k = choose|k: int| is_first_lf(d@, pos as int, k);
        }
        let raw = bytes_between(d, pos, e);
        let line = match utf8_text(&raw) {
            None => {
                return Err(RequestError::NotText);
            },
            Some(line) => line,
        };
        let lc = chars_of(line.as_str());
        let tl = trim_chars(&lc);
        if tl.len() == 0 {
            return Ok((headers, e + 1));
        }
        let (name, value) = split_once_chars(&lc, ':');
        if let Some(v) = value {
            let n = trim_chars(&name);
            let tv = trim_chars(&v);
            upsert(&mut headers, string_of(&n), string_of(&tv));
        }
        pos = e + 1;
    }
}

/// The first line of `d`: none where `d` holds no line feed.
fn first_line(d: &[u8]) -> (r: Result<(Vec<char>, usize), RequestError>)
    ensures
        match next_lf(d@, 0) {
            None => r matches Err(RequestError::Incomplete),
            Some(e0) => if !valid_utf8(d@.subrange(0, e0)) {
                r matches Err(RequestError::NotText)
            } else {
                r matches Ok((line, e)) && e == e0 && line@ == request_line(d@)
            },
        },
        r matches Ok((_, e)) ==> e < d@.len(),
{
    let e0 = match find_lf(d, 0) {
        None => {
            return Err(RequestError::Incomplete);
        },
        Some(e) => e,
    };
    assert(is_first_lf(d@, 0, e0 as int)) by {
        let k = choose|k: int| is_first_lf(d@, 0, k);
    }
    let raw = bytes_between(d, 0, e0);
    match utf8_text(&raw) {
        None => Err(RequestError::NotText),
        Some(text) => {
            let lc = chars_of(text.as_str());
            Ok((trim_chars(&lc), e0))
        },
    }
}

impl Request {
    /// Decodes one request from the start of `data`, and says how many bytes
    /// it took: the request line, the headers up to the blank line, and
    /// exactly as many body bytes as `Content-Length` announces. Where the
    /// bytes end before the request does, the error is
    /// [`RequestError::Incomplete`], and more bytes may complete it.
    pub fn decode(data: &[u8]) -> (r: Result<(Request, usize), RequestError>)
        ensures
            decode_matches(data@, r),
            r matches Ok((_, used)) ==> used <= data@.len(),
    {
        let dlen = data.len();
        let (line, e0) = match first_line(data) {
            Err(e) => {
                return Err(e);
            },
            Ok(x) => x,
        };
        let (m, rest1) = split_once_chars(&line, ' ');
        let method = match HttpMethod::get(string_of(&m).as_str()) {
            Err(e) => {
                return Err(RequestError::HttpMethodError(e));
            },
            Ok(method) => method,
        };
        let rest1 = match rest1 {
            None => {
                return Err(RequestError::HttpPathError(HttpPathError::NoPath));
            },
            Some(r) => r,
        };
        let (target, rest2) = split_once_chars(&rest1, ' ');
        let (p, query) = split_once_chars(&target, '?');
        let path = match HttpPath::get(string_of(&p).as_str()) {
            Err(e) => {
                return Err(RequestError::HttpPathError(e));
            },
            Ok(path) => path,
        };
        let rest2 = match rest2 {
            None => {
                return Err(RequestError::HttpVersionError(HttpVersionError::NoVersion));
            },
            Some(r) => r,
        };
        let http_version = match HttpVersion::get(string_of(&rest2).as_str()) {
            Err(e) => {
                return Err(RequestError::HttpVersionError(e));
            },
            Ok(v) => v,
        };
        let params = match query {
            Some(q) => if method == HttpMethod::Get {
                params_of(&q)
            } else {
                Vec::new()
            },
            None => Vec::new(),
        };
        proof {
            assert(fields_map(fields_view(Seq::<(String, String)>::empty())) =~= Map::empty());
        }
        let (headers, end) = match read_headers(data, e0 + 1) {
            Err(e) => {
                return Err(e);
            },
            Ok(x) => x,
        };
        let name = "Content-Length";
        proof {
            reveal_strlit("Content-Length");
        }
        let n: usize = match lookup(&headers, name) {
            Some(v) => match parse_usize_chars(&chars_of(v.as_str())) {
                Some(n) => n,
                None => 0,
            },
            None => 0,
        };
        assert(name@ == content_length_name());
        assert(n as int == content_length(fields_map(fields_view(headers@))));
        if n > data.len() - end {
            return Err(RequestError::Incomplete);
        }
        let body = if n > 0 {
            let raw = bytes_between(data, end, end + n);
            let text = utf8_lossy(&raw);
            match parse_json(text.as_str()) {
                Ok(v) => Some(v),
                Err(msg) => {
                    return Err(RequestError::Body(msg));
                },
            }
        } else {
            None
        };
        let req = Request { method, path, http_version, headers, params, body };
        Ok((req, end + n))
    }
}

impl RequestError {
    /// The description of the error.
    pub open spec fn text(&self) -> Seq<char> {
        match self {
            RequestError::Io(m) => "I/O Error: "@ + m@,
            RequestError::Incomplete => "I/O Error: failed to fill whole buffer"@,
            RequestError::NotText => "I/O Error: stream did not contain valid UTF-8"@,
            RequestError::HttpMethodError(e) => e.text(),
            RequestError::HttpPathError(e) => e.text(),
            RequestError::HttpVersionError(e) => e.text(),
            RequestError::Body(m) => "Body was not well-formatted (JSON): "@ + m@,
        }
    }

    /// A description of the error, sent as the body of a 400 response.
    pub fn to_string(&self) -> (r: String)
        ensures
            r@ == self.text(),
    {
        match self {
            RequestError::Io(m) => {
                let mut r = "I/O Error: ".to_owned();
                append(&mut r, m.as_str());
                r
            },
            RequestError::Incomplete => "I/O Error: failed to fill whole buffer".to_owned(),
            RequestError::NotText => "I/O Error: stream did not contain valid UTF-8".to_owned(),
            RequestError::HttpMethodError(e) => e.to_string(),
            RequestError::HttpPathError(e) => e.to_string(),
            RequestError::HttpVersionError(e) => e.to_string(),
            RequestError::Body(m) => {
                let mut r = "Body was not well-formatted (JSON): ".to_owned();
                append(&mut r, m.as_str());
                r
            },
        }
    }
}

/// A line feed found in `d` is the one found in any extension of `d`.
proof fn lemma_next_lf_extend(d: Seq<u8>, x: Seq<u8>, from: int)
    requires
        0 <= from,
        next_lf(d, from) is Some,
    ensures
        next_lf(d + x, from) == next_lf(d, from),
{
    let e = next_lf(d, from)->0;
    let i = choose|i: int| is_first_lf(d, from, i);
    assert forall|j: int| from <= j < i implies (d + x)[j] != 10 by {
        assert((d + x)[j] == d[j]);
    }
    assert((d + x)[i] == d[i]);
    assert(is_first_lf(d + x, from, i));
    let k = choose|k: int| is_first_lf(d + x, from, k);
    if k < i {
        assert((d + x)[k] == d[k]);
    } else if k > i {
        assert((d + x)[i] == d[i]);
    }
}

/// A header section complete in `d` reads the same in any extension of `d`.
proof fn lemma_scan_extend(d: Seq<u8>, x: Seq<u8>, pos: int, acc: Map<Seq<char>, Seq<char>>)
    requires
        0 <= pos,
        scan_headers(d, pos, acc) is Done,
    ensures
        scan_headers(d + x, pos, acc) == scan_headers(d, pos, acc),
        scan_headers(d, pos, acc) matches HeaderScan::Done(_, end) ==> pos < end <= d.len(),
    decreases d.len() - pos,
{
    lemma_next_lf_extend(d, x, pos);
    let e = next_lf(d, pos)->0;
    assert((d + x).subrange(pos, e) == d.subrange(pos, e));
    let line = decode_utf8(d.subrange(pos, e));
    if trim(line).len() != 0 {
        let (name, value) = split_once(line, ':');
        let acc2 = match value {
            Some(v) => acc.insert(trim(name), trim(v)),
            None => acc,
        };
        lemma_scan_extend(d, x, e + 1, acc2);
    }
}

/// Decoding takes the request line, the headers and the announced body and
/// no more: bytes after a whole request change neither the request nor how
/// many bytes it took.
pub proof fn lemma_decode_ignores_what_follows(
    d: Seq<u8>,
    x: Seq<u8>,
    r1: Result<(Request, usize), RequestError>,
    r2: Result<(Request, usize), RequestError>,
)
    requires
        decode_matches(d, r1),
        decode_matches(d + x, r2),
        r1 is Ok,
    ensures
        r1 matches Ok((q1, u1)) ==> r2 matches Ok((q2, u2)) && {
            &&& u2 == u1
            &&& q2.method == q1.method
            &&& q2.path@ == q1.path@
            &&& q2.http_version == q1.http_version
            &&& fields_map(fields_view(q2.headers@)) == fields_map(fields_view(q1.headers@))
            &&& fields_map(fields_view(q2.params@)) == fields_map(fields_view(q1.params@))
            &&& q2.body is Some == q1.body is Some
        },
{
    let dx = d + x;
    lemma_next_lf_extend(d, x, 0);
    let e0 = next_lf(d, 0)->0;
    assert(dx.subrange(0, e0) == d.subrange(0, e0));
    assert(request_line(dx) == request_line(d));
    lemma_scan_extend(d, x, e0 + 1, Map::empty());
    match scan_headers(d, e0 + 1, Map::empty()) {
        HeaderScan::Done(h, end) => {
            let n = content_length(h);
            if h.contains_key(content_length_name()) {
                let v = h[content_length_name()];
                if parse_usize(v) is Some {
                    lemma_digits_prefix(unsigned_part(v), unsigned_part(v).len() as int);
                    assert(unsigned_part(v).subrange(0, unsigned_part(v).len() as int) == unsigned_part(v));
                }
            }
            assert(n >= 0);
            if end + n <= d.len() {
                assert(dx.subrange(end, end + n) =~= d.subrange(end, end + n));
            }
        },
        _ => {},
    }
}

} // verus!
