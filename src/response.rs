//! The response builder: handlers fill it in, and it renders itself as the
//! bytes of an HTTP/1.1 response.
use vstd::prelude::*;
use vstd::string::StringSliceAdditionalSpecFns;
use vstd::utf8::encode_utf8;
use crate::fields::{fields_map, fields_view, lex_lt, sorted_names, upsert};
use crate::text::{append, string_of};

verus! {

/// The reason phrase that the `http` crate gives a status code, if any.
pub uninterp spec fn canonical_reason(code: u16) -> Option<Seq<char>>;

/// The lower-case hex MD5 digest of `b`.
pub uninterp spec fn md5_hex(b: Seq<u8>) -> Seq<char>;

/// The reason phrase of a status code: those of the codes this library
/// sends itself written out, as the `http` crate's table gives them.
pub open spec fn reason_phrase(code: u16) -> Option<Seq<char>> {
    if code == 200 {
        Some("OK"@)
    } else if code == 204 {
        Some("No Content"@)
    } else if code == 404 {
        Some("Not Found"@)
    } else if code == 500 {
        Some("Internal Server Error"@)
    } else {
        canonical_reason(code)
    }
}

/// Whether `c` is a lower-case hexadecimal digit.
pub open spec fn is_lower_hex(c: char) -> bool {
    ('0' <= c && c <= '9') || ('a' <= c && c <= 'f')
}

/// Relies on `http::StatusCode::from_u16` and `canonical_reason`: codes outside
/// 100 to 999 are refused, and a known code has its standard phrase (200 "OK",
/// 204 "No Content", 404 "Not Found", 500 "Internal Server Error").
#[verifier::external_body]
fn reason_of(code: u16) -> (r: Option<String>)
    ensures
        r is Some == (reason_phrase(code) is Some),
        r matches Some(s) ==> reason_phrase(code) == Some(s@),
        r is None ==> canonical_reason(code) is None,
        code < 100 || code > 999 ==> r is None,
{
    match http::StatusCode::from_u16(code) {
        Ok(c) => c.canonical_reason().map(|s| s.to_owned()),
        Err(_) => None,
    }
}

/// Relies on `md5::compute` rendered with `{:x}`: two lower-case hex digits
/// for each of the sixteen digest bytes.
#[verifier::external_body]
fn md5_hex_of(b: &[u8]) -> (r: String)
    ensures
        r@ == md5_hex(b@),
        r@.len() == 32,
        forall|i: int| 0 <= i < r@.len() ==> is_lower_hex(#[trigger] r@[i]),
{
    format!("{:x}", md5::compute(b))
}

/// Relies on `chrono::Utc::now` formatted as `%a, %d %b %Y %H:%M:%S GMT`: the
/// current time; nothing is promised of the text.
#[verifier::external_body]
fn http_date_now() -> (r: String)
{
    chrono::Utc::now().format("%a, %d %b %Y %H:%M:%S GMT").to_string()
}

/// The decimal digit for `d`.
pub open spec fn digit_char(d: int) -> char {
    seq!['0', '1', '2', '3', '4', '5', '6', '7', '8', '9'][d]
}

/// The decimal rendering of `n`, without leading zeros.
pub open spec fn decimal(n: nat) -> Seq<char>
    decreases n,
{
    if n < 10 {
        seq![digit_char(n as int)]
    } else {
        decimal(n / 10).push(digit_char((n % 10) as int))
    }
}

/// The decimal rendering of `n`.
pub fn decimal_chars(n: usize) -> (r: Vec<char>)
    ensures
        r@ == decimal(n as nat),
    decreases n,
{
    let digits: [char; 10] = ['0', '1', '2', '3', '4', '5', '6', '7', '8', '9'];
    assert(digits@ == seq!['0', '1', '2', '3', '4', '5', '6', '7', '8', '9']);
    if n < 10 {
        let mut r: Vec<char> = Vec::new();
        r.push(digits[n]);
        r
    } else {
        let mut r = decimal_chars(n / 10);
        r.push(digits[n % 10]);
        r
    }
}

/// The status line: the standard phrase for a known code, else 500.
pub open spec fn status_line(code: u16) -> Seq<char> {
    let head = "HTTP/1.1 "@;
    let reason = match reason_phrase(code) {
        Some(p) => decimal(code as nat) + " "@ + p,
        None => decimal(500) + " "@ + internal_error_phrase(),
    };
    head + reason + crlf()
}

pub open spec fn internal_error_phrase() -> Seq<char> {
    "Internal Server Error"@
}

pub open spec fn crlf() -> Seq<char> {
    "\r\n"@
}

/// One `Name: value` line for each entry, in the table's order.
pub open spec fn header_lines(s: Seq<(Seq<char>, Seq<char>)>) -> Seq<char>
    decreases s.len(),
{
    if s.len() == 0 {
        Seq::empty()
    } else {
        header_lines(s.drop_last()) + s.last().0 + ": "@ + s.last().1 + crlf()
    }
}

/// The head of a response: status line, headers, blank line.
pub open spec fn head_text(code: u16, s: Seq<(Seq<char>, Seq<char>)>) -> Seq<char> {
    status_line(code) + header_lines(s) + crlf()
}

/// `text` holds the line `name: value` followed by CR LF.
pub open spec fn has_header_line(text: Seq<char>, name: Seq<char>, value: Seq<char>) -> bool {
    let line = name + ": "@ + value + crlf();
    exists|a: int| 0 <= a && a + line.len() <= text.len() && #[trigger] text.subrange(a, a + line.len()) == line
}

/// Every header of a table is rendered as a line of its own.
pub proof fn lemma_header_line_rendered(s: Seq<(Seq<char>, Seq<char>)>, k: Seq<char>)
    requires
        sorted_names(s),
        fields_map(s).contains_key(k),
    ensures
        has_header_line(header_lines(s), k, fields_map(s)[k]),
    decreases s.len(),
{
    let t = s.drop_last();
    let last = s.last();
    let line = k + ": "@ + fields_map(s)[k] + crlf();
    let j = choose|j: int| 0 <= j < s.len() && s[j].0 == k;
    assert(header_lines(s) == header_lines(t) + last.0 + ": "@ + last.1 + crlf());
    crate::fields::lemma_lex_irreflexive(k);
    if last.0 == k {
        if j != s.len() - 1 {
            assert(lex_lt(s[j].0, s[s.len() - 1].0));
        }
        let a = header_lines(t).len() as int;
        assert(header_lines(s).subrange(a, a + line.len()) =~= line);
    } else {
        assert(j < s.len() - 1);
        assert(t[j].0 == k);
        assert(sorted_names(t)) by {
            assert forall|x: int, y: int| 0 <= x < y < t.len() implies lex_lt(#[trigger] t[x].0, #[trigger] t[y].0) by {
                assert(lex_lt(s[x].0, s[y].0));
            }
        }
        assert(fields_map(t).contains_key(k));
        let jt = choose|jj: int| 0 <= jj < t.len() && t[jj].0 == k;
        if jt != j {
            if jt < j {
                assert(lex_lt(s[jt].0, s[j].0));
            } else {
                assert(lex_lt(s[j].0, s[jt].0));
            }
        }
        assert(fields_map(t)[k] == fields_map(s)[k]);
        lemma_header_line_rendered(t, k);
        let a = choose|a: int| 0 <= a && a + line.len() <= header_lines(t).len()
            && #[trigger] header_lines(t).subrange(a, a + line.len()) == line;
        assert(header_lines(s).subrange(a, a + line.len()) =~= header_lines(t).subrange(a, a + line.len()));
    }
}

/// Every header appears as a line of the rendered head, and of anything the
/// head starts.
pub proof fn lemma_head_has_header(code: u16, s: Seq<(Seq<char>, Seq<char>)>, k: Seq<char>, rest: Seq<char>)
    requires
        sorted_names(s),
        fields_map(s).contains_key(k),
    ensures
        has_header_line(head_text(code, s), k, fields_map(s)[k]),
        has_header_line(head_text(code, s) + rest, k, fields_map(s)[k]),
{
    lemma_header_line_rendered(s, k);
    let line = k + ": "@ + fields_map(s)[k] + crlf();
    let a = choose|a: int| 0 <= a && a + line.len() <= header_lines(s).len()
        && #[trigger] header_lines(s).subrange(a, a + line.len()) == line;
    let b = status_line(code).len() + a;
    assert(head_text(code, s).subrange(b, b + line.len()) =~= line);
    assert((head_text(code, s) + rest).subrange(b, b + line.len()) =~= line);
}

/// The status lines of the codes the server itself chooses.
pub proof fn lemma_status_lines()
    ensures
        status_line(200) == "HTTP/1.1 200 OK\r\n"@,
        status_line(204) == "HTTP/1.1 204 No Content\r\n"@,
{
    reveal_strlit("HTTP/1.1 200 OK\r\n");
    reveal_strlit("HTTP/1.1 204 No Content\r\n");
    reveal_strlit("HTTP/1.1 ");
    reveal_strlit(" ");
    reveal_strlit("OK");
    reveal_strlit("No Content");
    reveal_strlit("\r\n");
    assert(decimal(2) == seq!['2']);
    assert(decimal(20) =~= seq!['2', '0']);
    assert(decimal(200) =~= seq!['2', '0', '0']);
    assert(decimal(204) =~= seq!['2', '0', '4']);
    assert(status_line(200) =~= "HTTP/1.1 200 OK\r\n"@);
    assert(status_line(204) =~= "HTTP/1.1 204 No Content\r\n"@);
}

/// The weak entity tag of a body: `W/"` + hex MD5 of its bytes + `"`.
pub open spec fn etag_of(body: Seq<u8>) -> Seq<char> {
    "W/\""@ + md5_hex(body) + "\""@
}

pub open spec fn content_type_name() -> Seq<char> {
    "Content-Type"@
}

pub open spec fn html_type() -> Seq<char> {
    "text/html; charset=utf-8"@
}

pub open spec fn json_type() -> Seq<char> {
    "application/json"@
}

pub open spec fn content_length_header() -> Seq<char> {
    "Content-Length"@
}

pub open spec fn etag_header() -> Seq<char> {
    "ETag"@
}

/// The headers of a fresh response dated `date`.
pub open spec fn default_headers(date: Seq<char>) -> Map<Seq<char>, Seq<char>> {
    map![
        "Connection"@ => "keep-alive"@,
        "Date"@ => date,
        "Keep-Alive"@ => "timeout=5"@,
        "Server"@ => "Saturn"@,
        "X-Powered-By"@ => "Saturn"@,
    ]
}

/// A response under construction.
pub struct Response {
    /// The status code; 204 until a handler sends a body or sets it.
    pub status: u16,
    status_set: bool,
    headers: Vec<(String, String)>,
    pub body: String,
}

impl Response {
    /// The headers, in the order they are rendered.
    pub closed spec fn header_view(&self) -> Seq<(Seq<char>, Seq<char>)> {
        fields_view(self.headers@)
    }

    /// The status code.
    pub closed spec fn code(&self) -> u16 {
        self.status
    }

    /// The body text.
    pub closed spec fn body_text(&self) -> Seq<char> {
        self.body@
    }

    /// The headers as a map from name to value.
    pub open spec fn header_map(&self) -> Map<Seq<char>, Seq<char>> {
        fields_map(self.header_view())
    }

    /// Names stay sorted, each once.
    pub open spec fn wf(&self) -> bool {
        sorted_names(self.header_view())
    }

    /// Whether a status was chosen explicitly.
    pub closed spec fn status_chosen(&self) -> bool {
        self.status_set
    }

    /// A fresh response dated now: status 204, no body, and the default
    /// headers, with `Date` the current time.
    pub fn new() -> (r: Response)
        ensures
            r.wf(),
            r.code() == 204,
            !r.status_chosen(),
            r.body_text().len() == 0,
            r.header_map() == default_headers(r.header_map()["Date"@]),
    {
        Response::with_date(http_date_now())
    }

    /// A fresh response: status 204, no body, and the default headers, with
    /// `date` as the value of `Date`.
    pub fn with_date(date: String) -> (r: Response)
        ensures
            r.wf(),
            r.code() == 204,
            !r.status_chosen(),
            r.body_text().len() == 0,
            r.header_map() == default_headers(date@),
            r.header_map()["Date"@] == date@,
    {
        let mut headers: Vec<(String, String)> = Vec::new();
        proof {
            reveal_strlit("X-Powered-By");
            reveal_strlit("Saturn");
            reveal_strlit("Connection");
            reveal_strlit("keep-alive");
            reveal_strlit("Keep-Alive");
            reveal_strlit("timeout=5");
            reveal_strlit("Server");
            reveal_strlit("Date");
            assert(fields_map(fields_view(headers@)) =~= Map::empty());
        }
        let ghost d = date@;
        upsert(&mut headers, "X-Powered-By".to_owned(), "Saturn".to_owned());
        upsert(&mut headers, "Connection".to_owned(), "keep-alive".to_owned());
        upsert(&mut headers, "Keep-Alive".to_owned(), "timeout=5".to_owned());
        upsert(&mut headers, "Server".to_owned(), "Saturn".to_owned());
        upsert(&mut headers, "Date".to_owned(), date);
        let r = Response { status: 204, status_set: false, headers, body: String::new() };
        let ghost m = Map::<Seq<char>, Seq<char>>::empty().insert("X-Powered-By"@, "Saturn"@).insert(
            "Connection"@,
            "keep-alive"@,
        ).insert("Keep-Alive"@, "timeout=5"@).insert("Server"@, "Saturn"@).insert("Date"@, d);
        assert(r.header_map() == m);
        assert("Connection"@[0] != "Date"@[0] && "Connection"@[0] != "Keep-Alive"@[0]
            && "Connection"@[0] != "Server"@[0] && "Date"@[0] != "Keep-Alive"@[0]
            && "Date"@[0] != "Server"@[0] && "Keep-Alive"@[0] != "Server"@[0]
            && "X-Powered-By"@[0] != "Server"@[0] && "X-Powered-By"@[0] != "Date"@[0]
            && "X-Powered-By"@[0] != "Connection"@[0] && "X-Powered-By"@[0] != "Keep-Alive"@[0]);
        assert(m =~= default_headers(d));
        r
    }

    /// The header table, sorted by name.
    pub fn headers(&self) -> (r: &Vec<(String, String)>)
        ensures
            fields_view(r@) == self.header_view(),
    {
        &self.headers
    }

    /// Chooses the status code; a later `send` or `json` keeps it.
    pub fn status(&mut self, status: u16)
        ensures
            final(self).code() == status,
            final(self).status_chosen(),
            final(self).header_view() == old(self).header_view(),
            final(self).body_text() == old(self).body_text(),
    {
        self.status_set = true;
        self.status = status;
    }

    /// Stores a header, replacing one of the same name.
    pub fn set_header(&mut self, header: String, value: String)
        requires
            old(self).wf(),
        ensures
            final(self).wf(),
            final(self).header_map() == old(self).header_map().insert(header@, value@),
            final(self).code() == old(self).code(),
            final(self).status_chosen() == old(self).status_chosen(),
            final(self).body_text() == old(self).body_text(),
    {
        upsert(&mut self.headers, header, value);
    }

    /// Sends `response` as HTML: status 200 unless one was chosen, and
    /// `Content-Type: text/html; charset=utf-8`.
    pub fn send(&mut self, response: String)
        requires
            old(self).wf(),
        ensures
            final(self).wf(),
            final(self).code() == if old(self).status_chosen() { old(self).code() } else { 200 },
            final(self).status_chosen() == old(self).status_chosen(),
            final(self).header_map() == old(self).header_map().insert(content_type_name(), html_type()),
            final(self).body_text() == response@,
    {
        if !self.status_set {
            self.status = 200;
        }
        proof {
            reveal_strlit("Content-Type");
            reveal_strlit("text/html; charset=utf-8");
        }
        upsert(&mut self.headers, "Content-Type".to_owned(), "text/html; charset=utf-8".to_owned());
        self.body = response;
    }

    /// Sends `response` as JSON text, which is not checked: status 200 unless
    /// one was chosen, and `Content-Type: application/json`.
    pub fn json(&mut self, response: String)
        requires
            old(self).wf(),
        ensures
            final(self).wf(),
            final(self).code() == if old(self).status_chosen() { old(self).code() } else { 200 },
            final(self).status_chosen() == old(self).status_chosen(),
            final(self).header_map() == old(self).header_map().insert(content_type_name(), json_type()),
            final(self).body_text() == response@,
    {
        if !self.status_set {
            self.status = 200;
        }
        proof {
            reveal_strlit("Content-Type");
            reveal_strlit("application/json");
        }
        upsert(&mut self.headers, "Content-Type".to_owned(), "application/json".to_owned());
        self.body = response;
    }

    /// The entity tag of the body.
    fn generate_etag(&self) -> (r: String)
        ensures
            r@ == md5_hex(encode_utf8(self.body_text())),
    {
        md5_hex_of(self.body.as_str().as_bytes())
    }

    /// Adds `Content-Length` (the body's length in bytes) and `ETag` to the
    /// headers, and renders the status line, every header in name order, and
    /// the blank line.
    pub fn build_head(&mut self) -> (r: String)
        requires
            old(self).wf(),
        ensures
            final(self).wf(),
            final(self).header_map() == old(self).header_map().insert(
                content_length_header(),
                decimal(encode_utf8(old(self).body_text()).len()),
            ).insert(etag_header(), etag_of(encode_utf8(old(self).body_text()))),
            final(self).code() == old(self).code(),
            final(self).status_chosen() == old(self).status_chosen(),
            final(self).body_text() == old(self).body_text(),
            r@ == head_text(final(self).code(), final(self).header_view()),
    {
        let bs = self.body.as_str();
        let len = bs.as_bytes().len();
        assert(len as int == encode_utf8(self.body@).len());
        let hex = self.generate_etag();
        proof {
            reveal_strlit("Content-Length");
            reveal_strlit("ETag");
            reveal_strlit("W/\"");
            reveal_strlit("\"");
        }
        upsert(&mut self.headers, "Content-Length".to_owned(), string_of(&decimal_chars(len)));
        let mut tag = "W/\"".to_owned();
        append(&mut tag, hex.as_str());
        append(&mut tag, "\"");
        assert(tag@ =~= etag_of(encode_utf8(self.body@)));
        upsert(&mut self.headers, "ETag".to_owned(), tag);
        proof {
            reveal_strlit("HTTP/1.1 ");
            reveal_strlit(" ");
            reveal_strlit(" Internal Server Error");
            reveal_strlit("Internal Server Error");
            reveal_strlit("\r\n");
            reveal_strlit(": ");
        }
        let mut out = "HTTP/1.1 ".to_owned();
        match reason_of(self.status) {
            Some(p) => {
                append(&mut out, string_of(&decimal_chars(self.status as usize)).as_str());
                append(&mut out, " ");
                append(&mut out, p.as_str());
            },
            None => {
                append(&mut out, string_of(&decimal_chars(500)).as_str());
                append(&mut out, " Internal Server Error");
                assert(out@ =~= "HTTP/1.1 "@ + (decimal(500) + " "@ + internal_error_phrase()));
            },
        }
        append(&mut out, "\r\n");
        let ghost hs = fields_view(self.headers@);
        assert(hs.subrange(0, 0) =~= Seq::<(Seq<char>, Seq<char>)>::empty());
        let mut i: usize = 0;
        while i < self.headers.len()
            invariant
                0 <= i <= self.headers@.len(),
                hs == fields_view(self.headers@),
                out@ == status_line(self.status) + header_lines(hs.subrange(0, i as int)),
            decreases self.headers.len() - i,
        {
            append(&mut out, self.headers[i].0.as_str());
            append(&mut out, ": ");
            append(&mut out, self.headers[i].1.as_str());
            append(&mut out, "\r\n");
            assert(hs.subrange(0, i + 1).drop_last() == hs.subrange(0, i as int));
            assert(hs.subrange(0, i + 1).last() == hs[i as int]);
            assert(out@ =~= status_line(self.status) + header_lines(hs.subrange(0, i + 1)));
            i += 1;
        }
        assert(hs.subrange(0, hs.len() as int) == hs);
        append(&mut out, "\r\n");
        out
    }

    /// The head followed by the body.
    pub fn build_response(&mut self) -> (r: String)
        requires
            old(self).wf(),
        ensures
            final(self).wf(),
            final(self).header_map() == old(self).header_map().insert(
                content_length_header(),
                decimal(encode_utf8(old(self).body_text()).len()),
            ).insert(etag_header(), etag_of(encode_utf8(old(self).body_text()))),
            final(self).code() == old(self).code(),
            final(self).status_chosen() == old(self).status_chosen(),
            final(self).body_text() == old(self).body_text(),
            r@ == head_text(final(self).code(), final(self).header_view()) + final(self).body_text(),
    {
        let mut head = self.build_head();
        append(&mut head, self.body.as_str());
        head
    }
}

} // verus!
