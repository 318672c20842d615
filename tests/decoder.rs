use saturn::method::{HttpMethod, HttpMethodError};
use saturn::path::HttpPathError;
use saturn::request::{Request, RequestError};
use saturn::version::{HttpVersion, HttpVersionError};

fn pairs(v: &[(String, String)]) -> Vec<(&str, &str)> {
    v.iter().map(|(a, b)| (a.as_str(), b.as_str())).collect()
}

#[test]
fn decodes_plain_get() {
    let data = b"GET / HTTP/1.1\r\n\r\n";
    let (req, used) = Request::decode(data).unwrap();
    assert_eq!(used, data.len());
    assert_eq!(req.method, HttpMethod::Get);
    assert_eq!(req.path.as_str(), "/");
    assert_eq!(req.http_version, HttpVersion::Http11);
    assert!(req.headers.is_empty());
    assert!(req.params.is_empty());
    assert!(req.body.is_none());
}

#[test]
fn decodes_query_and_headers() {
    let data = b"GET /search?q=rust&lang=en&bad&=x&empty=&q=verus HTTP/1.0\r\nHost:  example \r\nX-A: 1\r\nno colon line\r\nX-A: 2\r\n\r\n";
    let (req, used) = Request::decode(data).unwrap();
    assert_eq!(used, data.len());
    assert_eq!(req.path.as_str(), "/search");
    assert_eq!(req.http_version, HttpVersion::Http10);
    assert_eq!(pairs(&req.params), vec![("lang", "en"), ("q", "verus")]);
    assert_eq!(pairs(&req.headers), vec![("Host", "example"), ("X-A", "2")]);
}

#[test]
fn query_ignored_for_post() {
    let data = b"POST /a?x=1 HTTP/1.1\n\n";
    let (req, used) = Request::decode(data).unwrap();
    assert_eq!(used, data.len());
    assert_eq!(req.path.as_str(), "/a");
    assert!(req.params.is_empty());
}

#[test]
fn consumes_exactly_the_declared_body() {
    let data = b"POST / HTTP/1.1\r\nContent-Length: 2\r\n\r\n{}EXTRA";
    let (req, used) = Request::decode(data).unwrap();
    assert_eq!(used, data.len() - 5);
    assert!(req.body.is_some());
    assert_eq!(req.body.unwrap().to_string(), "{}");
}

#[test]
fn incomplete_inputs() {
    assert!(matches!(Request::decode(b"GET / HTTP/1.1"), Err(RequestError::Incomplete)));
    assert!(matches!(Request::decode(b"GET / HTTP/1.1\r\nHost: a\r\n"), Err(RequestError::Incomplete)));
    assert!(matches!(
        Request::decode(b"POST / HTTP/1.1\r\nContent-Length: 5\r\n\r\n{}"),
        Err(RequestError::Incomplete)
    ));
}

#[test]
fn request_line_errors() {
    match Request::decode(b"PUT / HTTP/1.1\r\n\r\n") {
        Err(RequestError::HttpMethodError(HttpMethodError::UnsupportedMethod(m))) => assert_eq!(m, "PUT"),
        _ => panic!("expected an unsupported method"),
    }
    assert!(matches!(
        Request::decode(b"\r\n\r\n"),
        Err(RequestError::HttpMethodError(HttpMethodError::NoMethod))
    ));
    assert!(matches!(
        Request::decode(b"GET\r\n\r\n"),
        Err(RequestError::HttpPathError(HttpPathError::NoPath))
    ));
    assert!(matches!(
        Request::decode(b"GET index HTTP/1.1\r\n\r\n"),
        Err(RequestError::HttpPathError(HttpPathError::UnsupportedPath(_)))
    ));
    assert!(matches!(
        Request::decode(b"GET /\r\n\r\n"),
        Err(RequestError::HttpVersionError(HttpVersionError::NoVersion))
    ));
    assert!(matches!(
        Request::decode(b"GET / HTTP/1.1 extra\r\n\r\n"),
        Err(RequestError::HttpVersionError(HttpVersionError::UnsupportedVersion(_)))
    ));
    assert!(matches!(Request::decode(b"GET / \xff\r\n\r\n"), Err(RequestError::NotText)));
}

#[test]
fn malformed_body_is_an_error() {
    let r = Request::decode(b"POST / HTTP/1.1\r\nContent-Length: 3\r\n\r\nabc");
    match r {
        Err(e @ RequestError::Body(_)) => {
            assert!(e.to_string().starts_with("Body was not well-formatted (JSON): "))
        }
        _ => panic!("expected a body error"),
    }
}

#[test]
fn content_length_that_is_not_a_number_reads_no_body() {
    let data = b"POST / HTTP/1.1\r\nContent-Length: abc\r\n\r\n{}";
    let (req, used) = Request::decode(data).unwrap();
    assert_eq!(used, data.len() - 2);
    assert!(req.body.is_none());
    let data = b"POST / HTTP/1.1\r\nContent-Length: +2\r\n\r\n{}";
    let (req, used) = Request::decode(data).unwrap();
    assert_eq!(used, data.len());
    assert!(req.body.is_some());
}

#[test]
fn error_descriptions() {
    assert_eq!(RequestError::Io("boom".to_string()).to_string(), "I/O Error: boom");
    assert_eq!(
        RequestError::HttpVersionError(HttpVersionError::NoVersion).to_string(),
        "No HTTP version was provided"
    );
}

#[test]
fn body_is_decoded_lossily() {
    let data = b"POST / HTTP/1.1\r\nContent-Length: 3\r\n\r\n\"\xff\"";
    let (req, used) = Request::decode(data).unwrap();
    assert_eq!(used, data.len());
    assert_eq!(req.body.unwrap().as_str(), Some("\u{fffd}"));
}
