use saturn::method::{HttpMethod, HttpMethodError};
use saturn::path::{HttpPath, HttpPathError};
use saturn::version::{HttpVersion, HttpVersionError};

#[test]
fn method_tokens_round_trip() {
    for t in ["OPTIONS", "HEAD", "GET", "POST"] {
        let m = HttpMethod::from_str(t).unwrap();
        assert_eq!(m.to_string(), t);
        assert!(HttpMethod::is_valid(t));
    }
    assert_eq!(HttpMethod::from_str("GET"), Some(HttpMethod::Get));
}

#[test]
fn method_rejects_unknown_and_empty() {
    assert_eq!(HttpMethod::from_str("get"), None);
    assert!(!HttpMethod::is_valid("PUT"));
    assert_eq!(HttpMethod::get(""), Err(HttpMethodError::NoMethod));
    assert_eq!(
        HttpMethod::get("PUT"),
        Err(HttpMethodError::UnsupportedMethod("PUT".to_string()))
    );
    assert_eq!(HttpMethod::get("POST"), Ok(HttpMethod::Post));
    assert_eq!(
        HttpMethodError::UnsupportedMethod("PUT".to_string()).to_string(),
        "Unsupported HTTP method: PUT"
    );
    assert_eq!(HttpMethodError::NoMethod.to_string(), "No HTTP method was provided");
}

#[test]
fn path_round_trip_and_errors() {
    let p = HttpPath::from_str("/a/b//c/").unwrap();
    assert_eq!(p.to_string(), "/a/b//c/");
    assert_eq!(p.as_str(), "/a/b//c/");
    assert!(HttpPath::is_valid("/"));
    assert!(!HttpPath::is_valid("a/"));
    assert!(!HttpPath::is_valid(""));
    assert!(HttpPath::from_str("index").is_none());
    assert!(matches!(HttpPath::get(""), Err(HttpPathError::NoPath)));
    match HttpPath::get("x") {
        Err(HttpPathError::UnsupportedPath(s)) => assert_eq!(s, "x"),
        _ => panic!("expected an unsupported path"),
    }
    assert_eq!(
        HttpPathError::UnsupportedPath("x".to_string()).to_string(),
        "Unsupported HTTP path: x"
    );
    assert!(HttpPath::get("/x").unwrap().same(&HttpPath::from_str("/x").unwrap()));
    assert!(!HttpPath::get("/x").unwrap().same(&HttpPath::from_str("/y").unwrap()));
}

#[test]
fn version_tokens_round_trip() {
    assert_eq!(HttpVersion::from_str("HTTP/1.1"), Some(HttpVersion::Http11));
    assert_eq!(HttpVersion::from_str("HTTP/0.9").unwrap().to_string(), "HTTP/0.9");
    assert_eq!(HttpVersion::from_str("HTTP/1.0").unwrap().to_string(), "HTTP/1.0");
    assert_eq!(HttpVersion::from_str("HTTP/1.1").unwrap().to_string(), "HTTP/1.1");
    assert_eq!(HttpVersion::from_str("HTTP/2").unwrap().to_string(), "HTTP/2");
    assert_eq!(HttpVersion::from_str("HTTP/3").unwrap().to_string(), "HTTP/3");
    for v in [
        HttpVersion::Http09,
        HttpVersion::Http10,
        HttpVersion::Http11,
        HttpVersion::Http2,
        HttpVersion::Http3,
    ] {
        assert_eq!(HttpVersion::get(&v.to_string()), Ok(v));
    }
    assert!(!HttpVersion::is_valid("HTTP/2.0"));
    assert_eq!(HttpVersion::get(""), Err(HttpVersionError::NoVersion));
    assert_eq!(
        HttpVersion::get("HTTP/4"),
        Err(HttpVersionError::UnsupportedVersion("HTTP/4".to_string()))
    );
    assert_eq!(HttpVersionError::NoVersion.to_string(), "No HTTP version was provided");
}
