use saturn::response::{decimal_chars, Response};

fn header<'a>(r: &'a Response, name: &str) -> Option<&'a str> {
    r.headers().iter().find(|(n, _)| n == name).map(|(_, v)| v.as_str())
}

#[test]
fn new_response_defaults() {
    let r = Response::new();
    assert_eq!(r.status, 204);
    assert_eq!(r.body, "");
    let names: Vec<&str> = r.headers().iter().map(|(n, _)| n.as_str()).collect();
    assert_eq!(names, vec!["Connection", "Date", "Keep-Alive", "Server", "X-Powered-By"]);
    assert_eq!(header(&r, "Connection"), Some("keep-alive"));
    assert_eq!(header(&r, "Keep-Alive"), Some("timeout=5"));
    assert_eq!(header(&r, "Server"), Some("Saturn"));
    assert_eq!(header(&r, "X-Powered-By"), Some("Saturn"));
    assert!(header(&r, "Date").unwrap().ends_with(" GMT"));
}

#[test]
fn send_sets_status_type_and_body() {
    let mut r = Response::new();
    r.send("Hello World!".to_string());
    assert_eq!(r.status, 200);
    assert_eq!(r.body, "Hello World!");
    assert_eq!(header(&r, "Content-Type"), Some("text/html; charset=utf-8"));
}

#[test]
fn json_keeps_chosen_status() {
    let mut r = Response::new();
    r.status(201);
    r.json("{\"a\":1}".to_string());
    assert_eq!(r.status, 201);
    assert_eq!(header(&r, "Content-Type"), Some("application/json"));
}

#[test]
fn set_header_overwrites() {
    let mut r = Response::new();
    r.set_header("Server".to_string(), "Other".to_string());
    r.set_header("A-First".to_string(), "1".to_string());
    assert_eq!(header(&r, "Server"), Some("Other"));
    assert_eq!(r.headers()[0].0, "A-First");
    assert_eq!(r.headers().len(), 6);
}

#[test]
fn build_response_renders_sorted_head_and_body() {
    let mut r = Response::new();
    r.send("Hello World!".to_string());
    let text = r.build_response();
    assert!(text.starts_with("HTTP/1.1 200 OK\r\n"));
    assert!(text.ends_with("\r\n\r\nHello World!"));
    assert!(text.contains("\r\nContent-Length: 12\r\n"));
    assert!(text.contains("\r\nETag: W/\"ed076287532e86365e841e92bfc50d8c\"\r\n"));
    let head = &text[..text.len() - "Hello World!".len()];
    let lines: Vec<&str> = head.split("\r\n").skip(1).filter(|l| !l.is_empty()).collect();
    let mut sorted = lines.clone();
    sorted.sort();
    assert_eq!(lines, sorted);
    assert_eq!(lines.len(), 8);
}

#[test]
fn build_head_of_empty_body() {
    let mut r = Response::new();
    let head = r.build_head();
    assert!(head.starts_with("HTTP/1.1 204 No Content\r\n"));
    assert!(head.contains("\r\nContent-Length: 0\r\n"));
    assert!(head.contains("\r\nETag: W/\"d41d8cd98f00b204e9800998ecf8427e\"\r\n"));
    assert!(head.ends_with("\r\n\r\n"));
}

#[test]
fn unknown_status_renders_as_500() {
    let mut r = Response::new();
    r.status(299);
    assert!(r.build_head().starts_with("HTTP/1.1 500 Internal Server Error\r\n"));
    let mut r = Response::new();
    r.status(42);
    assert!(r.build_head().starts_with("HTTP/1.1 500 Internal Server Error\r\n"));
    let mut r = Response::new();
    r.status(404);
    assert!(r.build_head().starts_with("HTTP/1.1 404 Not Found\r\n"));
}

#[test]
fn content_length_counts_bytes() {
    let mut r = Response::new();
    r.send("é".to_string());
    assert!(r.build_response().contains("\r\nContent-Length: 2\r\n"));
}

#[test]
fn decimal_rendering() {
    let s: String = decimal_chars(0).into_iter().collect();
    assert_eq!(s, "0");
    let s: String = decimal_chars(1234509).into_iter().collect();
    assert_eq!(s, "1234509");
    let s: String = decimal_chars(usize::MAX).into_iter().collect();
    assert_eq!(s, usize::MAX.to_string());
}

#[test]
fn dated_response_keeps_the_date() {
    let r = Response::with_date("Mon, 01 Jan 2024 00:00:00 GMT".to_string());
    assert_eq!(header(&r, "Date"), Some("Mon, 01 Jan 2024 00:00:00 GMT"));
    assert_eq!(r.status, 204);
    assert_eq!(r.headers().len(), 5);
}
