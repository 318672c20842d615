use saturn::method::HttpMethod;
use saturn::path::HttpPath;
use saturn::request::Request;
use saturn::response::Response;
use saturn::server::{
    bad_request_text, finish, method_not_allowed_text, not_found_text, start_response, Plan,
    WebServer,
};

type Handler = fn(&mut Response);

fn hello(res: &mut Response) {
    res.send("Hello World!".to_string());
}

fn json_hello(res: &mut Response) {
    res.json("{\"test\":\"hello world\"}".to_string());
}

fn server() -> WebServer<Handler> {
    let mut s: WebServer<Handler> = WebServer::new("127.0.0.1:7878".to_string());
    s.get(HttpPath::from_str("/").unwrap(), hello);
    s.post(HttpPath::from_str("/").unwrap(), json_hello);
    s
}

fn serve(s: &WebServer<Handler>, raw: &[u8]) -> String {
    let (req, _) = Request::decode(raw).unwrap();
    match s.plan(req.method, &req.path) {
        Plan::NotFound => not_found_text(),
        Plan::MethodNotAllowed => method_not_allowed_text(),
        Plan::Respond { handler, head_only, allow } => {
            let mut res = start_response(allow);
            if let Some(h) = handler {
                h(&mut res);
            }
            finish(&mut res, head_only)
        }
    }
}

fn header_value<'a>(text: &'a str, name: &str) -> Option<&'a str> {
    text.split("\r\n")
        .find_map(|l| l.strip_prefix(name).and_then(|r| r.strip_prefix(": ")))
}

#[test]
fn registry_lookup() {
    let s = server();
    assert_eq!(s.address(), "127.0.0.1:7878");
    let root = HttpPath::from_str("/").unwrap();
    assert!(s.lookup_path(&root).is_some());
    assert!(s.lookup(&root, HttpMethod::Get).is_some());
    assert!(s.lookup(&root, HttpMethod::Head).is_none());
    assert!(s.lookup_path(&HttpPath::from_str("/x").unwrap()).is_none());
}

#[test]
fn registration_overwrites() {
    let mut s = server();
    s.add_route(HttpMethod::Get, HttpPath::from_str("/").unwrap(), json_hello);
    let out = serve(&s, b"GET / HTTP/1.1\r\n\r\n");
    assert!(out.ends_with("\r\n\r\n{\"test\":\"hello world\"}"));
    assert_eq!(s.lookup_path(&HttpPath::from_str("/").unwrap()).unwrap().len(), 2);
}

#[test]
fn get_on_registered_path() {
    let out = serve(&server(), b"GET / HTTP/1.1\r\n\r\n");
    assert!(out.starts_with("HTTP/1.1 200 OK\r\n"));
    assert!(out.ends_with("\r\n\r\nHello World!"));
    assert_eq!(header_value(&out, "Content-Type"), Some("text/html; charset=utf-8"));
}

#[test]
fn post_with_body_sends_json() {
    let out = serve(&server(), b"POST / HTTP/1.1\r\nContent-Length: 2\r\n\r\n{}");
    assert!(out.starts_with("HTTP/1.1 200 OK\r\n"));
    assert!(out.ends_with("\r\n\r\n{\"test\":\"hello world\"}"));
    assert_eq!(header_value(&out, "Content-Type"), Some("application/json"));
    assert_eq!(header_value(&out, "Content-Length"), Some("22"));
}

#[test]
fn unknown_path_is_404() {
    let out = serve(&server(), b"GET /missing HTTP/1.1\r\n\r\n");
    assert_eq!(out, "HTTP/1.1 404 NOT FOUND\r\n\r\n");
}

#[test]
fn head_without_get_is_405() {
    let mut s: WebServer<Handler> = WebServer::new("a".to_string());
    s.post(HttpPath::from_str("/p").unwrap(), json_hello);
    let out = serve(&s, b"HEAD /p HTTP/1.1\r\n\r\n");
    assert_eq!(out, "HTTP/1.1 405 METHOD NOT ALLOWED\r\n\r\n");
}

#[test]
fn head_with_get_sends_head_only() {
    let out = serve(&server(), b"HEAD / HTTP/1.1\r\n\r\n");
    assert!(out.starts_with("HTTP/1.1 200 OK\r\n"));
    assert_eq!(header_value(&out, "Content-Type"), Some("text/html; charset=utf-8"));
    assert_eq!(header_value(&out, "Content-Length"), Some("12"));
    assert!(out.ends_with("\r\n\r\n"));
    assert!(!out.contains("Hello World!"));
}

#[test]
fn options_on_get_only_path() {
    let mut s: WebServer<Handler> = WebServer::new("a".to_string());
    s.get(HttpPath::from_str("/g").unwrap(), hello);
    let out = serve(&s, b"OPTIONS /g HTTP/1.1\r\n\r\n");
    assert!(out.starts_with("HTTP/1.1 204 No Content\r\n"));
    let allow = header_value(&out, "Allow").unwrap();
    let mut got: Vec<&str> = allow.split(", ").collect();
    got.sort();
    assert_eq!(got, vec!["GET", "HEAD", "OPTIONS"]);
    assert_eq!(allow, "GET, OPTIONS, HEAD");
    assert!(out.ends_with("\r\n\r\n"));
}

#[test]
fn unregistered_method_on_known_path_passes_through() {
    let mut s: WebServer<Handler> = WebServer::new("a".to_string());
    s.get(HttpPath::from_str("/g").unwrap(), hello);
    let out = serve(&s, b"POST /g HTTP/1.1\r\n\r\n");
    assert!(out.starts_with("HTTP/1.1 204 No Content\r\n"));
}

#[test]
fn fixed_responses() {
    assert_eq!(bad_request_text(None), "HTTP/1.1 400 BAD REQUEST\r\n\r\n");
    assert_eq!(
        bad_request_text(Some("why".to_string())),
        "HTTP/1.1 400 BAD REQUEST\r\n\r\nwhy"
    );
}

#[test]
fn head_prefers_a_head_handler() {
    let mut s = server();
    s.add_route(HttpMethod::Head, HttpPath::from_str("/").unwrap(), json_hello);
    let out = serve(&s, b"HEAD / HTTP/1.1\r\n\r\n");
    assert!(out.starts_with("HTTP/1.1 200 OK\r\n"));
    assert_eq!(header_value(&out, "Content-Type"), Some("application/json"));
    assert!(out.ends_with("\r\n\r\n"));
}
