use rask::jar::Jar;
use rask::response::Response;
use rask::servestatic::ServeStatic;
use rask::strutil::u64_to_string;
use rask::{Dispatch, Method, Rask};

const SECRET: &str = "0123456789abcdef0123456789abcdef";

fn header<'a>(wire: &'a rask::response::WireResponse, name: &str) -> Option<&'a String> {
    wire.headers.iter().find(|h| h.0 == name).map(|h| &h.1)
}

#[test]
fn send_sets_status_body_and_content_length() {
    let jar = Jar::from_header(SECRET.as_bytes(), None);
    let res = Response::new(jar);
    let wire = res.send("Hello world!");
    assert_eq!(wire.status, 200);
    assert_eq!(wire.body, "Hello world!");
    assert_eq!(header(&wire, "Content-Length"), Some(&"12".to_string()));
}

#[test]
fn send_with_status_tuple() {
    let jar = Jar::from_header(SECRET.as_bytes(), None);
    let res = Response::new(jar);
    let wire = res.send(("created", 201u16));
    assert_eq!(wire.status, 201);
    assert_eq!(wire.body, "created");
}

#[test]
fn send_empty_body_has_content_length_zero() {
    let jar = Jar::from_header(SECRET.as_bytes(), None);
    let res = Response::new(jar);
    let wire = res.send(404u16);
    assert_eq!(wire.status, 404);
    assert_eq!(wire.body, "");
    assert_eq!(header(&wire, "Content-Length"), Some(&"0".to_string()));
}

#[test]
fn set_header_replaces_earlier_value() {
    let jar = Jar::from_header(SECRET.as_bytes(), None);
    let mut res = Response::new(jar);
    res.set_header("X-Kind", "a");
    res.set_header("X-Kind", "b");
    let wire = res.send(204u16);
    assert_eq!(header(&wire, "X-Kind"), Some(&"b".to_string()));
    // X-Kind plus the Content-Length of the empty body
    assert_eq!(wire.headers.len(), 2);
}

#[test]
fn redirect_sets_location_and_302() {
    let jar = Jar::from_header(SECRET.as_bytes(), None);
    let res = Response::new(jar);
    let wire = res.redirect("/elsewhere");
    assert_eq!(wire.status, 302);
    assert_eq!(wire.body, "");
    assert_eq!(header(&wire, "Location"), Some(&"/elsewhere".to_string()));
    assert_eq!(header(&wire, "Content-Length"), Some(&"0".to_string()));
}

#[test]
fn decimal_formatting_exact() {
    assert_eq!(u64_to_string(0), "0");
    assert_eq!(u64_to_string(7), "7");
    assert_eq!(u64_to_string(10), "10");
    assert_eq!(u64_to_string(123456789), "123456789");
    assert_eq!(u64_to_string(u64::MAX), "18446744073709551615");
}

#[test]
fn serve_static_routes_to_its_handler() {
    let mut app = Rask::new(SECRET);
    app.serve_static("/static/", 3).unwrap();
    let (h, req) = match app.handle(Method::Get, "/static/app.js", vec![], None, "") {
        Dispatch::Invoke { handler, request, .. } => (handler, request),
        Dispatch::Done { .. } => panic!("expected the static handler"),
    };
    assert_eq!(h, 3);
    assert_eq!(req.path, Some("/static/app.js".to_string()));
    // the route is GET-only
    let wire = match app.handle(Method::Post, "/static/app.js", vec![], None, "") {
        Dispatch::Done { wire } => wire,
        Dispatch::Invoke { .. } => panic!("expected 405"),
    };
    assert_eq!(wire.status, 405);
}

#[test]
fn serve_static_resolves_under_root() {
    let s = ServeStatic::new("assets", "/static/");
    assert_eq!(s.resolve("/static/app.js"), Some("assets/app.js".to_string()));
    assert_eq!(s.resolve("/static/css/site.css"), Some("assets/css/site.css".to_string()));
    assert_eq!(s.resolve("/other/app.js"), None);
}

#[test]
fn serve_static_rejects_traversal() {
    let s = ServeStatic::new("assets", "/static/");
    assert_eq!(s.resolve("/static/../secret.txt"), None);
    assert_eq!(s.resolve("/static/a/../../x"), None);
    // dots that are not a whole segment are allowed
    assert_eq!(s.resolve("/static/a..b"), Some("assets/a..b".to_string()));
}
