use rask::cookies::Cookies;
use rask::jar::Jar;
use rask::request::RequestMarker;
use rask::response::{Response, ResponseMarker};
use rask::session::Session;
use rask::{Dispatch, Method, Rask};

const SECRET: &str = "0123456789abcdef0123456789abcdef";

fn invoked(d: Dispatch) -> (usize, rask::request::Request, Response) {
    match d {
        Dispatch::Invoke { handler, request, response } => (handler, request, response),
        Dispatch::Done { .. } => panic!("expected a handler dispatch"),
    }
}

#[test]
fn session_write_visible_to_read() {
    // a value written through the write-capable facade is visible through
    // a read within the same request, before serialization
    let jar = Jar::from_header(SECRET.as_bytes(), None);
    let mut res = Response::new(jar);
    res.session().set("uid", "42").unwrap();
    assert_eq!(res.session().get("uid"), Some("42".to_string()));
}

#[test]
fn facades_share_one_jar() {
    // the write-capable response-side facade and the read-only
    // request-side facade are backed by the same jar, so a write through
    // one is observed by the other within the same request
    let mut jar = Jar::from_header(SECRET.as_bytes(), None);
    let writer: Session<ResponseMarker> = Session::new(&mut jar);
    writer.set("uid", "42").unwrap();
    let reader: Session<RequestMarker> = Session::new(&mut jar);
    assert_eq!(reader.get("uid"), Some("42".to_string()));
    let cookie_writer: Cookies<ResponseMarker> = Cookies::new(&mut jar);
    cookie_writer.set("theme", "dark").unwrap();
    let cookie_reader: Cookies<RequestMarker> = Cookies::new(&mut jar);
    assert_eq!(cookie_reader.get("theme"), Some("dark".to_string()));
}

#[test]
fn session_round_trip_through_serialization() {
    let mut app = Rask::new(SECRET);
    app.register("/x", 7).unwrap();
    let (h, _req, mut res) = invoked(app.handle(Method::Get, "/x", vec![], None, ""));
    assert_eq!(h, 7);
    res.session().set("uid", "42").unwrap();
    let wire = res.send("done");
    let entry = wire
        .set_cookies
        .iter()
        .find(|c| c.name == "uid")
        .expect("a Set-Cookie entry for uid");
    assert!(!entry.expired);
    // the serialized payload is sealed, not the plaintext
    assert_ne!(entry.value, "42");
    // a later request bearing that cookie decodes the same value
    let header = format!("uid={}", entry.value);
    let (_, _, mut res2) = invoked(app.handle(Method::Get, "/x", vec![], Some(header.as_str()), ""));
    assert_eq!(res2.session().get("uid"), Some("42".to_string()));
}

#[test]
fn tampered_session_token_reads_absent() {
    let mut app = Rask::new(SECRET);
    app.register("/x", 0).unwrap();
    let (_, _, mut res) = invoked(app.handle(Method::Get, "/x", vec![], None, ""));
    res.session().set("uid", "42").unwrap();
    let wire = res.send("done");
    let token = &wire.set_cookies.iter().find(|c| c.name == "uid").unwrap().value;
    // flip one character of the token
    let mut chars: Vec<char> = token.chars().collect();
    let mid = chars.len() / 2;
    chars[mid] = if chars[mid] == 'A' { 'B' } else { 'A' };
    let tampered: String = chars.into_iter().collect();
    let header = format!("uid={}", tampered);
    let (_, _, mut res2) = invoked(app.handle(Method::Get, "/x", vec![], Some(header.as_str()), ""));
    // absent, not another value, and no crash
    assert_eq!(res2.session().get("uid"), None);
}

#[test]
fn session_pop_removes_and_expires() {
    let jar = Jar::from_header(SECRET.as_bytes(), None);
    let mut res = Response::new(jar);
    res.session().set("uid", "42").unwrap();
    res.session().pop("uid").unwrap();
    assert_eq!(res.session().get("uid"), None);
    let wire = res.send("done");
    let entry = wire.set_cookies.iter().find(|c| c.name == "uid").unwrap();
    assert!(entry.expired);
}

#[test]
fn cookieless_jar_rejects_writes() {
    let mut app = Rask::new(SECRET);
    app.disable_cookies();
    app.register("/x", 0).unwrap();
    let (_, _, mut res) = invoked(app.handle(Method::Get, "/x", vec![], None, ""));
    assert_eq!(res.session().get("k"), None);
    assert!(res.session().set("k", "v").is_err());
    assert!(res.cookies().set("k", "v").is_err());
}

#[test]
fn cookie_header_parsing() {
    let jar = Jar::from_header(SECRET.as_bytes(), Some("a=1; b=2;c=3 ; =bad; novalue"));
    let mut res = Response::new(jar);
    assert_eq!(res.cookies().get("a"), Some("1".to_string()));
    assert_eq!(res.cookies().get("b"), Some("2".to_string()));
    assert_eq!(res.cookies().get("c"), Some("3".to_string()));
    assert_eq!(res.cookies().get(""), None);
    assert_eq!(res.cookies().get("novalue"), None);
}

#[test]
fn cookie_header_tokens_are_trimmed_of_blanks() {
    let jar = Jar::from_header(SECRET.as_bytes(), Some("a=1;\tb=2; \tc=3\t "));
    let mut res = Response::new(jar);
    assert_eq!(res.cookies().get("a"), Some("1".to_string()));
    assert_eq!(res.cookies().get("b"), Some("2".to_string()));
    assert_eq!(res.cookies().get("c"), Some("3".to_string()));
}

#[test]
fn cookie_header_last_binding_wins() {
    let jar = Jar::from_header(SECRET.as_bytes(), Some("a=1; a=2"));
    let mut res = Response::new(jar);
    assert_eq!(res.cookies().get("a"), Some("2".to_string()));
}

#[test]
fn plain_cookie_set_serialized_as_is() {
    let jar = Jar::from_header(SECRET.as_bytes(), None);
    let mut res = Response::new(jar);
    res.cookies().set("theme", "dark").unwrap();
    let wire = res.send("");
    let entry = wire.set_cookies.iter().find(|c| c.name == "theme").unwrap();
    assert_eq!(entry.value, "dark");
    assert!(!entry.expired);
    assert_eq!(entry.header_value(), "theme=dark");
}

#[test]
fn inbound_cookies_reflected_in_final_state() {
    let jar = Jar::from_header(SECRET.as_bytes(), Some("a=1"));
    let res = Response::new(jar);
    let wire = res.send("");
    let entry = wire.set_cookies.iter().find(|c| c.name == "a").unwrap();
    assert_eq!(entry.value, "1");
}

#[test]
fn expired_cookie_header_value() {
    let jar = Jar::from_header(SECRET.as_bytes(), None);
    let mut res = Response::new(jar);
    res.session().set("gone", "x").unwrap();
    res.session().pop("gone").unwrap();
    let wire = res.send("");
    let entry = wire.set_cookies.iter().find(|c| c.name == "gone").unwrap();
    assert_eq!(entry.header_value(), "gone=; Max-Age=0");
}

#[test]
fn plain_view_of_session_key_is_sealed_token() {
    let mut app = Rask::new(SECRET);
    app.register("/x", 0).unwrap();
    let (_, _, mut res) = invoked(app.handle(Method::Get, "/x", vec![], None, ""));
    res.session().set("uid", "42").unwrap();
    let wire = res.send("done");
    let token = wire.set_cookies.iter().find(|c| c.name == "uid").unwrap().value.clone();
    let header = format!("uid={}", token);
    let (_, _, mut res2) = invoked(app.handle(Method::Get, "/x", vec![], Some(header.as_str()), ""));
    // the plain facade sees the raw token, not the protected value
    assert_eq!(res2.cookies().get("uid"), Some(token));
    assert_eq!(res2.session().get("uid"), Some("42".to_string()));
}
