use rask::request::Request;
use rask::response::Response;
use rask::{Dispatch, Method, Rask};

const SECRET: &str = "0123456789abcdef0123456789abcdef";

fn invoked(d: Dispatch) -> (usize, Request, Response) {
    match d {
        Dispatch::Invoke { handler, request, response } => (handler, request, response),
        Dispatch::Done { .. } => panic!("expected a handler dispatch"),
    }
}

fn done(d: Dispatch) -> rask::response::WireResponse {
    match d {
        Dispatch::Done { wire } => wire,
        Dispatch::Invoke { .. } => panic!("expected a finished response"),
    }
}

#[test]
fn found_route_with_captures_and_query() {
    let mut app = Rask::new(SECRET);
    app.register_with_methods("/profile/{name}", &[Method::Get], 1).unwrap();
    let (h, req, _res) = invoked(app.handle(Method::Get, "/profile/alice?x=1", vec![], None, ""));
    assert_eq!(h, 1);
    assert_eq!(req.vars.get("name"), Some("alice".to_string()));
    assert_eq!(req.vars.len(), 1);
    assert_eq!(req.path, Some("/profile/alice".to_string()));
    assert_eq!(req.query, Some("x=1".to_string()));
    let gets = req.gets();
    assert_eq!(gets.get_vec("x"), Some(&vec!["1".to_string()]));
}

#[test]
fn method_mismatch_is_405() {
    let mut app = Rask::new(SECRET);
    app.register_with_methods("/create", &[Method::Post], 2).unwrap();
    let wire = done(app.handle(Method::Get, "/create", vec![], None, ""));
    assert_eq!(wire.status, 405);
    assert_eq!(wire.body, "405 Method Not Allowed");
}

#[test]
fn unregistered_path_is_404() {
    let mut app = Rask::new(SECRET);
    app.register("/", 0).unwrap();
    let wire = done(app.handle(Method::Get, "/nope", vec![], None, ""));
    assert_eq!(wire.status, 404);
    assert_eq!(wire.body, "404 Not Found");
}

#[test]
fn custom_not_found_handler_invoked_with_empty_vars() {
    let mut app = Rask::new(SECRET);
    app.register("/", 0).unwrap();
    app.register_error_handler(404, 9);
    let (h, req, _res) = invoked(app.handle(Method::Get, "/nope", vec![], None, ""));
    assert_eq!(h, 9);
    assert_eq!(req.vars.len(), 0);
    assert_eq!(req.path, Some("/nope".to_string()));
}

#[test]
fn first_matching_route_decides() {
    // the earlier route matches the path but not the method: 405, even
    // though the later route would accept the method
    let mut app = Rask::new(SECRET);
    app.register_with_methods("/r", &[Method::Post], 1).unwrap();
    app.register_with_methods("/r", &[Method::Get], 2).unwrap();
    let wire = done(app.handle(Method::Get, "/r", vec![], None, ""));
    assert_eq!(wire.status, 405);
    // with the registration order reversed the same request is found
    let mut app2 = Rask::new(SECRET);
    app2.register_with_methods("/r", &[Method::Get], 2).unwrap();
    app2.register_with_methods("/r", &[Method::Post], 1).unwrap();
    let (h, _, _) = invoked(app2.handle(Method::Get, "/r", vec![], None, ""));
    assert_eq!(h, 2);
}

#[test]
fn empty_method_list_accepts_all_methods() {
    let mut app = Rask::new(SECRET);
    app.register("/any", 4).unwrap();
    let (h, _, _) = invoked(app.handle(Method::Delete, "/any", vec![], None, ""));
    assert_eq!(h, 4);
}

#[test]
fn extension_methods_follow_the_method_set() {
    // a route open to all methods accepts an extension method; one
    // restricted to standard methods answers it with 405
    let mut app = Rask::new(SECRET);
    app.register("/open", 1).unwrap();
    app.register_with_methods("/closed", &[Method::Get], 2).unwrap();
    let (h, _, _) = invoked(app.handle(Method::Extension, "/open", vec![], None, ""));
    assert_eq!(h, 1);
    let wire = done(app.handle(Method::Extension, "/closed", vec![], None, ""));
    assert_eq!(wire.status, 405);
}

#[test]
fn unparsable_target_is_500() {
    let mut app = Rask::new(SECRET);
    app.register("/", 0).unwrap();
    let wire = done(app.handle(Method::Get, "*", vec![], None, ""));
    assert_eq!(wire.status, 500);
    assert_eq!(wire.body, "500 Internal server error");
}

#[test]
fn custom_error_handler_for_500() {
    let mut app = Rask::new(SECRET);
    app.register_error_handler(500, 5);
    let (h, req, _res) = invoked(app.handle(Method::Get, "*", vec![], None, ""));
    assert_eq!(h, 5);
    assert_eq!(req.path, None);
    assert_eq!(req.query, None);
}

#[test]
fn registration_rejects_bad_template() {
    let mut app = Rask::new(SECRET);
    assert!(app.register("profile", 0).is_err());
    assert!(app.register("/a b", 0).is_err());
    assert!(app.register("/ok", 0).is_ok());
}

#[test]
fn body_and_form_reach_the_handler() {
    let mut app = Rask::new(SECRET);
    app.register_with_methods("/submit", &[Method::Post], 3).unwrap();
    let (_, req, _res) = invoked(app.handle(Method::Post, "/submit", vec![], None, "a=1&b=2"));
    assert_eq!(req.body, "a=1&b=2");
    let form = req.form();
    assert_eq!(form.get("a"), Some(&"1".to_string()));
    assert_eq!(form.get("b"), Some(&"2".to_string()));
}

#[test]
fn finished_response_reflects_jar_state() {
    let mut app = Rask::new(SECRET);
    app.register_with_methods("/create", &[Method::Post], 2).unwrap();
    let wire = done(app.handle(Method::Get, "/create", vec![], Some("a=1"), ""));
    assert_eq!(wire.status, 405);
    let entry = wire.set_cookies.iter().find(|c| c.name == "a").unwrap();
    assert_eq!(entry.value, "1");
    let cl = wire.headers.iter().find(|h| h.0 == "Content-Length").unwrap();
    assert_eq!(cl.1, "22");
}

#[test]
fn fragment_is_dropped_from_target() {
    let mut app = Rask::new(SECRET);
    app.register("/p", 1).unwrap();
    let (_, req, _) = invoked(app.handle(Method::Get, "/p?a=1#frag", vec![], None, ""));
    assert_eq!(req.path, Some("/p".to_string()));
    assert_eq!(req.query, Some("a=1".to_string()));
}
