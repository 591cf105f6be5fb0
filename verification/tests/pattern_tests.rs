use rask::pattern::RoutePattern;

#[test]
fn compile_literal_root() {
    assert!(RoutePattern::compile("/").is_ok());
}

#[test]
fn compile_named_and_literal() {
    assert!(RoutePattern::compile("/profile/{name}").is_ok());
    assert!(RoutePattern::compile("/a/b_c/d0").is_ok());
}

#[test]
fn compile_wildcard_last() {
    assert!(RoutePattern::compile("/static/**").is_ok());
}

#[test]
fn compile_rejects_missing_leading_slash() {
    assert!(RoutePattern::compile("profile").is_err());
    assert!(RoutePattern::compile("").is_err());
}

#[test]
fn compile_rejects_bad_segments() {
    assert!(RoutePattern::compile("/a-b").is_err());
    assert!(RoutePattern::compile("/{}").is_err());
    assert!(RoutePattern::compile("/{name").is_err());
    assert!(RoutePattern::compile("/a{b}").is_err());
}

#[test]
fn compile_rejects_wildcard_not_last() {
    assert!(RoutePattern::compile("/**/x").is_err());
}

#[test]
fn compile_rejects_duplicate_names() {
    assert!(RoutePattern::compile("/{a}/{a}").is_err());
    assert!(RoutePattern::compile("/{a}/{b}").is_ok());
}

#[test]
fn match_literal_exact_only() {
    let p = RoutePattern::compile("/profile").unwrap();
    assert!(p.matches("/profile").is_some());
    assert!(p.matches("/profile/x").is_none());
    assert!(p.matches("/profil").is_none());
    assert!(p.matches("profile").is_none());
}

#[test]
fn match_named_captures_value() {
    let p = RoutePattern::compile("/profile/{name}").unwrap();
    let caps = p.matches("/profile/alice").unwrap();
    assert_eq!(caps.get("name"), Some("alice".to_string()));
    assert_eq!(caps.len(), 1);
}

#[test]
fn match_named_requires_word_chars() {
    let p = RoutePattern::compile("/profile/{name}").unwrap();
    assert!(p.matches("/profile/").is_none());
    assert!(p.matches("/profile/a-b").is_none());
    assert!(p.matches("/profile/under_score_9").is_some());
}

#[test]
fn match_substituted_path_round_trip() {
    // compiling a template and matching the path obtained by substituting
    // word strings for each name retrieves exactly those values
    let p = RoutePattern::compile("/users/{user}/posts/{post}").unwrap();
    let caps = p.matches("/users/bob/posts/17").unwrap();
    assert_eq!(caps.get("user"), Some("bob".to_string()));
    assert_eq!(caps.get("post"), Some("17".to_string()));
    assert_eq!(caps.get("absent"), None);
}

#[test]
fn match_wildcard_takes_remainder() {
    let p = RoutePattern::compile("/static/**").unwrap();
    assert!(p.matches("/static/app.js").is_some());
    assert!(p.matches("/static/css/site.css").is_some());
    // substituting the empty string for the wildcard still matches
    assert!(p.matches("/static/").is_some());
    // but the wildcard's own separator is required
    assert!(p.matches("/static").is_none());
    // the wildcard yields no named capture
    assert_eq!(p.matches("/static/app.js").unwrap().len(), 0);
}

#[test]
fn match_root() {
    let p = RoutePattern::compile("/").unwrap();
    assert!(p.matches("/").is_some());
    assert!(p.matches("/x").is_none());
    assert!(p.matches("").is_none());
}
