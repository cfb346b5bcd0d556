use prux::matcher::{compile_patterns, policy_admits, PatternError, UriPathMatcher};

#[test]
fn empty_pattern_is_refused() {
    assert_eq!(UriPathMatcher::new("").err(), Some(PatternError::Empty));
    assert!(UriPathMatcher::new("/").is_ok());
}

#[test]
fn literal_and_wildcard_segments() {
    let m = UriPathMatcher::new("/api/*").unwrap();
    assert!(m.match_start("/api/users"));
    assert!(m.match_start("/api/users/1"));
    assert!(m.match_start("api//users/"));
    assert!(!m.match_start("/api"));
    assert!(!m.match_start("/api/"));
    assert!(!m.match_start("/apis/users"));
    assert!(!m.match_start("/other/api/users"));
    let root = UriPathMatcher::new("/").unwrap();
    assert!(root.match_start("/anything"));
    assert!(root.match_start(""));
}

#[test]
fn policy_inclusions_and_exclusions() {
    let inc = compile_patterns(&vec!["/api/*".to_string(), "".to_string(), "/health".to_string()]);
    assert_eq!(inc.len(), 2);
    let exc = Some(compile_patterns(&vec!["/api/private".to_string()]));
    assert!(policy_admits(&inc, &exc, "/api/users/1"));
    assert!(policy_admits(&inc, &exc, "/health"));
    assert!(!policy_admits(&inc, &exc, "/api/private/x"));
    assert!(!policy_admits(&inc, &exc, "/static/logo.png"));
    assert!(policy_admits(&inc, &None, "/api/private/x"));
}

#[test]
fn no_inclusion_admits_everything() {
    let exc = Some(compile_patterns(&vec!["/api".to_string()]));
    assert!(policy_admits(&Vec::new(), &exc, "/api/users"));
    assert!(policy_admits(&Vec::new(), &None, "/"));
}

#[test]
fn admitted_path_stays_admitted() {
    let inc = compile_patterns(&vec!["/api/*".to_string()]);
    let exc = Some(compile_patterns(&vec!["/admin".to_string()]));
    let first = policy_admits(&inc, &exc, "/api/users/1");
    for _ in 0..5 {
        assert_eq!(policy_admits(&inc, &exc, "/api/users/1"), first);
    }
    assert!(first);
}
