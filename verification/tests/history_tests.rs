use anytask::history::{PersistentHistory, PersistentState};

fn start() -> PersistentHistory {
    PersistentHistory::with_initial_path(None, "/".to_string())
}

#[test]
fn starts_at_initial_path() {
    let h = start();
    assert_eq!(h.current_route(), "/");
    assert!(!h.can_go_back());
    assert!(!h.can_go_forward());
    assert_eq!(h.current_prefix(), None);
}

#[test]
fn starts_from_stored_state() {
    let stored = PersistentState {
        current: "/b".to_string(),
        history: vec!["/a".to_string()],
        future: vec![],
    };
    let h = PersistentHistory::with_initial_path(Some(stored.clone()), "/".to_string());
    assert_eq!(h.state, stored);
    assert!(h.can_go_back());
}

#[test]
fn with_prefix_sets_prefix() {
    let h = start().with_prefix("/app".to_string());
    assert_eq!(h.current_prefix(), Some("/app".to_string()));
    assert_eq!(h.current_route(), "/");
}

#[test]
fn push_back_forward() {
    let mut h = start();
    h.push("/spaces".to_string());
    h.push("/list/1".to_string());
    assert_eq!(h.current_route(), "/list/1");
    h.go_back();
    assert_eq!(h.current_route(), "/spaces");
    assert!(h.can_go_forward());
    h.go_forward();
    assert_eq!(h.current_route(), "/list/1");
    assert!(!h.can_go_forward());
}

#[test]
fn back_then_forward_restores_state() {
    let mut h = start();
    h.push("/a".to_string());
    h.push("/b".to_string());
    let before = h.clone();
    h.go_back();
    h.go_forward();
    assert_eq!(h, before);
}

#[test]
fn push_then_back_returns_to_previous() {
    let mut h = start();
    h.push("/a".to_string());
    h.push("/b".to_string());
    h.go_back();
    let at_a = h.state.current.clone();
    h.push("/c".to_string());
    assert!(!h.can_go_forward());
    h.go_back();
    assert_eq!(h.state.current, at_a);
}

#[test]
fn push_of_current_route_does_nothing() {
    let mut h = start();
    h.push("/a".to_string());
    h.go_back();
    let before = h.clone();
    h.push("/".to_string());
    assert_eq!(h, before);
    assert!(h.can_go_forward());
}

#[test]
fn back_and_forward_at_the_ends_do_nothing() {
    let mut h = start();
    let before = h.clone();
    h.go_back();
    assert_eq!(h, before);
    h.go_forward();
    assert_eq!(h, before);
}

#[test]
fn replace_keeps_history() {
    let mut h = start();
    h.push("/a".to_string());
    h.replace("/z".to_string());
    assert_eq!(h.current_route(), "/z");
    h.go_back();
    assert_eq!(h.current_route(), "/");
    assert_eq!(h.state.future, vec!["/z".to_string()]);
}

#[test]
fn external_urls() {
    let h = start();
    assert!(h.external("https://anytype.io"));
    assert!(h.external("http://x"));
    assert!(!h.external("/list/1"));
    assert!(!h.external("anytype://invite"));
    assert!(!h.include_prevent_default());
}

#[test]
fn forward_then_back_restores_state() {
    let mut h = start();
    h.push("/a".to_string());
    h.push("/b".to_string());
    h.go_back();
    h.go_back();
    let before = h.clone();
    h.go_forward();
    h.go_back();
    assert_eq!(h, before);
}
