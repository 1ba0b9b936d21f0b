use rashamon::permissions::{
    origin_from_url, DecisionSource, PermissionDecision, PermissionKind, PermissionStore,
};

#[test]
fn origin_preserves_scheme_and_host() {
    assert_eq!(
        origin_from_url("https://Example.com/path"),
        Some("https://example.com".into())
    );
    assert_eq!(
        origin_from_url("http://example.com:8080/a"),
        Some("http://example.com:8080".into())
    );
    assert_ne!(
        origin_from_url("http://example.com"),
        origin_from_url("https://example.com")
    );
}

#[test]
fn malformed_file_loads_empty() {
    let store = PermissionStore::load_from_text("perms.json".to_string(), "{not-json");
    assert!(store.entries().is_empty());
}

#[test]
fn origin_rejects_text_without_scheme() {
    assert_eq!(origin_from_url("example.com/path"), None);
    assert_eq!(origin_from_url(""), None);
}

#[test]
fn kind_and_decision_names_roundtrip() {
    for k in [
        PermissionKind::Notifications,
        PermissionKind::Clipboard,
        PermissionKind::Geolocation,
        PermissionKind::Camera,
        PermissionKind::Microphone,
    ] {
        assert_eq!(PermissionKind::from_str(k.as_str()), Some(k));
    }
    for d in [PermissionDecision::Allow, PermissionDecision::Deny, PermissionDecision::Ask] {
        assert_eq!(PermissionDecision::from_str(d.as_str()), Some(d));
    }
    assert_eq!(PermissionKind::Camera.as_str(), "camera");
    assert_eq!(PermissionDecision::Deny.as_str(), "deny");
    assert_eq!(PermissionKind::from_str("webcam"), None);
}

#[test]
fn default_decision_is_ask() {
    let store = PermissionStore::new("p.json".to_string());
    assert_eq!(
        store.get("https://a.example", PermissionKind::Camera, false),
        (PermissionDecision::Ask, DecisionSource::Default)
    );
    assert_eq!(store.path(), "p.json");
}

#[test]
fn get_after_set_returns_decision() {
    let mut store = PermissionStore::new("p.json".to_string());
    store.set("https://a.example", PermissionKind::Camera, PermissionDecision::Allow, false);
    assert_eq!(
        store.get("https://a.example", PermissionKind::Camera, false),
        (PermissionDecision::Allow, DecisionSource::Persisted)
    );
    assert_eq!(
        store.get("https://a.example", PermissionKind::Microphone, false),
        (PermissionDecision::Ask, DecisionSource::Default)
    );
    store.set("https://a.example", PermissionKind::Camera, PermissionDecision::Deny, false);
    assert_eq!(
        store.get("https://a.example", PermissionKind::Camera, false).0,
        PermissionDecision::Deny
    );
    assert_eq!(store.entries().len(), 1);
}

#[test]
fn private_decisions_stay_in_session() {
    let mut store = PermissionStore::new("p.json".to_string());
    store.set("https://a.example", PermissionKind::Geolocation, PermissionDecision::Allow, true);
    assert_eq!(
        store.get("https://a.example", PermissionKind::Geolocation, true),
        (PermissionDecision::Allow, DecisionSource::Session)
    );
    assert_eq!(
        store.get("https://a.example", PermissionKind::Geolocation, false),
        (PermissionDecision::Ask, DecisionSource::Default)
    );
    assert!(store.entries().is_empty());
}

#[test]
fn entries_are_sorted_by_origin_then_kind() {
    let mut store = PermissionStore::new("p.json".to_string());
    store.set("https://b.example", PermissionKind::Camera, PermissionDecision::Allow, false);
    store.set("https://a.example", PermissionKind::Microphone, PermissionDecision::Deny, false);
    store.set("https://a.example", PermissionKind::Camera, PermissionDecision::Ask, false);
    let e = store.entries();
    let keys: Vec<(String, &str)> = e.iter().map(|x| (x.origin.clone(), x.kind.as_str())).collect();
    assert_eq!(
        keys,
        vec![
            ("https://a.example".to_string(), "camera"),
            ("https://a.example".to_string(), "microphone"),
            ("https://b.example".to_string(), "camera"),
        ]
    );
}

#[test]
fn persisted_json_format_and_reload() {
    let mut store = PermissionStore::new("p.json".to_string());
    store.set("https://a.example", PermissionKind::Camera, PermissionDecision::Allow, false);
    let text = store.persisted_json();
    assert_eq!(
        text,
        "[\n  {\"origin\": \"https://a.example\", \"permission\": \"camera\", \"decision\": \"allow\"}\n]\n"
    );
    let loaded = PermissionStore::load_from_text("p.json".to_string(), &text);
    assert_eq!(
        loaded.get("https://a.example", PermissionKind::Camera, false),
        (PermissionDecision::Allow, DecisionSource::Persisted)
    );
    assert_eq!(loaded.entries().len(), 1);
}

#[test]
fn load_skips_unknown_entries() {
    let text = "[{\"origin\": \"https://x.example\", \"permission\": \"teleport\", \"decision\": \"allow\"},\n {\"origin\": \"https://x.example\", \"permission\": \"clipboard\", \"decision\": \"deny\"}]";
    let loaded = PermissionStore::load_from_text("p.json".to_string(), text);
    assert_eq!(loaded.entries().len(), 1);
    assert_eq!(
        loaded.get("https://x.example", PermissionKind::Clipboard, false).0,
        PermissionDecision::Deny
    );
}
