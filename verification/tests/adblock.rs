use rashamon::adblock::AdblockEngine;

#[test]
fn blocks_default_domain_and_subdomain() {
    let mut engine = AdblockEngine::new();
    let (blocked, reason) = engine.should_block("https://ad.doubleclick.net/page", "");
    assert!(blocked);
    assert_eq!(reason.as_deref(), Some("doubleclick.net"));
}

#[test]
fn supports_path_substring_rule() {
    let mut engine = AdblockEngine::new();
    let (blocked, reason) = engine.should_block("https://www.facebook.com/tr?id=1", "");
    assert!(blocked);
    assert_eq!(reason.as_deref(), Some("facebook.com/tr"));
}

#[test]
fn allowlist_domain_overrides_block_rule() {
    let mut engine = AdblockEngine::new();
    engine.allowlist_domain("doubleclick.net");
    let (blocked, _) = engine.should_block("https://ad.doubleclick.net/page", "");
    assert!(!blocked);
}

#[test]
fn private_allowlist_is_session_only() {
    let mut engine = AdblockEngine::new();
    engine.allowlist_domain_for_context("doubleclick.net", true);
    let (private_blocked, _) =
        engine.should_block_for_context("https://ad.doubleclick.net/page", "", true);
    let (normal_blocked, _) =
        engine.should_block_for_context("https://ad.doubleclick.net/page", "", false);
    assert!(!private_blocked);
    assert!(normal_blocked);
}

#[test]
fn exports_structured_effective_rules() {
    let mut engine = AdblockEngine::new();
    engine.allowlist_domain("https://example.com:443/path");
    engine.allowlist_domain_for_context("session.example", true);
    engine.set_enabled(false);

    let normal = engine.export_rule_payload_for_context(false);
    assert_eq!(normal.version, 1);
    assert!(!normal.enabled);
    assert!(normal.blocked_domains.iter().any(|d| d == "doubleclick.net"));
    assert!(normal.blocked_substrings.iter().any(|p| p == "facebook.com/tr"));
    assert_eq!(normal.allowlist_domains, vec!["example.com".to_string()]);

    let private = engine.export_rule_payload_for_context(true);
    assert_eq!(
        private.allowlist_domains,
        vec!["example.com".to_string(), "session.example".to_string()]
    );

    let text = private.to_sync_text();
    assert!(text.starts_with("version=1\nenabled=0\n"));
    assert!(text.contains("block-domain=doubleclick.net\n"));
    assert!(text.contains("block-substring=facebook.com/tr\n"));
    assert!(text.contains("allow-domain=session.example\n"));
}

#[test]
fn persisted_allowlist_roundtrips_and_bad_file_is_empty() {
    let mut engine = AdblockEngine::new();
    engine.allowlist_domain("doubleclick.net");
    let saved = engine.allowlist_json();

    let mut loaded = AdblockEngine::new();
    loaded.load_allowlist_from_text(&saved);
    let (blocked, _) = loaded.should_block("https://ad.doubleclick.net/page", "");
    assert!(!blocked);

    let mut bad = AdblockEngine::new();
    bad.load_allowlist_from_text("{not-json");
    let (blocked, _) = bad.should_block("https://ad.doubleclick.net/page", "");
    assert!(blocked);
}

#[test]
fn disabled_engine_blocks_nothing_but_counts() {
    let mut engine = AdblockEngine::new();
    assert!(engine.is_enabled());
    engine.set_enabled(false);
    let (blocked, reason) = engine.should_block("https://ad.doubleclick.net/page", "");
    assert!(!blocked);
    assert_eq!(reason, None);
    assert_eq!(engine.total_count(), 1);
    assert_eq!(engine.blocked_count(), 0);
}

#[test]
fn counters_track_checked_and_blocked_requests() {
    let mut engine = AdblockEngine::new();
    engine.should_block("https://ad.doubleclick.net/page", "");
    engine.should_block("https://example.com/", "");
    assert_eq!((engine.blocked_count(), engine.total_count()), (1, 2));
}

#[test]
fn toggling_twice_restores_blocking() {
    let mut engine = AdblockEngine::new();
    engine.toggle_rule("example.org");
    assert!(engine.should_block("https://www.example.org/", "").0);
    engine.toggle_rule(" Example.ORG ");
    assert!(!engine.should_block("https://www.example.org/", "").0);
}

#[test]
fn removing_an_allowlisted_domain_blocks_again() {
    let mut engine = AdblockEngine::new();
    engine.allowlist_domain("https://DoubleClick.net/x");
    assert!(engine.is_allowlisted_domain("doubleclick.net", false));
    assert_eq!(engine.allowlist_entries(), vec!["doubleclick.net".to_string()]);
    engine.remove_allowlist_domain("doubleclick.net");
    assert!(!engine.is_allowlisted_domain("doubleclick.net", false));
    assert!(engine.should_block("https://ad.doubleclick.net/page", "").0);
}

#[test]
fn allowlisted_origin_lets_its_requests_through() {
    let mut engine = AdblockEngine::new();
    engine.allowlist_domain("news.example");
    let (blocked, _) = engine.should_block("https://ad.doubleclick.net/page", "https://news.example/");
    assert!(!blocked);
}

#[test]
fn rule_text_is_loaded_line_by_line() {
    let mut engine = AdblockEngine::new();
    engine.load_rules_from_text("! comment\n\ntracker.example\nexample.com/pixel\n@@doubleclick.net\n");
    assert_eq!(
        engine.should_block("https://cdn.tracker.example/a.js", "").1.as_deref(),
        Some("tracker.example")
    );
    assert_eq!(
        engine.should_block("https://example.com/pixel?id=1", "").1.as_deref(),
        Some("example.com/pixel")
    );
    assert!(!engine.should_block("https://ad.doubleclick.net/page", "").0);
}

#[test]
fn allowlist_file_is_a_sorted_json_array() {
    let mut engine = AdblockEngine::new();
    engine.allowlist_domain("b.example");
    engine.allowlist_domain("a.example");
    assert_eq!(engine.allowlist_json(), "[\n  \"a.example\",\n  \"b.example\"\n]\n");
}

#[test]
fn default_engine_has_twenty_three_rules() {
    let e = AdblockEngine::new();
    let p = e.export_rule_payload_for_context(false);
    assert_eq!(p.blocked_domains.len() + p.blocked_substrings.len(), 23);
    assert_eq!(p.blocked_substrings, vec!["facebook.com/tr".to_string()]);
    assert!(p.enabled);
    assert!(p.allowlist_domains.is_empty());
    assert_eq!(e.blocked_count(), 0);
    assert_eq!(e.total_count(), 0);
    assert!(p.blocked_domains.iter().any(|d| d == "mixpanel.com"));
}

#[test]
fn added_default_domains_block_subdomains() {
    let mut e = AdblockEngine::new();
    let (blocked, reason) = e.should_block("https://static.criteo.com/js/ld.js", "https://news.example");
    assert!(blocked);
    assert_eq!(reason.as_deref(), Some("criteo.com"));
}
