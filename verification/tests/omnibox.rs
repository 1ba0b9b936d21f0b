use rashamon::omnibox::{
    classify_input, default_provider, match_history_bookmarks, resolve, InputKind, InternalRoute,
    MatchEntry, OmniboxResult,
};

#[test]
fn explicit_scheme_is_a_url() {
    assert_eq!(
        classify_input("  https://example.com/a b "),
        InputKind::Url("https://example.com/a b".to_string())
    );
    assert_eq!(classify_input("data:text/plain,hi"), InputKind::Url("data:text/plain,hi".to_string()));
}

#[test]
fn internal_routes_are_case_insensitive() {
    assert_eq!(classify_input("About:History"), InputKind::Internal(InternalRoute::History));
    assert_eq!(classify_input("about:blank"), InputKind::Internal(InternalRoute::Blank));
    assert_eq!(classify_input("ABOUT:BOOKMARKS"), InputKind::Internal(InternalRoute::Bookmarks));
    assert_eq!(classify_input("about:config"), InputKind::Url("about:config".to_string()));
}

#[test]
fn localhost_and_ipv4_get_http() {
    assert_eq!(classify_input("localhost:3000"), InputKind::Url("http://localhost:3000".to_string()));
    assert_eq!(classify_input("LocalHost"), InputKind::Url("http://LocalHost".to_string()));
    assert_eq!(
        classify_input("192.168.1.1:8080/x"),
        InputKind::Url("http://192.168.1.1:8080/x".to_string())
    );
    assert_eq!(classify_input("256.1.1.1"), InputKind::Url("https://256.1.1.1".to_string()));
}

#[test]
fn dotted_words_become_https_urls() {
    assert_eq!(classify_input("example.com"), InputKind::Url("https://example.com".to_string()));
    assert_eq!(classify_input(".hidden"), InputKind::Search(".hidden".to_string()));
    assert_eq!(classify_input("end."), InputKind::Search("end.".to_string()));
    assert_eq!(classify_input("rust lang.org"), InputKind::Search("rust lang.org".to_string()));
    assert_eq!(classify_input("   "), InputKind::Search(String::new()));
}

#[test]
fn search_url_is_percent_encoded() {
    let p = default_provider();
    assert_eq!(p.name, "DuckDuckGo");
    assert_eq!(p.build_url("rust verus"), "https://duckduckgo.com/?q=rust+verus");
    assert_eq!(p.build_url("a&b=c~"), "https://duckduckgo.com/?q=a%26b%3Dc~");
    assert_eq!(p.build_url("é"), "https://duckduckgo.com/?q=%C3%A9");
}

#[test]
fn bookmarks_match_before_history() {
    let bms = [MatchEntry { url: "https://servo.org", title: "Servo" }];
    let hist = [
        MatchEntry { url: "https://example.com/servo", title: "x" },
        MatchEntry { url: "https://rust-lang.org", title: "Rust" },
    ];
    assert_eq!(
        match_history_bookmarks("SERVO", &bms, &hist),
        Some("https://servo.org".to_string())
    );
    assert_eq!(
        match_history_bookmarks("rust", &bms, &hist),
        Some("https://rust-lang.org".to_string())
    );
    assert_eq!(match_history_bookmarks("zzz", &bms, &hist), None);
    assert_eq!(match_history_bookmarks("", &bms, &hist), None);
}

#[test]
fn resolve_routes_each_kind() {
    let p = default_provider();
    let bms = [MatchEntry { url: "https://servo.org", title: "Servo" }];
    let hist: [MatchEntry; 0] = [];
    assert!(matches!(resolve("servo", &bms, &hist, &p), OmniboxResult::Navigate(u) if u == "https://servo.org"));
    assert!(matches!(resolve("hello world", &bms, &hist, &p), OmniboxResult::Navigate(u) if u == "https://duckduckgo.com/?q=hello+world"));
    assert!(matches!(resolve("about:history", &bms, &hist, &p), OmniboxResult::OpenOverlay(InternalRoute::History)));
    assert!(matches!(resolve("example.org", &bms, &hist, &p), OmniboxResult::Navigate(u) if u == "https://example.org"));
    assert!(matches!(resolve("  ", &bms, &hist, &p), OmniboxResult::Nothing));
}
