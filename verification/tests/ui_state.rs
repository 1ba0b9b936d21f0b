use rashamon::layout::{TAB_BAR_HEIGHT, TAB_START_X};
use rashamon::theme::ColorPalette;
use rashamon::ui_state::{
    derive_title, BrowserState, HoveredRegion, NavResult, PageState, QuickLink, TabId, TabState,
};

#[test]
fn new_state_has_one_blank_tab_and_default_links() {
    let s = BrowserState::new();
    assert_eq!(s.tabs.len(), 1);
    assert_eq!(s.active_tab_id, TabId(1));
    assert!(s.active_tab().unwrap().page_state.is_new_tab());
    assert!(s.is_on_new_tab());
    assert_eq!(s.bookmarks.len(), 6);
    assert_eq!(s.bookmarks[0].url, "https://github.com");
    assert_eq!(s.bookmarks[0].first_upper, 'G');
    assert!(!s.address_bar_focused);
    assert!(s.dirty.any());
}

#[test]
fn derive_title_strips_scheme_www_and_path() {
    assert_eq!(derive_title("https://www.rust-lang.org/learn"), "rust-lang.org");
    assert_eq!(derive_title("http://example.com"), "example.com");
    assert_eq!(derive_title(""), "New Tab");
}

#[test]
fn begin_navigate_then_commit_loads_page() {
    let mut s = BrowserState::new();
    let r = s.begin_navigate("https://example.com/a");
    assert_eq!(r.as_deref(), Some("https://example.com/a"));
    let t = s.active_tab().unwrap();
    assert!(t.page_state.is_loading());
    assert_eq!(t.nav_result, NavResult::WillLoad);
    assert_eq!(t.title, "example.com");
    s.commit_navigation();
    let t = s.active_tab().unwrap();
    assert_eq!(t.page_state, PageState::Loaded);
    assert_eq!(t.history.len(), 1);
    assert_eq!(t.history_index, 0);
    assert_eq!(t.last_committed_url, "https://example.com/a");
}

#[test]
fn unsupported_address_goes_straight_to_error() {
    let mut s = BrowserState::new();
    assert_eq!(s.begin_navigate("file:///etc/passwd"), None);
    let t = s.active_tab().unwrap();
    assert_eq!(
        t.page_state.error_msg(),
        Some("Local file access is not yet supported")
    );
    assert_eq!(s.begin_navigate("about:blank"), None);
    assert_eq!(
        s.active_tab().unwrap().page_state.error_msg(),
        Some("Browser-internal addresses are not supported")
    );
    assert_eq!(s.begin_navigate("ftp://x"), None);
    assert_eq!(
        s.active_tab().unwrap().page_state.error_msg(),
        Some("Unsupported address format")
    );
}

#[test]
fn empty_navigation_changes_nothing() {
    let mut s = BrowserState::new();
    assert_eq!(s.begin_navigate(""), None);
    assert!(s.active_tab().unwrap().page_state.is_new_tab());
}

#[test]
fn back_then_forward_returns_to_page() {
    let mut s = BrowserState::new();
    s.begin_navigate("https://a.example/");
    s.resolve_loading("Page A".to_string());
    s.begin_navigate("https://b.example/");
    s.resolve_loading(String::new());
    let t = s.active_tab().unwrap();
    assert_eq!(t.history.len(), 2);
    assert_eq!(t.title, "b.example");
    assert!(t.can_go_back());
    assert!(!t.can_go_forward());

    assert_eq!(s.go_back(), None);
    let t = s.active_tab().unwrap();
    assert_eq!(t.url, "https://a.example/");
    assert_eq!(t.title, "Page A");
    assert!(t.can_go_forward());

    assert_eq!(s.go_forward(), None);
    let t = s.active_tab().unwrap();
    assert_eq!(t.url, "https://b.example/");
    assert_eq!(t.history_index, 1);
}

#[test]
fn go_back_without_history_is_a_no_op() {
    let mut s = BrowserState::new();
    assert_eq!(s.go_back(), None);
    assert_eq!(s.go_forward(), None);
    assert!(s.active_tab().unwrap().page_state.is_new_tab());
}

#[test]
fn fail_loading_shows_error_message() {
    let mut s = BrowserState::new();
    s.begin_navigate("https://down.example/");
    s.fail_loading("connection refused");
    let t = s.active_tab().unwrap();
    assert!(t.page_state.is_error());
    assert_eq!(t.page_state.error_msg(), Some("connection refused"));
}

#[test]
fn reload_restarts_committed_page() {
    let mut s = BrowserState::new();
    assert_eq!(s.reload(), None);
    s.begin_navigate("https://a.example/");
    s.commit_navigation();
    assert_eq!(s.reload().as_deref(), Some("https://a.example/"));
    assert!(s.active_tab().unwrap().page_state.is_loading());
}

#[test]
fn typing_and_backspace_edit_address_bar() {
    let mut s = BrowserState::new();
    s.focus_address_bar();
    assert!(s.address_bar_focused);
    s.type_char('a');
    s.type_char('é');
    assert_eq!(s.address_bar_input, "aé");
    s.type_backspace();
    assert_eq!(s.address_bar_input, "a");
    s.cancel_address_bar_edit();
    assert!(!s.address_bar_focused);
    assert_eq!(s.address_bar_input, "");
}

#[test]
fn open_activate_and_close_tabs() {
    let mut s = BrowserState::new();
    s.open_new_tab();
    assert_eq!(s.tabs.len(), 2);
    assert_eq!(s.active_tab_id, TabId(2));
    s.activate_tab(TabId(1));
    assert_eq!(s.active_tab_id, TabId(1));
    s.activate_tab(TabId(42));
    assert_eq!(s.active_tab_id, TabId(1));
    s.close_tab(TabId(1));
    assert_eq!(s.tabs.len(), 1);
    assert_eq!(s.active_tab_id, TabId(2));
    s.close_tab(TabId(2));
    assert_eq!(s.tabs.len(), 1);
    assert_eq!(s.active_tab_id, TabId(3));
    assert!(s.is_on_new_tab());
}

#[test]
fn closing_unknown_tab_changes_nothing() {
    let mut s = BrowserState::new();
    s.open_new_tab();
    s.close_tab(TabId(99));
    assert_eq!(s.tabs.len(), 2);
    assert_eq!(s.active_tab_id, TabId(2));
}

#[test]
fn toggle_bookmark_adds_then_removes() {
    let mut s = BrowserState::new();
    s.toggle_bookmark();
    assert_eq!(s.bookmarks.len(), 6);
    s.begin_navigate("https://a.example/");
    s.commit_navigation();
    s.toggle_bookmark();
    assert_eq!(s.bookmarks.len(), 7);
    assert_eq!(s.bookmarks[6].url, "https://a.example/");
    assert_eq!(s.bookmarks[6].first_upper, 'A');
    assert!(s.active_tab().unwrap().is_bookmarked);
    s.toggle_bookmark();
    assert_eq!(s.bookmarks.len(), 6);
    assert!(!s.active_tab().unwrap().is_bookmarked);
}

#[test]
fn cycle_theme_moves_to_next_palette() {
    let mut s = BrowserState::new();
    let before = s.palette;
    s.cycle_theme();
    assert_eq!(s.palette, before.cycle());
    assert_eq!(s.theme_version, 1);
    assert!(s.dirty.tabs && s.dirty.chrome && s.dirty.content);
}

#[test]
fn nav_button_released_after_twelve_frames() {
    let mut s = BrowserState::new();
    s.press_nav_btn(2);
    assert_eq!(s.nav_btn_pressed, 2);
    s.frame_count = 12;
    s.tick_nav_btn();
    assert_eq!(s.nav_btn_pressed, 2);
    s.frame_count = 13;
    s.tick_nav_btn();
    assert_eq!(s.nav_btn_pressed, 0);
}

#[test]
fn hover_tracks_regions() {
    let mut s = BrowserState::new();
    s.set_mouse_pos(TAB_START_X + 1, 5);
    assert_eq!(s.hovered_region, HoveredRegion::Tab(0));
    s.set_mouse_pos(14, TAB_BAR_HEIGHT + 10);
    assert_eq!(s.hovered_region, HoveredRegion::NavBack);
    s.set_mouse_pos(5, 5);
    assert_eq!(s.hovered_region, HoveredRegion::NoRegion);
    s.set_mouse_pos(100, 1000);
    assert_eq!(s.hovered_region, HoveredRegion::ContentArea);
}

#[test]
fn tab_title_reflects_page_state() {
    let t = TabState::new_tab(TabId(7));
    assert_eq!(t.tab_title(), "New Tab");
    assert_eq!(t.id.raw(), 7);
    assert!(!t.can_go_back());
}

#[test]
fn quick_link_uppercases_first_letter() {
    let q = QuickLink::new("servo", "https://servo.org");
    assert_eq!(q.first_upper, 'S');
    let e = QuickLink::new("", "x");
    assert_eq!(e.first_upper, '?');
    let _ = ColorPalette::KamelotDark;
}
