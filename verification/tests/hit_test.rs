use rashamon::hit_test::{
    hit_test_ui, in_rect, permission_kinds_ui, permission_prompt_hit_rects, permission_prompt_rect,
    site_info_adblock_rect, site_info_permission_rects, site_info_rect, HitOverlays,
    PromptOnScreen, UiHitTarget,
};
use rashamon::permissions::{PermissionDecision, PermissionKind};
use rashamon::ui_state::{BrowserState, TabId};

fn plain() -> HitOverlays {
    HitOverlays {
        prompt: None,
        active_nav_id: 0,
        site_info: None,
        find_open: false,
        overlay_open: false,
    }
}

#[test]
fn in_rect_includes_left_and_top_edges_only() {
    let r = (10, 20, 5, 4);
    assert!(in_rect(10, 20, r));
    assert!(in_rect(14, 23, r));
    assert!(!in_rect(15, 20, r));
    assert!(!in_rect(10, 24, r));
    assert!(!in_rect(9, 20, r));
}

#[test]
fn fixed_rectangles() {
    assert_eq!(permission_prompt_rect(), (24, 102, 560, 88));
    assert_eq!(
        permission_prompt_hit_rects(),
        ((42, 158, 150, 22), (404, 154, 72, 26), (488, 154, 72, 26))
    );
    assert_eq!(site_info_rect(), (610, 90, 560, 292));
    assert_eq!(site_info_adblock_rect(), (980, 348, 166, 24));
    assert_eq!(
        site_info_permission_rects(1),
        [
            (PermissionDecision::Ask, (910, 228, 52, 22)),
            (PermissionDecision::Allow, (970, 228, 62, 22)),
            (PermissionDecision::Deny, (1040, 228, 56, 22)),
        ]
    );
    assert_eq!(
        permission_kinds_ui(),
        [
            PermissionKind::Notifications,
            PermissionKind::Geolocation,
            PermissionKind::Camera,
            PermissionKind::Microphone,
            PermissionKind::Clipboard,
        ]
    );
}

#[test]
fn tab_strip_targets() {
    let s = BrowserState::new();
    let ov = plain();
    let tw = s.tab_width;
    assert_eq!(tw, 180);
    assert_eq!(hit_test_ui(&s, &ov, 8, 10), UiHitTarget::Tab(TabId(1)));
    assert_eq!(hit_test_ui(&s, &ov, 8 + tw - 19, 10), UiHitTarget::Tab(TabId(1)));
    assert_eq!(hit_test_ui(&s, &ov, 8 + tw - 18, 10), UiHitTarget::CloseTab(TabId(1)));
    assert_eq!(hit_test_ui(&s, &ov, 8 + tw - 1, 10), UiHitTarget::CloseTab(TabId(1)));
    // The separator between the tab and the new-tab button.
    assert_eq!(hit_test_ui(&s, &ov, 8 + tw, 10), UiHitTarget::NoTarget);
    assert_eq!(hit_test_ui(&s, &ov, 190, 10), UiHitTarget::NewTabButton);
    assert_eq!(hit_test_ui(&s, &ov, 225, 10), UiHitTarget::NewTabButton);
    assert_eq!(hit_test_ui(&s, &ov, 226, 10), UiHitTarget::NoTarget);
    assert_eq!(hit_test_ui(&s, &ov, 3, 10), UiHitTarget::NoTarget);
}

#[test]
fn second_tab_is_found_after_the_first() {
    let mut s = BrowserState::new();
    s.open_new_tab();
    let ov = plain();
    let tw = s.tab_width;
    let second = s.tabs[1].id;
    assert_eq!(hit_test_ui(&s, &ov, 8 + tw + 2, 5), UiHitTarget::Tab(second));
    assert_eq!(hit_test_ui(&s, &ov, 8 + tw + 1, 5), UiHitTarget::NoTarget);
}

#[test]
fn chrome_bar_targets() {
    let s = BrowserState::new();
    let mut ov = plain();
    assert_eq!(hit_test_ui(&s, &ov, 20, 60), UiHitTarget::BackButton);
    assert_eq!(hit_test_ui(&s, &ov, 60, 60), UiHitTarget::ForwardButton);
    assert_eq!(hit_test_ui(&s, &ov, 100, 60), UiHitTarget::ReloadButton);
    assert_eq!(hit_test_ui(&s, &ov, 615, 50), UiHitTarget::SiteInfoButton);
    assert_eq!(hit_test_ui(&s, &ov, 1300, 50), UiHitTarget::BookmarkButton);
    assert_eq!(hit_test_ui(&s, &ov, 900, 50), UiHitTarget::AddressBar);
    assert_eq!(hit_test_ui(&s, &ov, 900, 44), UiHitTarget::NoTarget);
    assert_eq!(hit_test_ui(&s, &ov, 500, 60), UiHitTarget::NoTarget);
    assert_eq!(hit_test_ui(&s, &ov, 1850, 50), UiHitTarget::NoTarget);
    ov.find_open = true;
    assert_eq!(hit_test_ui(&s, &ov, 1850, 50), UiHitTarget::FindClose);
}

#[test]
fn new_tab_page_targets() {
    let s = BrowserState::new();
    let ov = plain();
    assert_eq!(hit_test_ui(&s, &ov, 700, 500), UiHitTarget::NewTabSearch);
    assert_eq!(
        hit_test_ui(&s, &ov, 570, 630),
        UiHitTarget::QuickLink("https://github.com".to_string())
    );
    assert_eq!(
        hit_test_ui(&s, &ov, 560 + 136 + 5, 700),
        UiHitTarget::QuickLink("https://news.ycombinator.com".to_string())
    );
    assert_eq!(
        hit_test_ui(&s, &ov, 560 + 5 * 136, 726),
        UiHitTarget::QuickLink("https://crates.io".to_string())
    );
    // The gap between two links, and below the row.
    assert_eq!(hit_test_ui(&s, &ov, 560 + 125, 630), UiHitTarget::Content);
    assert_eq!(hit_test_ui(&s, &ov, 570, 727), UiHitTarget::Content);
}

#[test]
fn overlay_list_takes_content_clicks() {
    let s = BrowserState::new();
    let mut ov = plain();
    ov.overlay_open = true;
    assert_eq!(hit_test_ui(&s, &ov, 700, 500), UiHitTarget::OverlayActivate);
    assert_eq!(hit_test_ui(&s, &ov, 20, 60), UiHitTarget::BackButton);
}

#[test]
fn error_page_retry_button() {
    let mut s = BrowserState::new();
    let _ = s.begin_navigate("https://example.com");
    s.fail_loading("connection refused");
    let ov = plain();
    assert_eq!(hit_test_ui(&s, &ov, 900, 670), UiHitTarget::ErrorRetry);
    assert_eq!(hit_test_ui(&s, &ov, 700, 500), UiHitTarget::Content);
}

#[test]
fn current_prompt_takes_its_clicks() {
    let s = BrowserState::new();
    let mut ov = plain();
    ov.prompt = Some(PromptOnScreen { tab_id: 1, nav_id: 3 });
    ov.active_nav_id = 3;
    assert_eq!(hit_test_ui(&s, &ov, 50, 160), UiHitTarget::PermissionRememberToggle);
    assert_eq!(hit_test_ui(&s, &ov, 410, 160), UiHitTarget::PermissionDeny);
    assert_eq!(hit_test_ui(&s, &ov, 490, 160), UiHitTarget::PermissionAllow);
    assert_eq!(hit_test_ui(&s, &ov, 30, 110), UiHitTarget::PermissionPrompt);
    // Outside the prompt the page answers.
    assert_eq!(hit_test_ui(&s, &ov, 700, 500), UiHitTarget::NewTabSearch);
    // A prompt from an earlier navigation, or another tab, is not current.
    ov.active_nav_id = 4;
    assert_eq!(hit_test_ui(&s, &ov, 30, 110), UiHitTarget::Content);
    ov.active_nav_id = 3;
    ov.prompt = Some(PromptOnScreen { tab_id: 2, nav_id: 3 });
    assert_eq!(hit_test_ui(&s, &ov, 30, 110), UiHitTarget::Content);
}

#[test]
fn site_info_panel_targets() {
    let s = BrowserState::new();
    let mut ov = plain();
    ov.site_info = Some(Some("https://example.com".to_string()));
    assert_eq!(
        hit_test_ui(&s, &ov, 915, 200),
        UiHitTarget::SitePermission {
            permission: PermissionKind::Notifications,
            decision: PermissionDecision::Ask,
        }
    );
    assert_eq!(
        hit_test_ui(&s, &ov, 975, 230),
        UiHitTarget::SitePermission {
            permission: PermissionKind::Geolocation,
            decision: PermissionDecision::Allow,
        }
    );
    assert_eq!(
        hit_test_ui(&s, &ov, 1045, 320),
        UiHitTarget::SitePermission {
            permission: PermissionKind::Clipboard,
            decision: PermissionDecision::Deny,
        }
    );
    assert_eq!(hit_test_ui(&s, &ov, 985, 350), UiHitTarget::SiteAdblockToggle);
    assert_eq!(hit_test_ui(&s, &ov, 620, 95), UiHitTarget::SiteInfoPanel);
    // Between two rows.
    assert_eq!(hit_test_ui(&s, &ov, 915, 222), UiHitTarget::SiteInfoPanel);
    // Above the panel the tab strip answers.
    assert_eq!(hit_test_ui(&s, &ov, 900, 10), UiHitTarget::NoTarget);
    ov.site_info = Some(None);
    assert_eq!(hit_test_ui(&s, &ov, 915, 200), UiHitTarget::SiteInfoPanel);
    assert_eq!(hit_test_ui(&s, &ov, 985, 350), UiHitTarget::SiteInfoPanel);
}
