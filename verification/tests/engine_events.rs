use rashamon::adblock::AdblockEngine;
use rashamon::core_driver::{apply_engine_event, SaveDirty};
use rashamon::platform::pick_mode;
use rashamon::permissions::PermissionKind;
use rashamon::renderer::{
    accept_replies, navigation_block, pack_snapshot, CursorKind, EngineEvent, EngineReply,
    OriginBlockTable, TabReplyState,
};
use rashamon::ui_state::{BrowserState, HoveredRegion, PageState};

fn clean(s: &mut BrowserState) {
    s.dirty.tabs = false;
    s.dirty.chrome = false;
    s.dirty.content = false;
}

#[test]
fn title_for_tab_zero_goes_to_the_active_tab() {
    let mut s = BrowserState::new();
    clean(&mut s);
    let mut save = SaveDirty::default();
    let c = apply_engine_event(&mut s, &mut save, 0, EngineEvent::TitleChanged("Hello".to_string()));
    assert_eq!(c, None);
    assert_eq!(s.tabs[0].title, "Hello");
    assert!(s.dirty.chrome && !s.dirty.tabs);
}

#[test]
fn title_for_a_background_tab_repaints_the_strip() {
    let mut s = BrowserState::new();
    s.open_new_tab();
    let first = s.tabs[0].id.raw() as u64;
    clean(&mut s);
    let mut save = SaveDirty::default();
    apply_engine_event(&mut s, &mut save, first, EngineEvent::TitleChanged("Bg".to_string()));
    assert_eq!(s.tabs[0].title, "Bg");
    assert!(s.dirty.tabs && !s.dirty.chrome);
    // An unknown tab changes no tab.
    apply_engine_event(&mut s, &mut save, 999, EngineEvent::TitleChanged("X".to_string()));
    assert!(s.tabs.iter().all(|t| t.title != "X"));
}

#[test]
fn url_updates_the_address_bar_unless_it_is_edited() {
    let mut s = BrowserState::new();
    let mut save = SaveDirty::default();
    apply_engine_event(&mut s, &mut save, 0, EngineEvent::UrlChanged("https://a.org/".to_string()));
    assert_eq!(s.tabs[0].url, "https://a.org/");
    assert_eq!(s.address_bar_input, "https://a.org/");
    s.focus_address_bar();
    let typed = s.address_bar_input.clone();
    apply_engine_event(&mut s, &mut save, 0, EngineEvent::UrlChanged("https://b.org/".to_string()));
    assert_eq!(s.tabs[0].url, "https://b.org/");
    assert_eq!(s.address_bar_input, typed);
}

#[test]
fn load_started_completed_and_failed() {
    let mut s = BrowserState::new();
    s.frame_count = 42;
    let mut save = SaveDirty::default();
    apply_engine_event(&mut s, &mut save, 0, EngineEvent::LoadStarted);
    assert!(s.tabs[0].page_state.is_loading());
    assert_eq!(s.tabs[0].load_start_frame, 42);
    apply_engine_event(&mut s, &mut save, 0, EngineEvent::LoadComplete);
    assert_eq!(s.tabs[0].page_state, PageState::Loaded);
    assert!(save.history);
    apply_engine_event(&mut s, &mut save, 0, EngineEvent::LoadStarted);
    apply_engine_event(&mut s, &mut save, 0, EngineEvent::LoadFailed("boom".to_string()));
    assert_eq!(s.tabs[0].page_state, PageState::Error("boom".to_string()));
    // A failure for a tab that is not loading changes nothing.
    apply_engine_event(&mut s, &mut save, 0, EngineEvent::LoadFailed("again".to_string()));
    assert_eq!(s.tabs[0].page_state, PageState::Error("boom".to_string()));
}

#[test]
fn cursor_changes_only_over_the_page() {
    let mut s = BrowserState::new();
    let mut save = SaveDirty::default();
    s.hovered_region = HoveredRegion::NavBack;
    assert_eq!(apply_engine_event(&mut s, &mut save, 0, EngineEvent::CursorChanged(CursorKind::Pointer)), None);
    s.hovered_region = HoveredRegion::ContentArea;
    assert_eq!(
        apply_engine_event(&mut s, &mut save, 0, EngineEvent::CursorChanged(CursorKind::Pointer)),
        Some(CursorKind::Pointer)
    );
}

fn st(tab_id: u64, expected_nav_id: u64, latest_frame_gen: u64) -> TabReplyState {
    TabReplyState { tab_id, expected_nav_id, latest_frame_gen }
}

fn frame(tab_id: u64, nav_id: u64, gen: u64) -> EngineReply {
    EngineReply::FrameReady {
        tab_id,
        nav_id,
        gen,
        reason: "load".to_string(),
        title: "T".to_string(),
        url: "https://a.org/".to_string(),
    }
}

#[test]
fn stale_navigation_replies_are_dropped() {
    let mut tabs = vec![st(1, 5, 0)];
    let ev = accept_replies(
        &mut tabs,
        vec![
            EngineReply::TitleChanged { tab_id: 1, nav_id: 4, title: "old".to_string() },
            EngineReply::TitleChanged { tab_id: 1, nav_id: 5, title: "new".to_string() },
            EngineReply::TitleChanged { tab_id: 1, nav_id: 0, title: "any".to_string() },
            EngineReply::LoadFailed { tab_id: 1, nav_id: 3, reason: "x".to_string() },
        ],
    );
    assert_eq!(
        ev,
        vec![
            (1, EngineEvent::TitleChanged("new".to_string())),
            (1, EngineEvent::TitleChanged("any".to_string())),
        ]
    );
}

#[test]
fn frames_are_kept_in_generation_order_for_known_tabs() {
    let mut tabs = vec![st(1, 0, 3)];
    let ev = accept_replies(&mut tabs, vec![frame(1, 0, 2), frame(1, 0, 4), frame(1, 0, 3), frame(7, 0, 9)]);
    assert_eq!(
        ev,
        vec![
            (1, EngineEvent::TitleChanged("T".to_string())),
            (1, EngineEvent::UrlChanged("https://a.org/".to_string())),
            (1, EngineEvent::LoadComplete),
            (1, EngineEvent::FrameReady { reason: "load".to_string() }),
        ]
    );
    assert_eq!(tabs, vec![st(1, 0, 4)]);
}

#[test]
fn other_replies_pass_through() {
    let mut tabs = vec![];
    let ev = accept_replies(
        &mut tabs,
        vec![
            EngineReply::DownloadProgress { id: 2, received: 10, per_mille: 500 },
            EngineReply::PermissionPrompt {
                id: 1,
                tab_id: 3,
                nav_id: 8,
                origin: "https://a.org".to_string(),
                kind: PermissionKind::Camera,
            },
            EngineReply::TabSuspended { tab_id: 3 },
            EngineReply::TabWaking { tab_id: 3 },
            EngineReply::NavState { tab_id: 4, can_back: true, can_forward: false },
        ],
    );
    assert_eq!(
        ev,
        vec![
            (0, EngineEvent::DownloadProgress { id: 2, received: 10, per_mille: 500 }),
            (
                3,
                EngineEvent::PermissionPrompt {
                    id: 1,
                    origin: "https://a.org".to_string(),
                    kind: PermissionKind::Camera,
                    nav_id: 8
                }
            ),
            (3, EngineEvent::LoadStarted),
            (4, EngineEvent::NavStateChanged { can_back: true, can_forward: false }),
        ]
    );
    assert_eq!(tabs, vec![st(4, 0, 0)]);
}

#[test]
fn blocked_navigation_reports_a_load_failure_and_counts_the_origin() {
    let mut ab = AdblockEngine::new();
    let mut table = OriginBlockTable::new();
    let r = navigation_block(&mut ab, &mut table, 3, 9, "https://ads.doubleclick.net/x", "https://news.example/a", false);
    assert_eq!(
        r,
        Some(EngineReply::LoadFailed {
            tab_id: 3,
            nav_id: 9,
            reason: "Blocked by adblock (doubleclick.net)".to_string()
        })
    );
    assert_eq!(table.get("https://news.example").in_process_policy, 1);
    let ok = navigation_block(&mut ab, &mut table, 3, 10, "https://rust-lang.org/", "https://news.example/a", false);
    assert_eq!(ok, None);
    assert_eq!(table.get("https://news.example").in_process_policy, 1);
}

#[test]
fn snapshot_rows_are_packed_with_black_past_the_end() {
    // 2x2 pixels, rows 12 bytes apart (4 bytes of padding), second row cut short.
    let data: Vec<u8> = (0u8..20).collect();
    let p = pack_snapshot(&data, 2, 2, 12);
    assert_eq!(p, vec![0, 1, 2, 3, 4, 5, 6, 7, 12, 13, 14, 15, 16, 17, 18, 19]);
    let short = pack_snapshot(&data[..18], 2, 2, 12);
    assert_eq!(&short[12..], &[0, 0, 0, 255]);
}

#[test]
fn display_mode_prefers_the_requested_size() {
    let modes = [(2560u16, 1440u16), (1920, 1080), (1280, 720)];
    assert_eq!(pick_mode(&modes, 1920, 1080), Some(1));
    assert_eq!(pick_mode(&modes, 800, 600), Some(0));
    assert_eq!(pick_mode(&[], 1920, 1080), None);
}
