use rashamon::core_driver::{
    content_key_name, hit_action, hit_actions, key_decision, platform_event_commands,
    shell_cursor, tick_loading, BrowserAction, DriverCommand, KeyDecision, OverlayKind, SaveDirty,
};
use rashamon::hit_test::{HitOverlays, PromptOnScreen, UiHitTarget};
use rashamon::input::{BrowserKey, Modifiers, MouseButton, PlatformEvent};
use rashamon::permissions::{PermissionDecision, PermissionKind};
use rashamon::renderer::CursorKind;
use rashamon::ui_state::{BrowserState, PageState, TabId};

fn plain() -> HitOverlays {
    HitOverlays {
        prompt: None,
        active_nav_id: 0,
        site_info: None,
        find_open: false,
        overlay_open: false,
    }
}

fn mods(ctrl: bool, shift: bool) -> Modifiers {
    Modifiers { ctrl, shift, alt: false, meta: false }
}

fn key(s: &BrowserState, ov: &HitOverlays, k: BrowserKey, ctrl: bool, shift: bool) -> KeyDecision {
    key_decision(s, ov, k, ctrl, shift, 600, 10)
}

#[test]
fn save_dirty_any() {
    let mut d = SaveDirty::default();
    assert!(!d.any());
    d.history = true;
    assert!(d.any());
}

#[test]
fn shortcuts() {
    let s = BrowserState::new();
    let ov = plain();
    let act = |a| KeyDecision::Act(a);
    assert_eq!(key(&s, &ov, BrowserKey::Char('t'), true, false), act(BrowserAction::NewTab { private: false }));
    assert_eq!(key(&s, &ov, BrowserKey::Char('n'), true, true), act(BrowserAction::NewTab { private: true }));
    assert_eq!(key(&s, &ov, BrowserKey::Char('i'), true, false), act(BrowserAction::NewTab { private: true }));
    assert_eq!(key(&s, &ov, BrowserKey::Char('w'), true, false), act(BrowserAction::CloseActiveTab));
    assert_eq!(key(&s, &ov, BrowserKey::Char('r'), true, false), act(BrowserAction::Reload));
    assert_eq!(key(&s, &ov, BrowserKey::Char('s'), true, true), act(BrowserAction::ToggleSplitView));
    assert_eq!(
        key(&s, &ov, BrowserKey::Char('h'), true, false),
        act(BrowserAction::OpenOverlay(OverlayKind::History))
    );
    assert_eq!(
        key(&s, &ov, BrowserKey::Char('b'), true, false),
        act(BrowserAction::OpenOverlay(OverlayKind::Bookmarks))
    );
    assert_eq!(key(&s, &ov, BrowserKey::Char('f'), true, false), act(BrowserAction::FindOpen));
    assert_eq!(key(&s, &ov, BrowserKey::Char('l'), true, false), act(BrowserAction::FocusAddressBar));
    assert_eq!(key(&s, &ov, BrowserKey::Char('p'), true, false), act(BrowserAction::CycleTheme));
    assert_eq!(key(&s, &ov, BrowserKey::ZoomIn, true, false), act(BrowserAction::ZoomIn));
    assert_eq!(key(&s, &ov, BrowserKey::ZoomIn, false, false), KeyDecision::Ignore);
    // Ctrl+N and Ctrl+S without Shift do nothing on the page.
    assert_eq!(key(&s, &ov, BrowserKey::Char('n'), true, false), KeyDecision::Ignore);
    assert_eq!(key(&s, &ov, BrowserKey::Escape, false, false), act(BrowserAction::Quit));
}

#[test]
fn page_scrolling_keys() {
    let s = BrowserState::new();
    let ov = plain();
    assert_eq!(key(&s, &ov, BrowserKey::Up, false, false), KeyDecision::Act(BrowserAction::Scroll(-40)));
    assert_eq!(key(&s, &ov, BrowserKey::Down, false, false), KeyDecision::Act(BrowserAction::Scroll(40)));
    assert_eq!(key(&s, &ov, BrowserKey::PageUp, false, false), KeyDecision::Act(BrowserAction::Scroll(-600)));
    assert_eq!(key(&s, &ov, BrowserKey::PageDown, false, false), KeyDecision::Act(BrowserAction::Scroll(600)));
    assert_eq!(key(&s, &ov, BrowserKey::Char('x'), false, false), KeyDecision::Ignore);
}

#[test]
fn address_bar_keys() {
    let mut s = BrowserState::new();
    s.focus_address_bar();
    let ov = plain();
    assert_eq!(key(&s, &ov, BrowserKey::Char('x'), false, false), KeyDecision::Act(BrowserAction::AddressBarChar('x')));
    // Ctrl+N without Shift types the letter while the address bar is focused.
    assert_eq!(key(&s, &ov, BrowserKey::Char('n'), true, false), KeyDecision::Act(BrowserAction::AddressBarChar('n')));
    assert_eq!(key(&s, &ov, BrowserKey::Enter, false, false), KeyDecision::Act(BrowserAction::AddressBarSubmit));
    assert_eq!(key(&s, &ov, BrowserKey::Backspace, false, false), KeyDecision::Act(BrowserAction::AddressBarBackspace));
    assert_eq!(key(&s, &ov, BrowserKey::Escape, false, false), KeyDecision::Act(BrowserAction::AddressBarCancel));
    assert_eq!(key(&s, &ov, BrowserKey::Up, false, false), KeyDecision::Ignore);
}

#[test]
fn find_bar_keys() {
    let s = BrowserState::new();
    let mut ov = plain();
    ov.find_open = true;
    assert_eq!(key(&s, &ov, BrowserKey::Escape, false, false), KeyDecision::Act(BrowserAction::FindClose));
    assert_eq!(key(&s, &ov, BrowserKey::Enter, false, true), KeyDecision::Act(BrowserAction::FindPrevious));
    assert_eq!(key(&s, &ov, BrowserKey::Enter, false, false), KeyDecision::Act(BrowserAction::FindNext));
    assert_eq!(key(&s, &ov, BrowserKey::Backspace, false, false), KeyDecision::Act(BrowserAction::FindBackspace));
    assert_eq!(key(&s, &ov, BrowserKey::Char('f'), true, false), KeyDecision::ClearFind);
    assert_eq!(key(&s, &ov, BrowserKey::Char('q'), false, false), KeyDecision::Act(BrowserAction::FindChar('q')));
    assert_eq!(key(&s, &ov, BrowserKey::Char('t'), true, false), KeyDecision::Ignore);
    assert_eq!(key(&s, &ov, BrowserKey::Up, false, false), KeyDecision::Ignore);
}

#[test]
fn overlay_keys_and_prompt_escape() {
    let s = BrowserState::new();
    let mut ov = plain();
    ov.overlay_open = true;
    assert_eq!(key(&s, &ov, BrowserKey::Escape, false, false), KeyDecision::Act(BrowserAction::CloseOverlay));
    assert_eq!(key(&s, &ov, BrowserKey::Enter, false, false), KeyDecision::Act(BrowserAction::OverlayActivate));
    assert_eq!(key(&s, &ov, BrowserKey::Up, false, false), KeyDecision::Act(BrowserAction::OverlayMove(-1)));
    assert_eq!(key(&s, &ov, BrowserKey::PageUp, false, false), KeyDecision::Act(BrowserAction::OverlayScroll(-10)));
    assert_eq!(key(&s, &ov, BrowserKey::PageDown, false, false), KeyDecision::Act(BrowserAction::OverlayScroll(10)));
    assert_eq!(key(&s, &ov, BrowserKey::Char('a'), false, false), KeyDecision::Ignore);
    // Ctrl shortcuts pass through an overlay list.
    assert_eq!(key(&s, &ov, BrowserKey::Char('t'), true, false), KeyDecision::Act(BrowserAction::NewTab { private: false }));
    ov.prompt = Some(PromptOnScreen { tab_id: 1, nav_id: 0 });
    assert_eq!(key(&s, &ov, BrowserKey::Escape, false, false), KeyDecision::Act(BrowserAction::PermissionDeny));
    ov.overlay_open = false;
    ov.site_info = Some(None);
    assert_eq!(key(&s, &ov, BrowserKey::Enter, false, false), KeyDecision::Ignore);
    ov.prompt = None;
    assert_eq!(key(&s, &ov, BrowserKey::Escape, false, false), KeyDecision::Act(BrowserAction::CloseSiteInfo));
}

#[test]
fn content_key_names() {
    assert_eq!(content_key_name(BrowserKey::Left), Some("ArrowLeft"));
    assert_eq!(content_key_name(BrowserKey::PageDown), Some("PageDown"));
    assert_eq!(content_key_name(BrowserKey::Enter), Some("Enter"));
    assert_eq!(content_key_name(BrowserKey::Escape), None);
    assert_eq!(content_key_name(BrowserKey::Char('a')), None);
}

#[test]
fn click_actions() {
    assert_eq!(hit_action(UiHitTarget::NoTarget), None);
    assert_eq!(hit_action(UiHitTarget::ErrorRetry), Some(BrowserAction::Reload));
    assert_eq!(hit_action(UiHitTarget::NewTabSearch), Some(BrowserAction::FocusAddressBar));
    assert_eq!(hit_action(UiHitTarget::CloseTab(TabId(3))), Some(BrowserAction::CloseTab(TabId(3))));
    assert_eq!(
        hit_action(UiHitTarget::QuickLink("https://a.org".to_string())),
        Some(BrowserAction::NavigateUrl("https://a.org".to_string()))
    );
    assert_eq!(hit_action(UiHitTarget::Content), Some(BrowserAction::AddressBarCancel));
    // A click outside the open panel closes it first.
    assert_eq!(
        hit_actions(true, UiHitTarget::BackButton),
        vec![BrowserAction::CloseSiteInfo, BrowserAction::Back]
    );
    assert_eq!(hit_actions(true, UiHitTarget::NoTarget), vec![BrowserAction::CloseSiteInfo]);
    let cell = UiHitTarget::SitePermission {
        permission: PermissionKind::Camera,
        decision: PermissionDecision::Deny,
    };
    assert_eq!(
        hit_actions(true, cell),
        vec![BrowserAction::SitePermissionSet(PermissionKind::Camera, PermissionDecision::Deny)]
    );
    assert_eq!(hit_actions(true, UiHitTarget::PermissionPrompt), vec![]);
    assert_eq!(hit_actions(false, UiHitTarget::BackButton), vec![BrowserAction::Back]);
}

#[test]
fn cursor_shapes() {
    assert_eq!(shell_cursor(true, &UiHitTarget::BackButton), CursorKind::Wait);
    assert_eq!(shell_cursor(false, &UiHitTarget::BackButton), CursorKind::Pointer);
    assert_eq!(shell_cursor(false, &UiHitTarget::AddressBar), CursorKind::Text);
    assert_eq!(shell_cursor(false, &UiHitTarget::Content), CursorKind::Default);
    assert_eq!(shell_cursor(false, &UiHitTarget::SiteInfoPanel), CursorKind::Default);
}

#[test]
fn platform_events() {
    let s = BrowserState::new();
    let ov = plain();
    let run = |s: &BrowserState, ov: &HitOverlays, e| platform_event_commands(s, ov, e, 600, 10);
    assert_eq!(run(&s, &ov, PlatformEvent::Quit), vec![DriverCommand::Act(BrowserAction::Quit)]);
    assert_eq!(run(&s, &ov, PlatformEvent::Tick), vec![]);
    assert_eq!(
        run(&s, &ov, PlatformEvent::WindowResized { width: 10, height: 10 }),
        vec![DriverCommand::SyncViewports]
    );
    // A page key goes to the browser and on to the page.
    assert_eq!(
        run(&s, &ov, PlatformEvent::KeyDown { key: BrowserKey::Down, modifiers: mods(false, false) }),
        vec![
            DriverCommand::Act(BrowserAction::Scroll(40)),
            DriverCommand::ContentKey(BrowserKey::Down)
        ]
    );
    assert_eq!(
        run(&s, &ov, PlatformEvent::KeyDown { key: BrowserKey::Left, modifiers: mods(false, false) }),
        vec![DriverCommand::ContentKey(BrowserKey::Left)]
    );
    // Escape quits, and nothing else happens.
    assert_eq!(
        run(&s, &ov, PlatformEvent::KeyDown { key: BrowserKey::Escape, modifiers: mods(false, false) }),
        vec![DriverCommand::Act(BrowserAction::Quit)]
    );
    assert_eq!(
        run(&s, &ov, PlatformEvent::TextInput("hi".to_string())),
        vec![DriverCommand::ContentText("hi".to_string())]
    );
    assert_eq!(
        run(&s, &ov, PlatformEvent::Scroll { delta: 2 }),
        vec![DriverCommand::Act(BrowserAction::Scroll(-160))]
    );
    assert_eq!(
        run(&s, &ov, PlatformEvent::MouseMove { x: -5, y: 60 }),
        vec![
            DriverCommand::MouseAt { x: 0, y: 60 },
            DriverCommand::Cursor(CursorKind::Default)
        ]
    );
    assert_eq!(
        run(&s, &ov, PlatformEvent::MouseMove { x: 100, y: 900 }),
        vec![
            DriverCommand::MouseAt { x: 100, y: 900 },
            DriverCommand::Cursor(CursorKind::Default),
            DriverCommand::ContentMouseMove { x: 100, y: 900 }
        ]
    );
    assert_eq!(
        run(&s, &ov, PlatformEvent::MouseDown { x: 20, y: 60, button: MouseButton::Left }),
        vec![DriverCommand::Act(BrowserAction::Back)]
    );
    assert_eq!(
        run(&s, &ov, PlatformEvent::MouseDown { x: 100, y: 900, button: MouseButton::Left }),
        vec![DriverCommand::ContentClick { x: 100, y: 900 }]
    );
    assert_eq!(
        run(&s, &ov, PlatformEvent::MouseDown { x: 100, y: 900, button: MouseButton::Right }),
        vec![DriverCommand::ContentRightClick { x: 100, y: 900 }]
    );
    assert_eq!(
        run(&s, &ov, PlatformEvent::MouseDown { x: 20, y: 60, button: MouseButton::Right }),
        vec![]
    );
}

#[test]
fn platform_text_goes_to_the_focused_bar() {
    let mut s = BrowserState::new();
    let mut ov = plain();
    ov.find_open = true;
    assert_eq!(
        platform_event_commands(&s, &ov, PlatformEvent::TextInput("ab".to_string()), 600, 10),
        vec![
            DriverCommand::Act(BrowserAction::FindChar('a')),
            DriverCommand::Act(BrowserAction::FindChar('b'))
        ]
    );
    ov.find_open = false;
    s.focus_address_bar();
    assert_eq!(
        platform_event_commands(&s, &ov, PlatformEvent::TextInput("é".to_string()), 600, 10),
        vec![DriverCommand::Act(BrowserAction::AddressBarChar('é'))]
    );
    // Keys do not reach the page while the address bar is focused.
    assert_eq!(
        platform_event_commands(
            &s,
            &ov,
            PlatformEvent::KeyDown { key: BrowserKey::Left, modifiers: mods(false, false) },
            600,
            10
        ),
        vec![]
    );
    ov.overlay_open = true;
    let s2 = BrowserState::new();
    assert_eq!(
        platform_event_commands(&s2, &ov, PlatformEvent::TextInput("x".to_string()), 600, 10),
        vec![]
    );
    assert_eq!(
        platform_event_commands(&s2, &ov, PlatformEvent::Scroll { delta: -3 }, 600, 10),
        vec![DriverCommand::Act(BrowserAction::OverlayScroll(3))]
    );
}

#[test]
fn loading_times_out() {
    let mut s = BrowserState::new();
    let _ = s.begin_navigate("https://example.com");
    assert!(s.active_tab().unwrap().page_state.is_loading());
    let start = s.active_tab().unwrap().load_start_frame;
    s.frame_count = start + 359;
    tick_loading(&mut s, false);
    assert!(s.active_tab().unwrap().page_state.is_loading());
    s.frame_count = start + 360;
    tick_loading(&mut s, true);
    assert!(s.active_tab().unwrap().page_state.is_loading());
    tick_loading(&mut s, false);
    assert_eq!(
        s.active_tab().unwrap().page_state,
        PageState::Error("Request timed out".to_string())
    );
}

#[test]
fn real_engine_waits_five_times_longer() {
    let mut s = BrowserState::new();
    let _ = s.begin_navigate("https://example.com");
    let start = s.active_tab().unwrap().load_start_frame;
    s.frame_count = start + 1799;
    tick_loading(&mut s, true);
    assert!(s.active_tab().unwrap().page_state.is_loading());
    s.frame_count = start + 1800;
    tick_loading(&mut s, true);
    assert!(s.active_tab().unwrap().page_state.is_error());
}
