use rashamon::capabilities::{install_seccomp_profile, Capability, CapabilitySet};
use rashamon::input::{
    browser_key, map_mouse_button, modifiers_from, recognise_event, BrowserKey, KeyboardState,
    Modifiers, MouseButton, PlatformEvent, RawEvent, ScanKey,
};
use rashamon::json::json_str;
use rashamon::layout::{retry_btn_pos, tab_width, TAB_MAX_W, TAB_MIN_W};
use rashamon::theme::{get_theme, ColorPalette};

#[test]
fn process_capabilities() {
    let ui = CapabilitySet::ui_process();
    assert!(ui.has(Capability::NetworkAccess));
    assert!(ui.has(Capability::ClipboardRead));
    assert!(!ui.has(Capability::SpawnProcess));
    let net = CapabilitySet::network_process();
    assert!(net.has(Capability::NetworkAccess));
    assert!(!net.has(Capability::FileRead));
    let r = CapabilitySet::renderer_process();
    assert!(!r.has(Capability::NetworkAccess));
}

#[test]
fn add_then_revoke() {
    let mut s = CapabilitySet::empty();
    s.add(Capability::FileWrite);
    s.add(Capability::FileWrite);
    assert!(s.has(Capability::FileWrite));
    s.revoke(Capability::FileWrite);
    assert!(!s.has(Capability::FileWrite));
    assert!(install_seccomp_profile().is_ok());
}

#[test]
fn mouse_buttons_by_number() {
    assert_eq!(map_mouse_button(1), MouseButton::Left);
    assert_eq!(map_mouse_button(2), MouseButton::Middle);
    assert_eq!(map_mouse_button(3), MouseButton::Right);
    assert_eq!(map_mouse_button(9), MouseButton::Other(9));
    let m = Modifiers::default();
    assert!(!m.ctrl && !m.shift && !m.alt && !m.meta);
}

#[test]
fn palettes_cycle_and_name() {
    assert_eq!(ColorPalette::KamelotDark.cycle(), ColorPalette::GraphiteMinimal);
    assert_eq!(ColorPalette::GraphiteMinimal.cycle(), ColorPalette::LightClean);
    assert_eq!(ColorPalette::LightClean.cycle(), ColorPalette::KamelotDark);
    for p in [ColorPalette::KamelotDark, ColorPalette::GraphiteMinimal, ColorPalette::LightClean] {
        assert_eq!(ColorPalette::from_str(p.as_str()), Some(p));
    }
    assert_eq!(ColorPalette::from_str("neon"), None);
    let _ = get_theme(ColorPalette::LightClean);
}

#[test]
fn tab_width_is_shared_and_clamped() {
    assert_eq!(tab_width(0), TAB_MAX_W);
    assert_eq!(tab_width(1), TAB_MAX_W);
    assert_eq!(tab_width(11), 169 - 2);
    assert_eq!(tab_width(100), TAB_MIN_W);
    assert_eq!(retry_btn_pos(), (960 - 70, 82 + 499 + 80));
}

#[test]
fn json_strings_are_escaped() {
    assert_eq!(json_str("a\"b\\c\n\t\u{1}"), "\"a\\\"b\\\\c\\n\\t\\u0001\"");
    assert_eq!(json_str(""), "\"\"");
}

#[test]
fn events_are_recognised_with_modifiers() {
    let none = modifiers_from(KeyboardState::default());
    let ctrl = modifiers_from(KeyboardState { rctrl: true, ..KeyboardState::default() });
    assert!(ctrl.ctrl && !ctrl.shift);
    assert_eq!(browser_key(ScanKey::KpEnter, none), Some(BrowserKey::Enter));
    assert_eq!(browser_key(ScanKey::T, none), None);
    assert_eq!(browser_key(ScanKey::T, ctrl), Some(BrowserKey::Char('t')));
    assert_eq!(browser_key(ScanKey::S, ctrl), None);
    let ctrl_shift = modifiers_from(KeyboardState { lctrl: true, lshift: true, ..KeyboardState::default() });
    assert_eq!(browser_key(ScanKey::S, ctrl_shift), Some(BrowserKey::Char('s')));
    assert_eq!(browser_key(ScanKey::KpMinus, ctrl), Some(BrowserKey::ZoomOut));
    assert!(matches!(recognise_event(RawEvent::TextInput("a".into()), ctrl), None));
    assert!(matches!(recognise_event(RawEvent::TextInput("a".into()), none), Some(PlatformEvent::TextInput(t)) if t == "a"));
    assert!(matches!(
        recognise_event(RawEvent::Resized { width: -5, height: 600 }, none),
        Some(PlatformEvent::WindowResized { width: 0, height: 600 })
    ));
    assert!(matches!(
        recognise_event(RawEvent::MouseButtonDown { x: 1, y: 2, button: 3 }, none),
        Some(PlatformEvent::MouseDown { x: 1, y: 2, button: MouseButton::Right })
    ));
    assert!(matches!(recognise_event(RawEvent::KeyDown(Some(ScanKey::Other)), ctrl), None));
    assert!(matches!(recognise_event(RawEvent::Other, none), None));
    assert!(matches!(recognise_event(RawEvent::Quit, none), Some(PlatformEvent::Quit)));
}
