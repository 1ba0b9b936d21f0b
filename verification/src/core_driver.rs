//! The browser's action layer: what a key, a click or another platform event
//! asks the browser to do. Platform loops feed normalised events here and get
//! back the actions to carry out on the browser state and the engine.
use vstd::prelude::*;

use crate::hit_test::{hit_test_ui, spec_hit_test_ui, tab_strip_fits, HitOverlays, UiHitTarget};
use crate::input::{BrowserKey, MouseButton, PlatformEvent};
use crate::permissions::{PermissionDecision, PermissionKind};
use crate::renderer::{CursorKind, EngineEvent};
use crate::text::{chars_of, extend_chars, lit, seq_eq, string_of, trim, trim_exec};
use crate::ui_state::{
    all_dirty, commit_title, lemma_replace_tab, load_failed, loaded_with_title,
    only_active_tab_changed, BrowserState, DirtyFlags, PageState, TabId, TabState,
};

verus! {

broadcast use vstd::string::group_string_axioms;

/// Frames a page may load before it is failed as timed out.
pub const LOAD_TIMEOUT_FRAMES: u64 = 360;

/// Pixels one arrow key scrolls the page.
pub const SCROLL_LINE_PIXELS: i32 = 40;

/// Pixels one wheel notch scrolls the page.
pub const SCROLL_WHEEL_PIXELS: i32 = 80;

/// Which stored data changed since it was last saved.
#[derive(Debug, Clone, Copy)]
pub struct SaveDirty {
    pub bookmarks: bool,
    pub history: bool,
    pub prefs: bool,
}

impl Default for SaveDirty {
    fn default() -> (d: Self)
        ensures
            !d.bookmarks && !d.history && !d.prefs,
    {
        SaveDirty { bookmarks: false, history: false, prefs: false }
    }
}

impl SaveDirty {
    pub fn any(&self) -> (b: bool)
        ensures
            b == (self.bookmarks || self.history || self.prefs),
    {
        self.bookmarks || self.history || self.prefs
    }
}

/// A list drawn over the page.
#[derive(Debug, Clone, Copy, PartialEq, Eq, Structural)]
pub enum OverlayKind {
    History,
    Bookmarks,
}

/// Something the user asks the browser to do.
#[derive(Debug, Clone, PartialEq)]
pub enum BrowserAction {
    Navigate(String),
    NavigateUrl(String),
    Back,
    Forward,
    Reload,
    NewTab { private: bool },
    CloseActiveTab,
    CloseTab(TabId),
    SwitchTab(TabId),
    ToggleSplitView,
    Scroll(i32),
    FocusAddressBar,
    AddressBarChar(char),
    AddressBarBackspace,
    AddressBarSubmit,
    AddressBarCancel,
    OpenOverlay(OverlayKind),
    CloseOverlay,
    OverlayActivate,
    OverlayMove(i32),
    OverlayScroll(i32),
    OpenSiteInfo,
    CloseSiteInfo,
    ToggleBookmark,
    FindOpen,
    FindClose,
    FindChar(char),
    FindBackspace,
    FindNext,
    FindPrevious,
    PermissionAllow,
    PermissionDeny,
    PermissionToggleRemember,
    SitePermissionSet(PermissionKind, PermissionDecision),
    SiteAdblockToggle,
    ZoomIn,
    ZoomOut,
    ZoomReset,
    CycleTheme,
    Quit,
}

/// What a key press asks for: an action, emptying the find bar's query, or
/// nothing.
#[derive(Debug, Clone, PartialEq)]
pub enum KeyDecision {
    Act(BrowserAction),
    ClearFind,
    Ignore,
}

// ── Keys ─────────────────────────────────────────────────────────────────────

/// Keyboard shortcuts and editing keys when neither the find bar nor an
/// overlay list takes the key.
pub open spec fn spec_main_key(
    focused: bool,
    site_info_open: bool,
    key: BrowserKey,
    ctrl: bool,
    shift: bool,
    page_scroll_px: i32,
) -> KeyDecision {
    let ch = |c: char| key == BrowserKey::Char(c);
    if key == BrowserKey::Escape {
        if site_info_open {
            KeyDecision::Act(BrowserAction::CloseSiteInfo)
        } else if focused {
            KeyDecision::Act(BrowserAction::AddressBarCancel)
        } else {
            KeyDecision::Act(BrowserAction::Quit)
        }
    } else if ctrl && ch('p') {
        KeyDecision::Act(BrowserAction::CycleTheme)
    } else if ctrl && ch('t') {
        KeyDecision::Act(BrowserAction::NewTab { private: false })
    } else if ctrl && shift && ch('n') {
        KeyDecision::Act(BrowserAction::NewTab { private: true })
    } else if ctrl && ch('i') {
        KeyDecision::Act(BrowserAction::NewTab { private: true })
    } else if ctrl && ch('w') {
        KeyDecision::Act(BrowserAction::CloseActiveTab)
    } else if ctrl && ch('r') {
        KeyDecision::Act(BrowserAction::Reload)
    } else if ctrl && shift && ch('s') {
        KeyDecision::Act(BrowserAction::ToggleSplitView)
    } else if ctrl && ch('h') {
        KeyDecision::Act(BrowserAction::OpenOverlay(OverlayKind::History))
    } else if ctrl && ch('b') {
        KeyDecision::Act(BrowserAction::OpenOverlay(OverlayKind::Bookmarks))
    } else if ctrl && ch('f') {
        KeyDecision::Act(BrowserAction::FindOpen)
    } else if ctrl && ch('l') {
        KeyDecision::Act(BrowserAction::FocusAddressBar)
    } else if ctrl && key == BrowserKey::ZoomIn {
        KeyDecision::Act(BrowserAction::ZoomIn)
    } else if ctrl && key == BrowserKey::ZoomOut {
        KeyDecision::Act(BrowserAction::ZoomOut)
    } else if ctrl && key == BrowserKey::ZoomReset {
        KeyDecision::Act(BrowserAction::ZoomReset)
    } else if focused {
        match key {
            BrowserKey::Enter => KeyDecision::Act(BrowserAction::AddressBarSubmit),
            BrowserKey::Backspace => KeyDecision::Act(BrowserAction::AddressBarBackspace),
            BrowserKey::Char(c) => KeyDecision::Act(BrowserAction::AddressBarChar(c)),
            _ => KeyDecision::Ignore,
        }
    } else {
        match key {
            BrowserKey::Up => KeyDecision::Act(BrowserAction::Scroll((-SCROLL_LINE_PIXELS) as i32)),
            BrowserKey::Down => KeyDecision::Act(BrowserAction::Scroll(SCROLL_LINE_PIXELS)),
            BrowserKey::PageUp => KeyDecision::Act(BrowserAction::Scroll((-page_scroll_px) as i32)),
            BrowserKey::PageDown => KeyDecision::Act(BrowserAction::Scroll(page_scroll_px)),
            _ => KeyDecision::Ignore,
        }
    }
}

/// What a key press asks for. An open permission prompt is refused by
/// Escape; the find bar takes the keys while it is open; an overlay list
/// takes the navigation keys and lets Ctrl shortcuts through; then come the
/// shortcuts and the address bar. `overlay_page` is how many rows a page of
/// an overlay list holds.
pub open spec fn spec_key_decision(
    state: BrowserState,
    ov: HitOverlays,
    key: BrowserKey,
    ctrl: bool,
    shift: bool,
    page_scroll_px: i32,
    overlay_page: i32,
) -> KeyDecision {
    if ov.prompt is Some && key == BrowserKey::Escape {
        KeyDecision::Act(BrowserAction::PermissionDeny)
    } else if ov.find_open {
        match key {
            BrowserKey::Escape => KeyDecision::Act(BrowserAction::FindClose),
            BrowserKey::Enter => if shift {
                KeyDecision::Act(BrowserAction::FindPrevious)
            } else {
                KeyDecision::Act(BrowserAction::FindNext)
            },
            BrowserKey::Backspace => KeyDecision::Act(BrowserAction::FindBackspace),
            BrowserKey::Char(c) => if ctrl && c == 'f' {
                KeyDecision::ClearFind
            } else if !ctrl {
                KeyDecision::Act(BrowserAction::FindChar(c))
            } else {
                KeyDecision::Ignore
            },
            _ => KeyDecision::Ignore,
        }
    } else if ov.overlay_open && !(ctrl && key is Char) {
        match key {
            BrowserKey::Escape => KeyDecision::Act(BrowserAction::CloseOverlay),
            BrowserKey::Enter => KeyDecision::Act(BrowserAction::OverlayActivate),
            BrowserKey::Up => KeyDecision::Act(BrowserAction::OverlayMove(-1i32)),
            BrowserKey::Down => KeyDecision::Act(BrowserAction::OverlayMove(1)),
            BrowserKey::PageUp => KeyDecision::Act(BrowserAction::OverlayScroll((-overlay_page) as i32)),
            BrowserKey::PageDown => KeyDecision::Act(BrowserAction::OverlayScroll(overlay_page)),
            _ => KeyDecision::Ignore,
        }
    } else {
        spec_main_key(
            state.address_bar_focused,
            ov.site_info is Some,
            key,
            ctrl,
            shift,
            page_scroll_px,
        )
    }
}

fn main_key(
    focused: bool,
    site_info_open: bool,
    key: BrowserKey,
    ctrl: bool,
    shift: bool,
    page_scroll_px: i32,
) -> (d: KeyDecision)
    requires
        !focused && key == BrowserKey::PageUp ==> page_scroll_px > i32::MIN,
    ensures
        d == spec_main_key(focused, site_info_open, key, ctrl, shift, page_scroll_px),
{
    match key {
        BrowserKey::Escape => {
            if site_info_open {
                KeyDecision::Act(BrowserAction::CloseSiteInfo)
            } else if focused {
                KeyDecision::Act(BrowserAction::AddressBarCancel)
            } else {
                KeyDecision::Act(BrowserAction::Quit)
            }
        },
        BrowserKey::Char('p') if ctrl => KeyDecision::Act(BrowserAction::CycleTheme),
        BrowserKey::Char('t') if ctrl => KeyDecision::Act(BrowserAction::NewTab { private: false }),
        BrowserKey::Char('n') if ctrl && shift => KeyDecision::Act(
            BrowserAction::NewTab { private: true },
        ),
        BrowserKey::Char('i') if ctrl => KeyDecision::Act(BrowserAction::NewTab { private: true }),
        BrowserKey::Char('w') if ctrl => KeyDecision::Act(BrowserAction::CloseActiveTab),
        BrowserKey::Char('r') if ctrl => KeyDecision::Act(BrowserAction::Reload),
        BrowserKey::Char('s') if ctrl && shift => KeyDecision::Act(BrowserAction::ToggleSplitView),
        BrowserKey::Char('h') if ctrl => KeyDecision::Act(
            BrowserAction::OpenOverlay(OverlayKind::History),
        ),
        BrowserKey::Char('b') if ctrl => KeyDecision::Act(
            BrowserAction::OpenOverlay(OverlayKind::Bookmarks),
        ),
        BrowserKey::Char('f') if ctrl => KeyDecision::Act(BrowserAction::FindOpen),
        BrowserKey::Char('l') if ctrl => KeyDecision::Act(BrowserAction::FocusAddressBar),
        BrowserKey::ZoomIn if ctrl => KeyDecision::Act(BrowserAction::ZoomIn),
        BrowserKey::ZoomOut if ctrl => KeyDecision::Act(BrowserAction::ZoomOut),
        BrowserKey::ZoomReset if ctrl => KeyDecision::Act(BrowserAction::ZoomReset),
        BrowserKey::Enter if focused => KeyDecision::Act(BrowserAction::AddressBarSubmit),
        BrowserKey::Backspace if focused => KeyDecision::Act(BrowserAction::AddressBarBackspace),
        BrowserKey::Char(c) if focused => KeyDecision::Act(BrowserAction::AddressBarChar(c)),
        BrowserKey::Up if !focused => KeyDecision::Act(BrowserAction::Scroll(-SCROLL_LINE_PIXELS)),
        BrowserKey::Down if !focused => KeyDecision::Act(BrowserAction::Scroll(SCROLL_LINE_PIXELS)),
        BrowserKey::PageUp if !focused => KeyDecision::Act(BrowserAction::Scroll(-page_scroll_px)),
        BrowserKey::PageDown if !focused => KeyDecision::Act(BrowserAction::Scroll(page_scroll_px)),
        _ => KeyDecision::Ignore,
    }
}

/// Whether a key press can be decided without overflow: the negated page
/// sizes exist.
pub open spec fn key_in_range(
    state: BrowserState,
    ov: HitOverlays,
    key: BrowserKey,
    page_scroll_px: i32,
    overlay_page: i32,
) -> bool {
    &&& key == BrowserKey::PageUp && !state.address_bar_focused ==> page_scroll_px > i32::MIN
    &&& key == BrowserKey::PageUp ==> overlay_page > i32::MIN
}

/// Decides what a key press asks for, as `spec_key_decision` says.
pub fn key_decision(
    state: &BrowserState,
    ov: &HitOverlays,
    key: BrowserKey,
    ctrl: bool,
    shift: bool,
    page_scroll_px: i32,
    overlay_page: i32,
) -> (d: KeyDecision)
    requires
        key_in_range(*state, *ov, key, page_scroll_px, overlay_page),
    ensures
        d == spec_key_decision(*state, *ov, key, ctrl, shift, page_scroll_px, overlay_page),
{
    if ov.prompt.is_some() && key == BrowserKey::Escape {
        return KeyDecision::Act(BrowserAction::PermissionDeny);
    }
    if ov.find_open {
        return match key {
            BrowserKey::Escape => KeyDecision::Act(BrowserAction::FindClose),
            BrowserKey::Enter if shift => KeyDecision::Act(BrowserAction::FindPrevious),
            BrowserKey::Enter => KeyDecision::Act(BrowserAction::FindNext),
            BrowserKey::Backspace => KeyDecision::Act(BrowserAction::FindBackspace),
            BrowserKey::Char('f') if ctrl => KeyDecision::ClearFind,
            BrowserKey::Char(c) if !ctrl => KeyDecision::Act(BrowserAction::FindChar(c)),
            _ => KeyDecision::Ignore,
        };
    }
    if ov.overlay_open {
        match key {
            BrowserKey::Escape => {
                return KeyDecision::Act(BrowserAction::CloseOverlay);
            },
            BrowserKey::Enter => {
                return KeyDecision::Act(BrowserAction::OverlayActivate);
            },
            BrowserKey::Up => {
                return KeyDecision::Act(BrowserAction::OverlayMove(-1));
            },
            BrowserKey::Down => {
                return KeyDecision::Act(BrowserAction::OverlayMove(1));
            },
            BrowserKey::PageUp => {
                return KeyDecision::Act(BrowserAction::OverlayScroll(-overlay_page));
            },
            BrowserKey::PageDown => {
                return KeyDecision::Act(BrowserAction::OverlayScroll(overlay_page));
            },
            BrowserKey::Char(_) if ctrl => {},
            _ => {
                return KeyDecision::Ignore;
            },
        }
    }
    main_key(
        state.address_bar_focused,
        ov.site_info.is_some(),
        key,
        ctrl,
        shift,
        page_scroll_px,
    )
}

pub open spec fn spec_content_key_name(key: BrowserKey) -> Option<Seq<char>> {
    match key {
        BrowserKey::Enter => Some("Enter"@),
        BrowserKey::Backspace => Some("Backspace"@),
        BrowserKey::Left => Some("ArrowLeft"@),
        BrowserKey::Right => Some("ArrowRight"@),
        BrowserKey::Up => Some("ArrowUp"@),
        BrowserKey::Down => Some("ArrowDown"@),
        BrowserKey::PageUp => Some("PageUp"@),
        BrowserKey::PageDown => Some("PageDown"@),
        _ => None,
    }
}

/// The DOM key name a page receives for a key the browser passes on.
pub fn content_key_name(key: BrowserKey) -> (r: Option<&'static str>)
    ensures
        match r {
            Some(s) => spec_content_key_name(key) == Some(s@),
            None => spec_content_key_name(key) is None,
        },
{
    match key {
        BrowserKey::Enter => Some("Enter"),
        BrowserKey::Backspace => Some("Backspace"),
        BrowserKey::Left => Some("ArrowLeft"),
        BrowserKey::Right => Some("ArrowRight"),
        BrowserKey::Up => Some("ArrowUp"),
        BrowserKey::Down => Some("ArrowDown"),
        BrowserKey::PageUp => Some("PageUp"),
        BrowserKey::PageDown => Some("PageDown"),
        _ => None,
    }
}

// ── Clicks ───────────────────────────────────────────────────────────────────

/// Whether a click on `target` leaves the site information panel open: the
/// panel, its controls and the permission prompt do.
pub open spec fn keeps_site_info(target: UiHitTarget) -> bool {
    ||| target is SiteInfoPanel
    ||| target is SitePermission
    ||| target is SiteAdblockToggle
    ||| target is PermissionAllow
    ||| target is PermissionDeny
    ||| target is PermissionRememberToggle
    ||| target is PermissionPrompt
}

/// The action a click on `target` asks for.
pub open spec fn spec_hit_action(target: UiHitTarget) -> Option<BrowserAction> {
    match target {
        UiHitTarget::NoTarget | UiHitTarget::SiteInfoPanel | UiHitTarget::PermissionPrompt => None,
        UiHitTarget::BackButton => Some(BrowserAction::Back),
        UiHitTarget::ForwardButton => Some(BrowserAction::Forward),
        UiHitTarget::ReloadButton | UiHitTarget::ErrorRetry => Some(BrowserAction::Reload),
        UiHitTarget::AddressBar | UiHitTarget::NewTabSearch => Some(BrowserAction::FocusAddressBar),
        UiHitTarget::BookmarkButton => Some(BrowserAction::ToggleBookmark),
        UiHitTarget::SiteInfoButton => Some(BrowserAction::OpenSiteInfo),
        UiHitTarget::NewTabButton => Some(BrowserAction::NewTab { private: false }),
        UiHitTarget::Tab(id) => Some(BrowserAction::SwitchTab(id)),
        UiHitTarget::CloseTab(id) => Some(BrowserAction::CloseTab(id)),
        UiHitTarget::QuickLink(url) => Some(BrowserAction::NavigateUrl(url)),
        UiHitTarget::OverlayActivate => Some(BrowserAction::OverlayActivate),
        UiHitTarget::PermissionAllow => Some(BrowserAction::PermissionAllow),
        UiHitTarget::PermissionDeny => Some(BrowserAction::PermissionDeny),
        UiHitTarget::PermissionRememberToggle => Some(BrowserAction::PermissionToggleRemember),
        UiHitTarget::SitePermission { permission, decision } => Some(
            BrowserAction::SitePermissionSet(permission, decision),
        ),
        UiHitTarget::SiteAdblockToggle => Some(BrowserAction::SiteAdblockToggle),
        UiHitTarget::FindClose => Some(BrowserAction::FindClose),
        UiHitTarget::Content => Some(BrowserAction::AddressBarCancel),
    }
}

/// The actions a click on `target` asks for, in order: closing the site
/// information panel when the click falls outside it, then the target's own.
pub open spec fn spec_hit_actions(site_info_open: bool, target: UiHitTarget) -> Seq<BrowserAction> {
    let close: Seq<BrowserAction> = if site_info_open && !keeps_site_info(target) {
        seq![BrowserAction::CloseSiteInfo]
    } else {
        seq![]
    };
    match spec_hit_action(target) {
        Some(a) => close.push(a),
        None => close,
    }
}

pub fn hit_action(target: UiHitTarget) -> (a: Option<BrowserAction>)
    ensures
        a == spec_hit_action(target),
{
    match target {
        UiHitTarget::NoTarget | UiHitTarget::SiteInfoPanel | UiHitTarget::PermissionPrompt => None,
        UiHitTarget::BackButton => Some(BrowserAction::Back),
        UiHitTarget::ForwardButton => Some(BrowserAction::Forward),
        UiHitTarget::ReloadButton | UiHitTarget::ErrorRetry => Some(BrowserAction::Reload),
        UiHitTarget::AddressBar | UiHitTarget::NewTabSearch => Some(BrowserAction::FocusAddressBar),
        UiHitTarget::BookmarkButton => Some(BrowserAction::ToggleBookmark),
        UiHitTarget::SiteInfoButton => Some(BrowserAction::OpenSiteInfo),
        UiHitTarget::NewTabButton => Some(BrowserAction::NewTab { private: false }),
        UiHitTarget::Tab(id) => Some(BrowserAction::SwitchTab(id)),
        UiHitTarget::CloseTab(id) => Some(BrowserAction::CloseTab(id)),
        UiHitTarget::QuickLink(url) => Some(BrowserAction::NavigateUrl(url)),
        UiHitTarget::OverlayActivate => Some(BrowserAction::OverlayActivate),
        UiHitTarget::PermissionAllow => Some(BrowserAction::PermissionAllow),
        UiHitTarget::PermissionDeny => Some(BrowserAction::PermissionDeny),
        UiHitTarget::PermissionRememberToggle => Some(BrowserAction::PermissionToggleRemember),
        UiHitTarget::SitePermission { permission, decision } => Some(
            BrowserAction::SitePermissionSet(permission, decision),
        ),
        UiHitTarget::SiteAdblockToggle => Some(BrowserAction::SiteAdblockToggle),
        UiHitTarget::FindClose => Some(BrowserAction::FindClose),
        UiHitTarget::Content => Some(BrowserAction::AddressBarCancel),
    }
}

/// The actions a click on `target` asks for, as `spec_hit_actions` says.
pub fn hit_actions(site_info_open: bool, target: UiHitTarget) -> (r: Vec<BrowserAction>)
    ensures
        r@ == spec_hit_actions(site_info_open, target),
{
    let close_first = site_info_open && !matches!(
        target,
        UiHitTarget::SiteInfoPanel
            | UiHitTarget::SitePermission { .. }
            | UiHitTarget::SiteAdblockToggle
            | UiHitTarget::PermissionAllow
            | UiHitTarget::PermissionDeny
            | UiHitTarget::PermissionRememberToggle
            | UiHitTarget::PermissionPrompt
    );
    let mut r: Vec<BrowserAction> = Vec::new();
    if close_first {
        r.push(BrowserAction::CloseSiteInfo);
    }
    match hit_action(target) {
        Some(a) => r.push(a),
        None => {},
    }
    r
}

/// The pointer shape over `target`: busy while the active page loads, a hand
/// over controls, a text cursor over text fields, else the arrow.
pub open spec fn spec_shell_cursor(loading: bool, target: UiHitTarget) -> CursorKind {
    if loading {
        CursorKind::Wait
    } else {
        match target {
            UiHitTarget::AddressBar | UiHitTarget::NewTabSearch => CursorKind::Text,
            UiHitTarget::Content
            | UiHitTarget::NoTarget
            | UiHitTarget::PermissionPrompt
            | UiHitTarget::SiteInfoPanel => CursorKind::Default,
            _ => CursorKind::Pointer,
        }
    }
}

pub fn shell_cursor(loading: bool, target: &UiHitTarget) -> (c: CursorKind)
    ensures
        c == spec_shell_cursor(loading, *target),
{
    if loading {
        return CursorKind::Wait;
    }
    match target {
        UiHitTarget::BackButton
        | UiHitTarget::ForwardButton
        | UiHitTarget::ReloadButton
        | UiHitTarget::BookmarkButton
        | UiHitTarget::SiteInfoButton
        | UiHitTarget::NewTabButton
        | UiHitTarget::Tab(_)
        | UiHitTarget::CloseTab(_)
        | UiHitTarget::QuickLink(_)
        | UiHitTarget::OverlayActivate
        | UiHitTarget::PermissionAllow
        | UiHitTarget::PermissionDeny
        | UiHitTarget::PermissionRememberToggle
        | UiHitTarget::SitePermission { .. }
        | UiHitTarget::SiteAdblockToggle
        | UiHitTarget::FindClose
        | UiHitTarget::ErrorRetry => CursorKind::Pointer,
        UiHitTarget::AddressBar | UiHitTarget::NewTabSearch => CursorKind::Text,
        UiHitTarget::Content
        | UiHitTarget::NoTarget
        | UiHitTarget::PermissionPrompt
        | UiHitTarget::SiteInfoPanel => CursorKind::Default,
    }
}

// ── Platform events ──────────────────────────────────────────────────────────

/// One step for the owner of the browser state and the engine to carry out.
#[derive(Debug, Clone, PartialEq)]
pub enum DriverCommand {
    /// Carry out a browser action.
    Act(BrowserAction),
    /// Empty the find bar's query and clear the engine's matches.
    ClearFind,
    /// Fit the engine's viewports to the window again.
    SyncViewports,
    /// Record where the pointer is.
    MouseAt { x: u32, y: u32 },
    /// Show this pointer shape.
    Cursor(CursorKind),
    /// Pass this key to the page, under its `content_key_name`.
    ContentKey(BrowserKey),
    /// Pass typed text to the page.
    ContentText(String),
    /// Pass a pointer move at this window point to the page.
    ContentMouseMove { x: u32, y: u32 },
    /// End any address bar edit and click the page at this window point.
    ContentClick { x: u32, y: u32 },
    /// Right-click the page at this window point.
    ContentRightClick { x: u32, y: u32 },
}

/// A window coordinate as the layout uses it: negative ones count as 0.
pub open spec fn clamp_coord(v: i32) -> u32 {
    if v < 0 {
        0
    } else {
        v as u32
    }
}

pub open spec fn key_commands(d: KeyDecision) -> Seq<DriverCommand> {
    match d {
        KeyDecision::Act(a) => seq![DriverCommand::Act(a)],
        KeyDecision::ClearFind => seq![DriverCommand::ClearFind],
        KeyDecision::Ignore => seq![],
    }
}

/// Whether the page also gets the keys the browser does not keep: only with
/// no Ctrl held, nothing focused in the chrome and no overlay list open.
pub open spec fn content_receives_keys(state: BrowserState, ov: HitOverlays, ctrl: bool) -> bool {
    !ctrl && !state.address_bar_focused && !ov.find_open && !ov.overlay_open
}

pub open spec fn act_command(a: BrowserAction) -> DriverCommand {
    DriverCommand::Act(a)
}

pub open spec fn act_all(actions: Seq<BrowserAction>) -> Seq<DriverCommand> {
    actions.map_values(|a: BrowserAction| act_command(a))
}

/// What a platform event asks for. Keys go through `spec_key_decision`, and
/// on to the page when it receives keys (not after a quit); typed text goes
/// to the find bar, the address bar or the page; pointer events are
/// hit-tested, and the page gets those that land on it; the wheel scrolls an
/// open overlay list by rows or the page by `SCROLL_WHEEL_PIXELS` a notch.
pub open spec fn spec_platform_commands(
    state: BrowserState,
    ov: HitOverlays,
    event: PlatformEvent,
    page_scroll_px: i32,
    overlay_page: i32,
) -> Seq<DriverCommand> {
    match event {
        PlatformEvent::Quit => seq![DriverCommand::Act(BrowserAction::Quit)],
        PlatformEvent::Tick => seq![],
        PlatformEvent::MouseUp { .. } => seq![],
        PlatformEvent::WindowResized { .. } => seq![DriverCommand::SyncViewports],
        PlatformEvent::KeyDown { key, modifiers } => {
            let d = spec_key_decision(
                state,
                ov,
                key,
                modifiers.ctrl,
                modifiers.shift,
                page_scroll_px,
                overlay_page,
            );
            if d == KeyDecision::Act(BrowserAction::Quit) {
                seq![DriverCommand::Act(BrowserAction::Quit)]
            } else if content_receives_keys(state, ov, modifiers.ctrl) && spec_content_key_name(
                key,
            ) is Some {
                key_commands(d).push(DriverCommand::ContentKey(key))
            } else {
                key_commands(d)
            }
        },
        PlatformEvent::TextInput(text) => {
            if ov.find_open || state.address_bar_focused {
                char_commands(text@, ov.find_open)
            } else if !ov.overlay_open {
                seq![DriverCommand::ContentText(text)]
            } else {
                seq![]
            }
        },
        PlatformEvent::MouseMove { x, y } => {
            let (px, py) = (clamp_coord(x), clamp_coord(y));
            let t = spec_hit_test_ui(state, ov, px, py);
            let base = seq![
                DriverCommand::MouseAt { x: px, y: py },
                DriverCommand::Cursor(spec_shell_cursor(state.active().page_state is Loading, t)),
            ];
            if t is Content {
                base.push(DriverCommand::ContentMouseMove { x: px, y: py })
            } else {
                base
            }
        },
        PlatformEvent::MouseDown { x, y, button } => {
            let (px, py) = (clamp_coord(x), clamp_coord(y));
            let t = spec_hit_test_ui(state, ov, px, py);
            match button {
                MouseButton::Left => if t is Content {
                    seq![DriverCommand::ContentClick { x: px, y: py }]
                } else {
                    act_all(spec_hit_actions(ov.site_info is Some, t))
                },
                MouseButton::Right => if t is Content {
                    seq![DriverCommand::ContentRightClick { x: px, y: py }]
                } else {
                    seq![]
                },
                _ => seq![],
            }
        },
        PlatformEvent::Scroll { delta } => {
            if ov.overlay_open {
                seq![DriverCommand::Act(BrowserAction::OverlayScroll((-delta) as i32))]
            } else {
                seq![
                    DriverCommand::Act(
                        BrowserAction::Scroll((-delta * SCROLL_WHEEL_PIXELS) as i32),
                    ),
                ]
            }
        },
    }
}

/// Whether an event can be handled without overflow: a key's negated page
/// sizes exist, and so does the wheel's scroll amount.
pub open spec fn event_in_range(
    state: BrowserState,
    ov: HitOverlays,
    event: PlatformEvent,
    page_scroll_px: i32,
    overlay_page: i32,
) -> bool {
    match event {
        PlatformEvent::KeyDown { key, .. } => key_in_range(state, ov, key, page_scroll_px, overlay_page),
        PlatformEvent::Scroll { delta } => if ov.overlay_open {
            delta > i32::MIN
        } else {
            i32::MIN <= -delta * SCROLL_WHEEL_PIXELS <= i32::MAX
        },
        _ => true,
    }
}

fn clamp_coord_exec(v: i32) -> (r: u32)
    ensures
        r == clamp_coord(v),
{
    if v < 0 {
        0
    } else {
        v as u32
    }
}

/// The command typing `c` into the find bar, or into the address bar when
/// `find` is false.
pub open spec fn char_command(c: char, find: bool) -> DriverCommand {
    if find {
        DriverCommand::Act(BrowserAction::FindChar(c))
    } else {
        DriverCommand::Act(BrowserAction::AddressBarChar(c))
    }
}

/// One such command per character of `cs`.
pub open spec fn char_commands(cs: Seq<char>, find: bool) -> Seq<DriverCommand> {
    Seq::new(cs.len(), |i: int| char_command(cs[i], find))
}

fn chars_as_actions(text: &str, find: bool) -> (r: Vec<DriverCommand>)
    ensures
        r@ == char_commands(text@, find),
{
    let cs = chars_of(text);
    let mut r: Vec<DriverCommand> = Vec::new();
    let mut i: usize = 0;
    while i < cs.len()
        invariant
            cs@ == text@,
            i <= cs@.len(),
            r@ == char_commands(cs@, find).take(i as int),
        decreases cs.len() - i,
    {
        let c = cs[i];
        let cmd = if find {
            DriverCommand::Act(BrowserAction::FindChar(c))
        } else {
            DriverCommand::Act(BrowserAction::AddressBarChar(c))
        };
        assert(cmd == char_command(cs@[i as int], find));
        assert(char_commands(cs@, find).take(i + 1) =~= char_commands(cs@, find).take(i as int).push(
            cmd,
        ));
        r.push(cmd);
        i = i + 1;
    }
    assert(char_commands(cs@, find).len() == cs@.len());
    assert(char_commands(cs@, find).take(i as int) =~= char_commands(cs@, find));
    r
}

fn hit_commands(site_info_open: bool, target: UiHitTarget) -> (r: Vec<DriverCommand>)
    ensures
        r@ == act_all(spec_hit_actions(site_info_open, target)),
{
    let close_first = site_info_open && !matches!(
        target,
        UiHitTarget::SiteInfoPanel
            | UiHitTarget::SitePermission { .. }
            | UiHitTarget::SiteAdblockToggle
            | UiHitTarget::PermissionAllow
            | UiHitTarget::PermissionDeny
            | UiHitTarget::PermissionRememberToggle
            | UiHitTarget::PermissionPrompt
    );
    let ghost t = target;
    let mut r: Vec<DriverCommand> = Vec::new();
    if close_first {
        r.push(DriverCommand::Act(BrowserAction::CloseSiteInfo));
    }
    match hit_action(target) {
        Some(a) => r.push(DriverCommand::Act(a)),
        None => {},
    }
    assert(r@ =~= act_all(spec_hit_actions(site_info_open, t)));
    r
}

/// Decides what a platform event asks for, as `spec_platform_commands` says.
pub fn platform_event_commands(
    state: &BrowserState,
    ov: &HitOverlays,
    event: PlatformEvent,
    page_scroll_px: i32,
    overlay_page: i32,
) -> (r: Vec<DriverCommand>)
    requires
        state.wf(),
        tab_strip_fits(*state),
        event_in_range(*state, *ov, event, page_scroll_px, overlay_page),
    ensures
        r@ == spec_platform_commands(*state, *ov, event, page_scroll_px, overlay_page),
{
    match event {
        PlatformEvent::Quit => vec![DriverCommand::Act(BrowserAction::Quit)],
        PlatformEvent::Tick => Vec::new(),
        PlatformEvent::MouseUp { .. } => Vec::new(),
        PlatformEvent::WindowResized { .. } => vec![DriverCommand::SyncViewports],
        PlatformEvent::KeyDown { key, modifiers } => {
            let to_content = !modifiers.ctrl && !state.address_bar_focused && !ov.find_open
                && !ov.overlay_open;
            let d = key_decision(
                state,
                ov,
                key,
                modifiers.ctrl,
                modifiers.shift,
                page_scroll_px,
                overlay_page,
            );
            if matches!(d, KeyDecision::Act(BrowserAction::Quit)) {
                return vec![DriverCommand::Act(BrowserAction::Quit)];
            }
            let mut r: Vec<DriverCommand> = match d {
                KeyDecision::Act(a) => vec![DriverCommand::Act(a)],
                KeyDecision::ClearFind => vec![DriverCommand::ClearFind],
                KeyDecision::Ignore => Vec::new(),
            };
            if to_content && content_key_name(key).is_some() {
                r.push(DriverCommand::ContentKey(key));
            }
            r
        },
        PlatformEvent::TextInput(text) => {
            if ov.find_open || state.address_bar_focused {
                chars_as_actions(text.as_str(), ov.find_open)
            } else if !ov.overlay_open {
                vec![DriverCommand::ContentText(text)]
            } else {
                Vec::new()
            }
        },
        PlatformEvent::MouseMove { x, y } => {
            let x = clamp_coord_exec(x);
            let y = clamp_coord_exec(y);
            let target = hit_test_ui(state, ov, x, y);
            let loading = state.tabs[state.active_pos].page_state.is_loading();
            let mut r = vec![
                DriverCommand::MouseAt { x, y },
                DriverCommand::Cursor(shell_cursor(loading, &target)),
            ];
            if matches!(target, UiHitTarget::Content) {
                r.push(DriverCommand::ContentMouseMove { x, y });
            }
            r
        },
        PlatformEvent::MouseDown { x, y, button } => {
            let x = clamp_coord_exec(x);
            let y = clamp_coord_exec(y);
            let target = hit_test_ui(state, ov, x, y);
            let on_content = matches!(target, UiHitTarget::Content);
            match button {
                MouseButton::Left => {
                    if on_content {
                        vec![DriverCommand::ContentClick { x, y }]
                    } else {
                        hit_commands(ov.site_info.is_some(), target)
                    }
                },
                MouseButton::Right if on_content => vec![DriverCommand::ContentRightClick { x, y }],
                _ => Vec::new(),
            }
        },
        PlatformEvent::Scroll { delta } => {
            if ov.overlay_open {
                let rows = -delta;
                vec![DriverCommand::Act(BrowserAction::OverlayScroll(rows))]
            } else {
                let px = -delta * SCROLL_WHEEL_PIXELS;
                vec![DriverCommand::Act(BrowserAction::Scroll(px))]
            }
        },
    }
}

// ── Loading ──────────────────────────────────────────────────────────────────

/// Whether the active tab's load has run past its time: `LOAD_TIMEOUT_FRAMES`
/// frames, five times that with a real engine.
pub open spec fn load_timed_out(state: BrowserState, real_engine: bool) -> bool {
    let tab = state.active();
    let timeout: int = if real_engine {
        LOAD_TIMEOUT_FRAMES * 5
    } else {
        LOAD_TIMEOUT_FRAMES as int
    };
    let waited = if state.frame_count >= tab.load_start_frame {
        state.frame_count - tab.load_start_frame
    } else {
        0
    };
    tab.page_state is Loading && waited >= timeout
}

/// Fails the active tab's load with "Request timed out" once it has timed
/// out; does nothing otherwise.
pub fn tick_loading(state: &mut BrowserState, real_engine: bool)
    requires
        old(state).wf(),
    ensures
        final(state).wf(),
        load_timed_out(*old(state), real_engine) ==> load_failed(
            *old(state),
            *final(state),
            "Request timed out"@,
        ),
        !load_timed_out(*old(state), real_engine) ==> *final(state) == *old(state),
{
    let tab = &state.tabs[state.active_pos];
    if !tab.page_state.is_loading() {
        return;
    }
    let timeout = if real_engine {
        LOAD_TIMEOUT_FRAMES * 5
    } else {
        LOAD_TIMEOUT_FRAMES
    };
    if state.frame_count.saturating_sub(tab.load_start_frame) >= timeout {
        state.fail_loading("Request timed out");
    }
}

// ── Engine events ────────────────────────────────────────────────────────────

/// The tab an engine event is for: a tab id of 0 means the active tab.
pub open spec fn event_target(s: BrowserState, tab_id: u64) -> u64 {
    if tab_id == 0 {
        s.active_tab_id.0 as u64
    } else {
        tab_id
    }
}

/// Position of the first tab at or after `i` whose id is `raw`.
pub open spec fn raw_pos_from(tabs: Seq<TabState>, raw: u64, i: int) -> Option<int>
    decreases tabs.len() - i,
{
    if i < 0 || i >= tabs.len() {
        None
    } else if tabs[i].id.0 == raw {
        Some(i)
    } else {
        raw_pos_from(tabs, raw, i + 1)
    }
}

/// The tab an event changes, as the event leaves it: a new title or URL; a
/// load started at `frame`; a load in progress completed or failed.
pub open spec fn event_tab(t: TabState, ev: EngineEvent, frame: u64) -> TabState {
    match ev {
        EngineEvent::TitleChanged(title) => TabState { title, ..t },
        EngineEvent::UrlChanged(url) => TabState { url, ..t },
        EngineEvent::LoadStarted => TabState {
            page_state: PageState::Loading,
            load_start_frame: frame,
            ..t
        },
        EngineEvent::LoadComplete => if t.page_state is Loading {
            TabState { page_state: PageState::Loaded, ..t }
        } else {
            t
        },
        EngineEvent::LoadFailed(reason) => if t.page_state is Loading {
            TabState { page_state: PageState::Error(reason), ..t }
        } else {
            t
        },
        _ => t,
    }
}

/// The repaint flags after an event for `target`: a title repaints the chrome
/// of the active tab and the tab strip otherwise; a URL or history change
/// repaints the active tab's chrome; a load starting or completing repaints
/// its content; a failed load of a loading tab repaints everything.
pub open spec fn event_dirty(s: BrowserState, target: u64, ev: EngineEvent) -> DirtyFlags {
    let d = s.dirty;
    let active = target == s.active_tab_id.0;
    match ev {
        EngineEvent::TitleChanged(_) => if active {
            DirtyFlags { chrome: true, ..d }
        } else {
            DirtyFlags { tabs: true, ..d }
        },
        EngineEvent::UrlChanged(_) => if active {
            DirtyFlags { chrome: true, ..d }
        } else {
            d
        },
        EngineEvent::NavStateChanged { .. } => if active {
            DirtyFlags { chrome: true, ..d }
        } else {
            d
        },
        EngineEvent::LoadStarted => if active {
            DirtyFlags { content: true, ..d }
        } else {
            d
        },
        EngineEvent::LoadComplete => if active {
            DirtyFlags { content: true, ..d }
        } else {
            d
        },
        EngineEvent::LoadFailed(_) => match raw_pos_from(s.tabs@, target, 0) {
            Some(p) => if s.tabs@[p].page_state is Loading {
                all_dirty()
            } else {
                d
            },
            None => d,
        },
        _ => d,
    }
}

/// The address bar's text after an event: the active tab's new URL, or its
/// URL once its load completes, unless the user is editing it.
pub open spec fn event_input(s: BrowserState, target: u64, ev: EngineEvent) -> Seq<char> {
    let follow = target == s.active_tab_id.0 && !s.address_bar_focused;
    match ev {
        EngineEvent::UrlChanged(url) => if follow {
            url@
        } else {
            s.address_bar_input@
        },
        EngineEvent::LoadComplete => if follow {
            s.active().url@
        } else {
            s.address_bar_input@
        },
        _ => s.address_bar_input@,
    }
}

fn find_raw_pos(tabs: &Vec<TabState>, raw: u64) -> (r: Option<usize>)
    ensures
        match r {
            Some(p) => raw_pos_from(tabs@, raw, 0) == Some(p as int) && p < tabs@.len(),
            None => raw_pos_from(tabs@, raw, 0) is None,
        },
{
    let mut i: usize = 0;
    while i < tabs.len()
        invariant
            i <= tabs@.len(),
            raw_pos_from(tabs@, raw, 0) == raw_pos_from(tabs@, raw, i as int),
        decreases tabs.len() - i,
    {
        if tabs[i].id.raw() as u64 == raw {
            return Some(i);
        }
        i = i + 1;
    }
    None
}

/// `s1` is `s0`, well formed, with the tab at `p` (if any) replaced by `t`.
pub open spec fn tab_updated(s0: BrowserState, s1: BrowserState, p: Option<usize>, t: TabState) -> bool {
    &&& s1.wf()
    &&& s1.tabs@ == match p {
        Some(i) => s0.tabs@.update(i as int, t),
        None => s0.tabs@,
    }
    &&& s1 == (BrowserState { tabs: s1.tabs, ..s0 })
}

fn set_title(state: &mut BrowserState, p: Option<usize>, title: String)
    requires
        old(state).wf(),
        p matches Some(i) ==> i < old(state).tabs@.len(),
    ensures
        p matches Some(i) ==> tab_updated(
            *old(state),
            *final(state),
            p,
            TabState { title, ..old(state).tabs@[i as int] },
        ),
        p is None ==> *final(state) == *old(state),
{
    if let Some(i) = p {
        let ghost s0 = *state;
        state.tabs[i].title = title;
        proof {
            lemma_replace_tab(s0.tabs@, i as int, state.tabs@[i as int], s0.active_tab_id);
        }
    }
}

fn set_url(state: &mut BrowserState, p: Option<usize>, url: String)
    requires
        old(state).wf(),
        p matches Some(i) ==> i < old(state).tabs@.len(),
    ensures
        p matches Some(i) ==> tab_updated(
            *old(state),
            *final(state),
            p,
            TabState { url, ..old(state).tabs@[i as int] },
        ),
        p is None ==> *final(state) == *old(state),
{
    if let Some(i) = p {
        let ghost s0 = *state;
        state.tabs[i].url = url;
        proof {
            lemma_replace_tab(s0.tabs@, i as int, state.tabs@[i as int], s0.active_tab_id);
        }
    }
}

fn start_load(state: &mut BrowserState, p: Option<usize>)
    requires
        old(state).wf(),
        p matches Some(i) ==> i < old(state).tabs@.len(),
    ensures
        p matches Some(i) ==> tab_updated(
            *old(state),
            *final(state),
            p,
            TabState {
                page_state: PageState::Loading,
                load_start_frame: old(state).frame_count,
                ..old(state).tabs@[i as int]
            },
        ),
        p is None ==> *final(state) == *old(state),
{
    if let Some(i) = p {
        let ghost s0 = *state;
        let frame = state.frame_count;
        state.tabs[i].page_state = PageState::Loading;
        state.tabs[i].load_start_frame = frame;
        proof {
            assert(state.tabs@ =~= s0.tabs@.update(i as int, state.tabs@[i as int]));
            lemma_replace_tab(s0.tabs@, i as int, state.tabs@[i as int], s0.active_tab_id);
        }
    }
}

/// Ends a load in progress with `next` as the page's state.
fn end_load(state: &mut BrowserState, p: Option<usize>, next: PageState) -> (changed: bool)
    requires
        old(state).wf(),
        p matches Some(i) ==> i < old(state).tabs@.len(),
    ensures
        changed == (p matches Some(i) && old(state).tabs@[i as int].page_state is Loading),
        changed ==> tab_updated(
            *old(state),
            *final(state),
            p,
            TabState { page_state: next, ..old(state).tabs@[p->0 as int] },
        ),
        !changed ==> *final(state) == *old(state),
{
    if let Some(i) = p {
        if state.tabs[i].page_state.is_loading() {
            let ghost s0 = *state;
            state.tabs[i].page_state = next;
            proof {
                lemma_replace_tab(s0.tabs@, i as int, state.tabs@[i as int], s0.active_tab_id);
            }
            return true;
        }
    }
    false
}

/// Applies an engine event for tab `tab_id` (0: the active tab) to the
/// browser state. The tab it names changes as `event_tab` says, the repaint
/// flags as `event_dirty` says and the address bar as `event_input` says;
/// a completed load of the active tab marks the history as to be saved.
/// Nothing else in the state changes: downloads, prompts, site panels, find
/// counts, page heights and frames are kept by their own owners. A cursor
/// change comes back to be shown while the pointer is over the page.
#[verifier::rlimit(40)]
pub fn apply_engine_event(
    state: &mut BrowserState,
    save: &mut SaveDirty,
    tab_id: u64,
    ev: EngineEvent,
) -> (cursor: Option<CursorKind>)
    requires
        old(state).wf(),
    ensures
        final(state).wf(),
        ({
            let s0 = *old(state);
            let target = event_target(s0, tab_id);
            &&& final(state).tabs@ == match raw_pos_from(s0.tabs@, target, 0) {
                Some(p) => s0.tabs@.update(p, event_tab(s0.tabs@[p], ev, s0.frame_count)),
                None => s0.tabs@,
            }
            &&& final(state).dirty == event_dirty(s0, target, ev)
            &&& final(state).address_bar_input@ == event_input(s0, target, ev)
            &&& *final(state) == (BrowserState {
                tabs: final(state).tabs,
                dirty: final(state).dirty,
                address_bar_input: final(state).address_bar_input,
                ..s0
            })
            &&& final(save).history == (old(save).history || (ev is LoadComplete && target
                == s0.active_tab_id.0))
            &&& final(save).bookmarks == old(save).bookmarks
            &&& final(save).prefs == old(save).prefs
            &&& cursor == match ev {
                EngineEvent::CursorChanged(c) => if s0.hovered_region is ContentArea {
                    Some(c)
                } else {
                    None
                },
                _ => None,
            }
        }),
{
    let ghost s0 = *state;
    let ghost ev0 = ev;
    let target = if tab_id == 0 {
        state.active_tab_id.raw() as u64
    } else {
        tab_id
    };
    let active = target == state.active_tab_id.raw() as u64;
    let pos = find_raw_pos(&state.tabs, target);
    match ev {
        EngineEvent::TitleChanged(title) => {
            set_title(state, pos, title);
            if active {
                state.dirty.chrome = true;
            } else {
                state.dirty.tabs = true;
            }
            None
        },
        EngineEvent::UrlChanged(url) => {
            let follow = active && !state.address_bar_focused;
            let shown = if follow {
                url.clone()
            } else {
                state.address_bar_input.clone()
            };
            set_url(state, pos, url);
            state.address_bar_input = shown;
            if active {
                state.dirty.chrome = true;
            }
            None
        },
        EngineEvent::LoadStarted => {
            start_load(state, pos);
            if active {
                state.dirty.content = true;
            }
            None
        },
        EngineEvent::LoadComplete => {
            end_load(state, pos, PageState::Loaded);
            if active {
                if !state.address_bar_focused {
                    state.sync_address_bar();
                }
                state.dirty.content = true;
                save.history = true;
            }
            None
        },
        EngineEvent::LoadFailed(reason) => {
            if end_load(state, pos, PageState::Error(reason)) {
                state.dirty.all();
            }
            None
        },
        EngineEvent::NavStateChanged { .. } => {
            if active {
                state.dirty.chrome = true;
            }
            None
        },
        EngineEvent::CursorChanged(c) => {
            if matches!(state.hovered_region, crate::ui_state::HoveredRegion::ContentArea) {
                Some(c)
            } else {
                None
            }
        },
        _ => None,
    }
}

// ── The frame loop ───────────────────────────────────────────────────────────

/// Frames a loading page stays visibly loading, at least, before a fetched
/// result is shown.
pub const LOAD_MIN_FRAMES: u64 = 60;

/// Frames per phase of the address bar's blinking caret.
pub const CARET_BLINK_FRAMES: u64 = 28;

/// Command-line flags that select a self-test rather than a page.
pub open spec fn is_test_flag(a: Seq<char>) -> bool {
    ||| a == "--smoke-test"@
    ||| a == "--smoke-test-webkit"@
    ||| a == "--smoke-test-adblock"@
    ||| a == "--smoke-test-find"@
}

/// The arguments other than test flags joined with single spaces (`None`
/// when there are none).
pub open spec fn joined_args(args: Seq<Seq<char>>) -> Option<Seq<char>>
    decreases args.len(),
{
    if args.len() == 0 {
        None
    } else {
        let last = args.last();
        let prev = joined_args(args.drop_last());
        if is_test_flag(last) {
            prev
        } else {
            match prev {
                None => Some(last),
                Some(p) => Some(p + seq![' '] + last),
            }
        }
    }
}

/// The text typed on the command line, trimmed.
pub open spec fn startup_text(args: Seq<Seq<char>>) -> Seq<char> {
    match joined_args(args) {
        Some(t) => trim(t),
        None => seq![],
    }
}

pub open spec fn arg_views(args: Seq<String>) -> Seq<Seq<char>> {
    args.map_values(|a: String| a@)
}

fn is_test_flag_exec(a: &Vec<char>) -> (b: bool)
    ensures
        b == is_test_flag(a@),
{
    seq_eq(a, &lit("--smoke-test")) || seq_eq(a, &lit("--smoke-test-webkit")) || seq_eq(
        a,
        &lit("--smoke-test-adblock"),
    ) || seq_eq(a, &lit("--smoke-test-find"))
}

/// What the browser does first with its command line (the arguments after
/// the program's name): the words other than test flags, joined and
/// trimmed, go to the omnibox; with none there is nothing to do.
pub fn startup_action(args: &[String]) -> (a: Option<BrowserAction>)
    ensures
        startup_text(arg_views(args@)).len() == 0 ==> a is None,
        startup_text(arg_views(args@)).len() > 0 ==> (a matches Some(BrowserAction::Navigate(t))
            && t@ == startup_text(arg_views(args@))),
{
    let ghost views = arg_views(args@);
    let mut joined: Vec<char> = Vec::new();
    let mut any = false;
    let mut i: usize = 0;
    while i < args.len()
        invariant
            i <= args@.len(),
            views == arg_views(args@),
            any ==> joined_args(views.take(i as int)) == Some(joined@),
            !any ==> joined_args(views.take(i as int)) is None && joined@.len() == 0,
        decreases args.len() - i,
    {
        let a = chars_of(args[i].as_str());
        assert(views.take(i + 1).drop_last() =~= views.take(i as int));
        assert(views.take(i + 1).last() == a@);
        if !is_test_flag_exec(&a) {
            let ghost prev = joined@;
            if any {
                joined.push(' ');
            }
            extend_chars(&mut joined, &a);
            proof {
                if any {
                    assert(joined@ =~= prev + seq![' '] + a@);
                } else {
                    assert(joined@ =~= a@);
                }
            }
            any = true;
        }
        i = i + 1;
    }
    assert(views.take(i as int) =~= views);
    if !any {
        return None;
    }
    let t = trim_exec(&joined);
    if t.len() == 0 {
        None
    } else {
        Some(BrowserAction::Navigate(string_of(&t)))
    }
}

/// Starts a frame: the frame counter advances and a pressed navigation
/// button is released once its highlight has run its time.
pub fn begin_frame(state: &mut BrowserState)
    requires
        old(state).wf(),
        old(state).frame_count < u64::MAX,
        old(state).nav_btn_pressed != 0 ==> old(state).nav_btn_pressed_frame + 12 <= u64::MAX,
    ensures
        final(state).wf(),
        ({
            let s1 = BrowserState { frame_count: (old(state).frame_count + 1) as u64, ..*old(state) };
            if s1.nav_btn_pressed != 0 && s1.frame_count > s1.nav_btn_pressed_frame + 12 {
                *final(state) == (BrowserState {
                    nav_btn_pressed: 0,
                    dirty: DirtyFlags { chrome: true, ..s1.dirty },
                    ..s1
                })
            } else {
                *final(state) == s1
            }
        }),
{
    state.frame_count = state.frame_count + 1;
    state.tick_nav_btn();
}

/// What a page fetch gave: the page's title, or why it failed.
#[derive(Debug, Clone, PartialEq)]
pub enum FetchOutcome {
    Success { title: String },
    Failure(String),
}

/// What polling the fetch in flight found this frame.
#[derive(Debug, Clone, PartialEq)]
pub enum FetchPoll {
    /// Still running (or none in flight).
    Waiting,
    Arrived(FetchOutcome),
    /// The fetcher went away without an answer.
    Lost,
}

/// The fetch in flight, and a result held back until the page has shown its
/// loading state long enough, each with the tab it is for.
#[derive(Debug, Clone)]
pub struct FetchSlot {
    pub pending: Option<TabId>,
    pub buffered: Option<(TabId, FetchOutcome)>,
}

/// Whether the active tab is loading.
pub open spec fn active_loading(s: BrowserState) -> bool {
    s.active().page_state is Loading
}

/// Whether a fetch must be started: without a real engine, for a loading
/// active tab that has no fetch in flight and no result held back.
pub open spec fn needs_fetch(s: BrowserState, slot: FetchSlot, real_engine: bool) -> bool {
    let id = s.active().id;
    &&& !real_engine
    &&& active_loading(s)
    &&& slot.pending != Some(id)
    &&& !(slot.buffered matches Some((b, _)) && b == id)
}

/// Decides whether to start a fetch; if so it is recorded as in flight (in
/// place of any earlier one) and its tab and URL come back for the caller to
/// fetch.
pub fn fetch_to_spawn(state: &BrowserState, slot: &mut FetchSlot, real_engine: bool) -> (r: Option<
    (TabId, String),
>)
    requires
        state.wf(),
    ensures
        needs_fetch(*state, *old(slot), real_engine) ==> (r matches Some((id, url)) && id
            == state.active().id && url@ == state.active().url@ && final(slot).pending == Some(id)
            && final(slot).buffered == old(slot).buffered),
        !needs_fetch(*state, *old(slot), real_engine) ==> r is None && *final(slot) == *old(slot),
{
    if real_engine {
        return None;
    }
    let tab = &state.tabs[state.active_pos];
    if !tab.page_state.is_loading() {
        return None;
    }
    let pending = match slot.pending {
        Some(id) => id == tab.id,
        None => false,
    };
    let buffered = match &slot.buffered {
        Some((id, _)) => *id == tab.id,
        None => false,
    };
    if pending || buffered {
        return None;
    }
    slot.pending = Some(tab.id);
    Some((tab.id, tab.url.clone()))
}

/// Takes in what polling the fetch in flight found: an answer is held back
/// for its tab; a fetcher that went away fails its tab's load with
/// "Connection lost" if that tab is still the active one and loading.
/// Without a fetch in flight nothing happens.
pub fn receive_fetch(state: &mut BrowserState, slot: &mut FetchSlot, poll: FetchPoll)
    requires
        old(state).wf(),
    ensures
        final(state).wf(),
        match (old(slot).pending, poll) {
            (Some(id), FetchPoll::Arrived(out)) => final(slot).pending is None
                && final(slot).buffered == Some((id, out)) && *final(state) == *old(state),
            (Some(id), FetchPoll::Lost) => {
                &&& final(slot).pending is None
                &&& final(slot).buffered == old(slot).buffered
                &&& old(state).active().id == id && active_loading(*old(state)) ==> load_failed(
                    *old(state),
                    *final(state),
                    "Connection lost"@,
                )
                &&& !(old(state).active().id == id && active_loading(*old(state)))
                    ==> *final(state) == *old(state)
            },
            _ => *final(slot) == *old(slot) && *final(state) == *old(state),
        },
{
    let id = match slot.pending {
        Some(id) => id,
        None => return ,
    };
    match poll {
        FetchPoll::Arrived(out) => {
            slot.pending = None;
            slot.buffered = Some((id, out));
        },
        FetchPoll::Lost => {
            slot.pending = None;
            let tab = &state.tabs[state.active_pos];
            if tab.id == id && tab.page_state.is_loading() {
                state.fail_loading("Connection lost");
            }
        },
        FetchPoll::Waiting => {},
    }
}

/// Whether the held-back result is due: it is for the active tab, which is
/// still loading and has shown its loading state for `LOAD_MIN_FRAMES`
/// frames.
pub open spec fn result_due(s: BrowserState, slot: FetchSlot) -> bool {
    let t = s.active();
    let waited = if s.frame_count >= t.load_start_frame {
        s.frame_count - t.load_start_frame
    } else {
        0
    };
    slot.buffered matches Some((id, _)) && id == t.id && t.page_state is Loading && waited
        >= LOAD_MIN_FRAMES
}

/// Shows a held-back result once it is due: a page loads under its title
/// (and the history is to be saved), a failure shows its reason.
pub fn apply_buffered(state: &mut BrowserState, slot: &mut FetchSlot, save: &mut SaveDirty)
    requires
        old(state).wf(),
    ensures
        final(state).wf(),
        !result_due(*old(state), *old(slot)) ==> *final(state) == *old(state) && *final(slot)
            == *old(slot) && *final(save) == *old(save),
        result_due(*old(state), *old(slot)) ==> final(slot).pending == old(slot).pending
            && final(slot).buffered is None && match old(slot).buffered {
            Some((_, FetchOutcome::Success { title })) => {
                &&& only_active_tab_changed(*old(state), *final(state))
                &&& loaded_with_title(
                    old(state).active(),
                    final(state).active(),
                    commit_title(title@, old(state).active().url@),
                )
                &&& *final(state) == (BrowserState {
                    tabs: final(state).tabs,
                    dirty: all_dirty(),
                    ..*old(state)
                })
                &&& *final(save) == (SaveDirty { history: true, ..*old(save) })
            },
            Some((_, FetchOutcome::Failure(reason))) => load_failed(
                *old(state),
                *final(state),
                reason@,
            ) && *final(save) == *old(save),
            None => false,
        },
{
    let due = match &slot.buffered {
        Some((id, _)) => {
            let t = &state.tabs[state.active_pos];
            *id == t.id && t.page_state.is_loading() && state.frame_count.saturating_sub(
                t.load_start_frame,
            ) >= LOAD_MIN_FRAMES
        },
        None => false,
    };
    if !due {
        return ;
    }
    let taken = slot.buffered.take();
    match taken {
        Some((_, FetchOutcome::Success { title })) => {
            state.resolve_loading(title);
            save.history = true;
        },
        Some((_, FetchOutcome::Failure(reason))) => {
            state.fail_loading(reason.as_str());
        },
        None => {},
    }
}

/// The repaint flags for animation: everything while the active page loads
/// (the spinner and progress bar move), and the address bar when its caret
/// enters a new blink phase while it is focused.
pub open spec fn animated_dirty(s: BrowserState, last_blink: u64) -> DirtyFlags {
    let d = if active_loading(s) {
        all_dirty()
    } else {
        s.dirty
    };
    if s.address_bar_focused && s.frame_count / CARET_BLINK_FRAMES != last_blink {
        DirtyFlags { chrome: true, content: d.content || s.active().page_state is NewTab, ..d }
    } else {
        d
    }
}

/// Marks what animation must repaint this frame, as `animated_dirty` says,
/// and records the caret's blink phase.
pub fn animate_dirty(state: &mut BrowserState, last_blink: &mut u64)
    requires
        old(state).wf(),
    ensures
        final(state).wf(),
        *final(state) == (BrowserState {
            dirty: animated_dirty(*old(state), *old(last_blink)),
            ..*old(state)
        }),
        old(state).address_bar_focused && old(state).frame_count / CARET_BLINK_FRAMES != *old(
            last_blink,
        ) ==> *final(last_blink) == old(state).frame_count / CARET_BLINK_FRAMES,
        !(old(state).address_bar_focused && old(state).frame_count / CARET_BLINK_FRAMES != *old(
            last_blink,
        )) ==> *final(last_blink) == *old(last_blink),
{
    if state.tabs[state.active_pos].page_state.is_loading() {
        state.dirty.tabs = true;
        state.dirty.chrome = true;
        state.dirty.content = true;
    }
    if state.address_bar_focused {
        let blink = state.frame_count / CARET_BLINK_FRAMES;
        if blink != *last_blink {
            *last_blink = blink;
            state.dirty_address_bar();
        }
    }
}

/// The decisions of one frame after its events: take in the fetch poll,
/// show a due result, fail a load that timed out, then mark what animation
/// repaints. A loading active page is repainted whole, and a focused
/// address bar whenever its caret enters a new blink phase.
pub fn runtime_step(
    state: &mut BrowserState,
    slot: &mut FetchSlot,
    save: &mut SaveDirty,
    poll: FetchPoll,
    real_engine: bool,
    last_blink: &mut u64,
)
    requires
        old(state).wf(),
    ensures
        final(state).wf(),
        active_loading(*final(state)) ==> final(state).dirty == all_dirty(),
        final(state).address_bar_focused && final(state).frame_count / CARET_BLINK_FRAMES != *old(
            last_blink,
        ) ==> *final(last_blink) == final(state).frame_count / CARET_BLINK_FRAMES
            && final(state).dirty.chrome,
        !(final(state).address_bar_focused && final(state).frame_count / CARET_BLINK_FRAMES
            != *old(last_blink)) ==> *final(last_blink) == *old(last_blink),
        final(state).frame_count == old(state).frame_count,
{
    receive_fetch(state, slot, poll);
    apply_buffered(state, slot, save);
    tick_loading(state, real_engine);
    animate_dirty(state, last_blink);
}

// ── Laws ─────────────────────────────────────────────────────────────────────

/// While the address bar, the find bar or an overlay list has the keyboard,
/// or Ctrl is held, no key press reaches the page.
pub proof fn law_chrome_keeps_keys(
    state: BrowserState,
    ov: HitOverlays,
    key: BrowserKey,
    modifiers: crate::input::Modifiers,
    page_scroll_px: i32,
    overlay_page: i32,
)
    requires
        state.address_bar_focused || ov.find_open || ov.overlay_open || modifiers.ctrl,
    ensures
        ({
            let cmds = spec_platform_commands(
                state,
                ov,
                PlatformEvent::KeyDown { key, modifiers },
                page_scroll_px,
                overlay_page,
            );
            forall|i: int| 0 <= i < cmds.len() ==> !(#[trigger] cmds[i] is ContentKey)
        }),
{
}

/// An engine event tagged with tab id 0 is an event for the active tab.
pub proof fn law_zero_tab_id_means_active(s: BrowserState)
    ensures
        event_target(s, 0) == s.active_tab_id.0 && event_target(
            s,
            s.active_tab_id.0 as u64,
        ) == event_target(s, 0),
{
}

/// Each zoom key held with Ctrl asks for its own zoom action whenever the
/// find bar and overlay lists are closed, whatever else the state is; without
/// Ctrl a zoom key never zooms.
pub proof fn law_zoom_keys(
    state: BrowserState,
    ov: HitOverlays,
    shift: bool,
    page_scroll_px: i32,
    overlay_page: i32,
)
    requires
        !ov.find_open,
        !ov.overlay_open,
    ensures
        spec_key_decision(state, ov, BrowserKey::ZoomIn, true, shift, page_scroll_px, overlay_page)
            == KeyDecision::Act(BrowserAction::ZoomIn),
        spec_key_decision(state, ov, BrowserKey::ZoomOut, true, shift, page_scroll_px, overlay_page)
            == KeyDecision::Act(BrowserAction::ZoomOut),
        spec_key_decision(state, ov, BrowserKey::ZoomReset, true, shift, page_scroll_px, overlay_page)
            == KeyDecision::Act(BrowserAction::ZoomReset),
        forall|k: BrowserKey|
            (k == BrowserKey::ZoomIn || k == BrowserKey::ZoomOut || k == BrowserKey::ZoomReset)
                ==> !(#[trigger] spec_key_decision(
                state,
                ov,
                k,
                false,
                shift,
                page_scroll_px,
                overlay_page,
            ) matches KeyDecision::Act(a) && (a is ZoomIn || a is ZoomOut || a is ZoomReset)),
{
}

} // verus!
