//! Hit-testing of the browser chrome and content: which control a point of
//! the window falls on. Layout knowledge stays here; what a target does is
//! decided elsewhere.
use vstd::prelude::*;

use vstd::arithmetic::div_mod::{lemma_fundamental_div_mod, lemma_fundamental_div_mod_converse};

use crate::layout::{
    spec_retry_btn_pos, retry_btn_pos, ADDR_BAR_H, ADDR_BAR_W, CHROME_BAR_HEIGHT, FB_HEIGHT, FB_WIDTH,
    QUICK_LINK_GAP, QUICK_LINK_H, QUICK_LINK_W, RETRY_BTN_H, RETRY_BTN_W, TAB_BAR_HEIGHT,
    TAB_NEW_BTN_W, TAB_SEP, TAB_START_X, TOP_BAR_HEIGHT,
};
use crate::permissions::{PermissionDecision, PermissionKind};
use crate::ui_state::{BrowserState, PageState, QuickLink, TabId, TabState};

verus! {

broadcast use vstd::string::group_string_axioms;

/// A rectangle as (x, y, width, height).
pub type Rect = (u32, u32, u32, u32);

/// What a point of the window falls on.
#[derive(Debug, Clone, PartialEq)]
pub enum UiHitTarget {
    NoTarget,
    BackButton,
    ForwardButton,
    ReloadButton,
    AddressBar,
    BookmarkButton,
    SiteInfoButton,
    NewTabButton,
    Tab(TabId),
    CloseTab(TabId),
    NewTabSearch,
    QuickLink(String),
    OverlayActivate,
    PermissionAllow,
    PermissionDeny,
    PermissionRememberToggle,
    PermissionPrompt,
    SiteInfoPanel,
    SitePermission { permission: PermissionKind, decision: PermissionDecision },
    SiteAdblockToggle,
    FindClose,
    ErrorRetry,
    Content,
}

// ── Rectangles ───────────────────────────────────────────────────────────────

pub open spec fn spec_in_rect(x: int, y: int, rect: Rect) -> bool {
    x >= rect.0 && x < rect.0 + rect.2 && y >= rect.1 && y < rect.1 + rect.3
}

/// Whether the point lies inside `rect` (left and top edges included).
pub fn in_rect(x: u32, y: u32, rect: Rect) -> (b: bool)
    requires
        rect.0 + rect.2 <= u32::MAX,
        rect.1 + rect.3 <= u32::MAX,
    ensures
        b == spec_in_rect(x as int, y as int, rect),
{
    let (rx, ry, rw, rh) = rect;
    x >= rx && x < rx + rw && y >= ry && y < ry + rh
}

pub open spec fn spec_permission_prompt_rect() -> Rect {
    (24, (TOP_BAR_HEIGHT + 20) as u32, 560, 88)
}

/// The permission prompt, under the top bar at the left.
pub fn permission_prompt_rect() -> (r: Rect)
    ensures
        r == spec_permission_prompt_rect(),
{
    (24, TOP_BAR_HEIGHT + 20, 560, 88)
}

pub open spec fn spec_permission_prompt_hit_rects() -> (Rect, Rect, Rect) {
    let (x, y, w, h) = spec_permission_prompt_rect();
    (
        ((x + 18) as u32, (y + 56) as u32, 150, 22),
        ((x + w - 180) as u32, (y + 52) as u32, 72, 26),
        ((x + w - 96) as u32, (y + 52) as u32, 72, 26),
    )
}

/// The prompt's remember toggle, deny button and allow button.
pub fn permission_prompt_hit_rects() -> (r: (Rect, Rect, Rect))
    ensures
        r == spec_permission_prompt_hit_rects(),
{
    let (x, y, w, _) = permission_prompt_rect();
    ((x + 18, y + 56, 150, 22), (x + w - 180, y + 52, 72, 26), (x + w - 96, y + 52, 72, 26))
}

pub open spec fn spec_site_info_rect() -> Rect {
    (((FB_WIDTH - ADDR_BAR_W) / 2) as u32, (TOP_BAR_HEIGHT + 8) as u32, 560, 292)
}

/// The site information panel, hanging from the address bar.
pub fn site_info_rect() -> (r: Rect)
    ensures
        r == spec_site_info_rect(),
{
    let bar_x = (FB_WIDTH - ADDR_BAR_W) / 2;
    (bar_x, TOP_BAR_HEIGHT + 8, 560, 292)
}

pub open spec fn spec_permission_kinds_ui() -> Seq<PermissionKind> {
    seq![
        PermissionKind::Notifications,
        PermissionKind::Geolocation,
        PermissionKind::Camera,
        PermissionKind::Microphone,
        PermissionKind::Clipboard,
    ]
}

/// The permissions the site information panel lists, one row each, in order.
pub fn permission_kinds_ui() -> (r: [PermissionKind; 5])
    ensures
        r@ == spec_permission_kinds_ui(),
{
    let r = [
        PermissionKind::Notifications,
        PermissionKind::Geolocation,
        PermissionKind::Camera,
        PermissionKind::Microphone,
        PermissionKind::Clipboard,
    ];
    assert(r@ =~= spec_permission_kinds_ui());
    r
}

/// Top of row `row` of the panel's permission list.
pub open spec fn permission_row_y(row: int) -> int {
    spec_site_info_rect().1 + 108 + row * 30
}

pub open spec fn spec_site_info_permission_rects(row_y: u32) -> Seq<(PermissionDecision, Rect)> {
    let x = spec_site_info_rect().0;
    seq![
        (PermissionDecision::Ask, ((x + 300) as u32, row_y, 52, 22)),
        (PermissionDecision::Allow, ((x + 360) as u32, row_y, 62, 22)),
        (PermissionDecision::Deny, ((x + 430) as u32, row_y, 56, 22)),
    ]
}

/// The ask, allow and deny buttons of row `row` of the panel's permission
/// list.
pub fn site_info_permission_rects(row: usize) -> (r: [(PermissionDecision, Rect); 3])
    requires
        permission_row_y((row as u32) as int) <= u32::MAX,
    ensures
        r@ == spec_site_info_permission_rects(permission_row_y((row as u32) as int) as u32),
{
    let (x, y, _, _) = site_info_rect();
    let row_y = y + 108 + (row as u32) * 30;
    let r = [
        (PermissionDecision::Ask, (x + 300, row_y, 52, 22)),
        (PermissionDecision::Allow, (x + 360, row_y, 62, 22)),
        (PermissionDecision::Deny, (x + 430, row_y, 56, 22)),
    ];
    assert(r@ =~= spec_site_info_permission_rects(row_y));
    r
}

pub open spec fn spec_site_info_adblock_rect() -> Rect {
    let (x, y, w, h) = spec_site_info_rect();
    ((x + w - 190) as u32, (y + h - 34) as u32, 166, 24)
}

/// The panel's ad-blocking toggle, at its bottom right.
pub fn site_info_adblock_rect() -> (r: Rect)
    ensures
        r == spec_site_info_adblock_rect(),
{
    let (x, y, w, h) = site_info_rect();
    (x + w - 190, y + h - 34, 166, 24)
}

// ── Strips of equal slots ────────────────────────────────────────────────────

/// Whether slot `j` of a strip starting at `start`, one slot every `pitch`
/// pixels and each `width` wide, holds `x`.
pub open spec fn slot_holds(x: int, start: int, pitch: int, width: int, j: int) -> bool {
    start + j * pitch <= x < start + j * pitch + width
}

/// Which of the `count` slots of such a strip holds `x`.
pub open spec fn strip_slot(x: int, start: int, pitch: int, width: int, count: int) -> Option<
    int,
> {
    if x >= start && (x - start) / pitch < count && (x - start) % pitch < width {
        Some((x - start) / pitch)
    } else {
        None
    }
}

proof fn lemma_slot_is_strip_slot(x: int, start: int, pitch: int, width: int, count: int, j: int)
    requires
        0 < width <= pitch,
        0 <= j < count,
        slot_holds(x, start, pitch, width, j),
    ensures
        strip_slot(x, start, pitch, width, count) == Some(j),
{
    lemma_fundamental_div_mod_converse(x - start, pitch, j, x - start - j * pitch);
}

proof fn lemma_no_slot(x: int, start: int, pitch: int, width: int, count: int)
    requires
        0 < width <= pitch,
        forall|j: int| 0 <= j < count ==> !#[trigger] slot_holds(x, start, pitch, width, j),
    ensures
        strip_slot(x, start, pitch, width, count) is None,
{
    if x >= start {
        let q = (x - start) / pitch;
        let r = (x - start) % pitch;
        lemma_fundamental_div_mod(x - start, pitch);
        assert(x - start == q * pitch + r) by (nonlinear_arith)
            requires
                x - start == pitch * q + r,
        ;
        if q < count && r < width {
            assert(q >= 0) by (nonlinear_arith)
                requires
                    pitch > 0,
                    x - start >= 0,
                    q == (x - start) / pitch,
            ;
            assert(slot_holds(x, start, pitch, width, q));
        }
    }
}

/// The slot of the strip that holds `x`, trying each in turn.
fn strip_hit(x: u32, start: u32, pitch: u32, width: u32, count: usize) -> (r: Option<usize>)
    requires
        0 < width <= pitch,
        start + count * pitch <= u32::MAX,
    ensures
        match r {
            Some(i) => i < count && strip_slot(x as int, start as int, pitch as int, width as int, count as int)
                == Some(i as int),
            None => strip_slot(x as int, start as int, pitch as int, width as int, count as int) is None,
        },
{
    let mut i: usize = 0;
    while i < count
        invariant
            0 < width <= pitch,
            start + count * pitch <= u32::MAX,
            i <= count,
            forall|j: int|
                0 <= j < i ==> !#[trigger] slot_holds(
                    x as int,
                    start as int,
                    pitch as int,
                    width as int,
                    j,
                ),
        decreases count - i,
    {
        assert(i * pitch + pitch <= count * pitch && i < count * pitch) by (nonlinear_arith)
            requires
                i < count,
                pitch > 0,
        ;
        assert((i as u32) as int == i as int);
        let lx = start + (i as u32) * pitch;
        let rx = lx + width;
        if x >= lx && x < rx {
            proof {
                assert(slot_holds(x as int, start as int, pitch as int, width as int, i as int));
                lemma_slot_is_strip_slot(
                    x as int,
                    start as int,
                    pitch as int,
                    width as int,
                    count as int,
                    i as int,
                );
            }
            return Some(i);
        }
        assert(!slot_holds(x as int, start as int, pitch as int, width as int, i as int));
        i = i + 1;
    }
    proof {
        lemma_no_slot(x as int, start as int, pitch as int, width as int, count as int);
    }
    None
}

// ── Tab strip ────────────────────────────────────────────────────────────────

/// Whether the tab strip, with the new-tab button after it, fits the `u32`
/// coordinates the layout uses.
pub open spec fn tab_strip_fits(state: BrowserState) -> bool {
    TAB_START_X + state.tabs@.len() * (state.tab_width + TAB_SEP) + TAB_NEW_BTN_W <= u32::MAX
}

/// What a click at `x` in the tab strip hits: a tab (its right 18 pixels
/// close it), the new-tab button after the last tab, or nothing.
pub open spec fn spec_hit_tab_bar(tabs: Seq<TabState>, tw: u32, x: u32) -> UiHitTarget {
    let pitch = tw + TAB_SEP;
    match strip_slot(x as int, TAB_START_X as int, pitch, tw as int, tabs.len() as int) {
        Some(i) => {
            let lx = TAB_START_X + i * pitch;
            let close_from = if tw >= 18 {
                tw - 18
            } else {
                0
            };
            if x >= lx + close_from {
                UiHitTarget::CloseTab(tabs[i].id)
            } else {
                UiHitTarget::Tab(tabs[i].id)
            }
        },
        None => {
            let next_x = TAB_START_X + tabs.len() * pitch;
            if next_x <= x < next_x + TAB_NEW_BTN_W {
                UiHitTarget::NewTabButton
            } else {
                UiHitTarget::NoTarget
            }
        },
    }
}

fn hit_tab_bar(state: &BrowserState, x: u32) -> (t: UiHitTarget)
    requires
        state.wf(),
        tab_strip_fits(*state),
    ensures
        t == spec_hit_tab_bar(state.tabs@, state.tab_width, x),
{
    let tw = state.tab_width;
    let n = state.tabs.len();
    proof {
        assert(n * (tw + TAB_SEP) <= n * (tw + TAB_SEP));
    }
    match strip_hit(x, TAB_START_X, tw + TAB_SEP, tw, n) {
        Some(i) => {
            assert(i * (tw + TAB_SEP) + (tw + TAB_SEP) <= n * (tw + TAB_SEP)) by (nonlinear_arith)
                requires
                    i < n,
            ;
            assert((i as u32) as int == i as int);
            let lx = TAB_START_X + (i as u32) * (tw + TAB_SEP);
            let id = state.tabs[i].id;
            if x >= lx + tw.saturating_sub(18) {
                UiHitTarget::CloseTab(id)
            } else {
                UiHitTarget::Tab(id)
            }
        },
        None => {
            assert((n as u32) as int == n as int);
            let next_x = TAB_START_X + (n as u32) * (tw + TAB_SEP);
            if x >= next_x && x < next_x + TAB_NEW_BTN_W {
                UiHitTarget::NewTabButton
            } else {
                UiHitTarget::NoTarget
            }
        },
    }
}

// ── Chrome bar ───────────────────────────────────────────────────────────────

pub open spec fn spec_hit_chrome_bar(find_open: bool, x: u32, y: u32) -> UiHitTarget {
    let fx = FB_WIDTH - (380 + 48);
    let fy = TAB_BAR_HEIGHT + (CHROME_BAR_HEIGHT - 28) / 2;
    let bar_x = (FB_WIDTH - ADDR_BAR_W) / 2;
    let bar_y = TAB_BAR_HEIGHT + (CHROME_BAR_HEIGHT - ADDR_BAR_H) / 2;
    let in_bar_rows = bar_y <= y < bar_y + ADDR_BAR_H;
    if find_open && fx + 356 <= x < fx + 380 && fy <= y < fy + 28 {
        UiHitTarget::FindClose
    } else if 12 <= x < 12 + 32 {
        UiHitTarget::BackButton
    } else if 54 <= x < 54 + 32 {
        UiHitTarget::ForwardButton
    } else if 96 <= x < 96 + 32 {
        UiHitTarget::ReloadButton
    } else if bar_x <= x < bar_x + 30 && in_bar_rows {
        UiHitTarget::SiteInfoButton
    } else if bar_x + ADDR_BAR_W - 26 <= x < bar_x + ADDR_BAR_W && in_bar_rows {
        UiHitTarget::BookmarkButton
    } else if bar_x <= x < bar_x + ADDR_BAR_W && in_bar_rows {
        UiHitTarget::AddressBar
    } else {
        UiHitTarget::NoTarget
    }
}

/// What a click in the chrome bar hits: the find bar's close button when it
/// is open, the back, forward and reload buttons, the site-information and
/// bookmark buttons at the ends of the address bar, or the address bar.
fn hit_chrome_bar(find_open: bool, x: u32, y: u32) -> (t: UiHitTarget)
    ensures
        t == spec_hit_chrome_bar(find_open, x, y),
{
    if find_open {
        let fx = FB_WIDTH.saturating_sub(380 + 48);
        let fy = TAB_BAR_HEIGHT + (CHROME_BAR_HEIGHT - 28) / 2;
        if x >= fx + 356 && x < fx + 380 && y >= fy && y < fy + 28 {
            return UiHitTarget::FindClose;
        }
    }
    let btn_r: u32 = 16;
    if x >= 12 && x < 12 + btn_r * 2 {
        return UiHitTarget::BackButton;
    }
    if x >= 54 && x < 54 + btn_r * 2 {
        return UiHitTarget::ForwardButton;
    }
    if x >= 96 && x < 96 + btn_r * 2 {
        return UiHitTarget::ReloadButton;
    }
    let bar_x = (FB_WIDTH - ADDR_BAR_W) / 2;
    let bar_y = TAB_BAR_HEIGHT + (CHROME_BAR_HEIGHT - ADDR_BAR_H) / 2;
    if x >= bar_x && x < bar_x + 30 && y >= bar_y && y < bar_y + ADDR_BAR_H {
        return UiHitTarget::SiteInfoButton;
    }
    if x >= bar_x + ADDR_BAR_W - 26 && x < bar_x + ADDR_BAR_W && y >= bar_y && y < bar_y
        + ADDR_BAR_H {
        return UiHitTarget::BookmarkButton;
    }
    if x >= bar_x && x < bar_x + ADDR_BAR_W && y >= bar_y && y < bar_y + ADDR_BAR_H {
        UiHitTarget::AddressBar
    } else {
        UiHitTarget::NoTarget
    }
}

// ── Page content ─────────────────────────────────────────────────────────────

/// Centre of the content area, where the new-tab page and error page sit.
pub open spec fn content_center() -> (int, int) {
    ((FB_WIDTH / 2) as int, TOP_BAR_HEIGHT + (FB_HEIGHT - TOP_BAR_HEIGHT) / 2)
}

/// How many bookmarks the new-tab page shows as quick links.
pub open spec fn quick_link_count(n: int) -> int {
    if n < 6 {
        n
    } else {
        6
    }
}

/// Left edge of a centred row of `num` quick links.
pub open spec fn quick_links_left(num: int) -> int {
    let row_w = num * QUICK_LINK_W + (num - 1) * QUICK_LINK_GAP;
    let cx = content_center().0;
    if cx >= row_w / 2 {
        cx - row_w / 2
    } else {
        0
    }
}

/// What a click in the content area hits: the retry button of an error
/// page; the search box or a quick link of the new-tab page; else the page.
pub open spec fn spec_hit_content(
    page: PageState,
    bookmarks: Seq<QuickLink>,
    x: u32,
    y: u32,
) -> UiHitTarget {
    match page {
        PageState::Error(_) => {
            let (bx, by) = spec_retry_btn_pos();
            if bx <= x < bx + RETRY_BTN_W && by <= y < by + RETRY_BTN_H {
                UiHitTarget::ErrorRetry
            } else {
                UiHitTarget::Content
            }
        },
        PageState::NewTab => {
            let (cx, cy) = content_center();
            let sx = cx - 300int;
            let sy = cy - 90int;
            let num = quick_link_count(bookmarks.len() as int);
            let ly = cy + 46;
            if sx <= x < sx + 600 && sy <= y < sy + 48 {
                UiHitTarget::NewTabSearch
            } else if num > 0 && ly <= y < ly + QUICK_LINK_H {
                match strip_slot(
                    x as int,
                    quick_links_left(num),
                    QUICK_LINK_W + QUICK_LINK_GAP,
                    QUICK_LINK_W as int,
                    num,
                ) {
                    Some(k) => UiHitTarget::QuickLink(bookmarks[k].url),
                    None => UiHitTarget::Content,
                }
            } else {
                UiHitTarget::Content
            }
        },
        _ => UiHitTarget::Content,
    }
}

fn hit_content(state: &BrowserState, x: u32, y: u32) -> (t: UiHitTarget)
    requires
        state.wf(),
    ensures
        t == spec_hit_content(state.active().page_state, state.bookmarks@, x, y),
{
    let tab = &state.tabs[state.active_pos];
    match &tab.page_state {
        PageState::Error(_) => {
            let (bx, by) = retry_btn_pos();
            if x >= bx && x < bx + RETRY_BTN_W && y >= by && y < by + RETRY_BTN_H {
                return UiHitTarget::ErrorRetry;
            }
        },
        PageState::NewTab => {
            let cx = FB_WIDTH / 2;
            let cy = TOP_BAR_HEIGHT + (FB_HEIGHT - TOP_BAR_HEIGHT) / 2;
            let sw: u32 = 600;
            let sh: u32 = 48;
            let sx = cx.saturating_sub(sw / 2);
            let sy = cy.saturating_sub(90);
            if x >= sx && x < sx + sw && y >= sy && y < sy + sh {
                return UiHitTarget::NewTabSearch;
            }
            let count: usize = if state.bookmarks.len() < 6 {
                state.bookmarks.len()
            } else {
                6
            };
            let num = count as u32;
            if num > 0 {
                let row_w = num * QUICK_LINK_W + (num - 1) * QUICK_LINK_GAP;
                let lx = cx.saturating_sub(row_w / 2);
                let ly = cy + 46;
                if y >= ly && y < ly + QUICK_LINK_H {
                    match strip_hit(x, lx, QUICK_LINK_W + QUICK_LINK_GAP, QUICK_LINK_W, count) {
                        Some(k) => {
                            return UiHitTarget::QuickLink(state.bookmarks[k].url.clone());
                        },
                        None => {},
                    }
                }
            }
        },
        _ => {},
    }
    UiHitTarget::Content
}

// ── Prompt and site information panel ────────────────────────────────────────

/// A permission prompt on screen: the tab and the navigation that asked.
#[derive(Debug, Clone, Copy, PartialEq, Eq, Structural)]
pub struct PromptOnScreen {
    pub tab_id: u64,
    pub nav_id: u64,
}

/// What is drawn over the page, as hit-testing sees it.
#[derive(Debug, Clone)]
pub struct HitOverlays {
    /// The permission prompt, if one is shown.
    pub prompt: Option<PromptOnScreen>,
    /// The navigation the active tab is at.
    pub active_nav_id: u64,
    /// The site information panel, if it is open, with the origin it
    /// describes (none for a page without one).
    pub site_info: Option<Option<String>>,
    /// Whether the find bar is open.
    pub find_open: bool,
    /// Whether an overlay list covers the page.
    pub overlay_open: bool,
}

/// The prompt answers clicks only while its tab is the active one and is
/// still at the navigation that asked.
pub open spec fn prompt_current(state: BrowserState, ov: HitOverlays) -> bool {
    match ov.prompt {
        Some(p) => state.active_tab_id.0 == p.tab_id && ov.active_nav_id == p.nav_id,
        None => false,
    }
}

pub open spec fn spec_hit_permission_prompt(
    state: BrowserState,
    ov: HitOverlays,
    x: u32,
    y: u32,
) -> Option<UiHitTarget> {
    let (remember, deny, allow) = spec_permission_prompt_hit_rects();
    if !prompt_current(state, ov) {
        None
    } else if spec_in_rect(x as int, y as int, remember) {
        Some(UiHitTarget::PermissionRememberToggle)
    } else if spec_in_rect(x as int, y as int, deny) {
        Some(UiHitTarget::PermissionDeny)
    } else if spec_in_rect(x as int, y as int, allow) {
        Some(UiHitTarget::PermissionAllow)
    } else if spec_in_rect(x as int, y as int, spec_permission_prompt_rect()) {
        Some(UiHitTarget::PermissionPrompt)
    } else {
        None
    }
}

fn hit_permission_prompt(state: &BrowserState, ov: &HitOverlays, x: u32, y: u32) -> (r: Option<
    UiHitTarget,
>)
    requires
        state.wf(),
    ensures
        r == spec_hit_permission_prompt(*state, *ov, x, y),
{
    let prompt = match &ov.prompt {
        Some(p) => p,
        None => return None,
    };
    let current = state.active_tab_id.raw() as u64 == prompt.tab_id && ov.active_nav_id
        == prompt.nav_id;
    if !current {
        return None;
    }
    let (remember, deny, allow) = permission_prompt_hit_rects();
    if in_rect(x, y, remember) {
        Some(UiHitTarget::PermissionRememberToggle)
    } else if in_rect(x, y, deny) {
        Some(UiHitTarget::PermissionDeny)
    } else if in_rect(x, y, allow) {
        Some(UiHitTarget::PermissionAllow)
    } else if in_rect(x, y, permission_prompt_rect()) {
        Some(UiHitTarget::PermissionPrompt)
    } else {
        None
    }
}

/// Which button column of the panel's permission list holds `x`: ask, allow
/// or deny.
pub open spec fn permission_column(x: int) -> Option<int> {
    let cells = spec_site_info_permission_rects(0);
    if cells[0].1.0 <= x < cells[0].1.0 + cells[0].1.2 {
        Some(0)
    } else if cells[1].1.0 <= x < cells[1].1.0 + cells[1].1.2 {
        Some(1)
    } else if cells[2].1.0 <= x < cells[2].1.0 + cells[2].1.2 {
        Some(2)
    } else {
        None
    }
}

/// Whether the button of column `col` in row `row` holds the point.
pub open spec fn cell_holds(x: int, y: int, row: int, col: int) -> bool {
    spec_in_rect(x, y, spec_site_info_permission_rects(permission_row_y(row) as u32)[col].1)
}

/// What a click on the open site information panel hits: nothing but the
/// panel for a page without an origin; else the ad-blocking toggle, a
/// permission's ask, allow or deny button, or the panel.
pub open spec fn spec_hit_site_info_panel(ov: HitOverlays, x: u32, y: u32) -> Option<UiHitTarget> {
    match ov.site_info {
        None => None,
        Some(origin) => {
            if !spec_in_rect(x as int, y as int, spec_site_info_rect()) {
                None
            } else if origin is None {
                Some(UiHitTarget::SiteInfoPanel)
            } else if spec_in_rect(x as int, y as int, spec_site_info_adblock_rect()) {
                Some(UiHitTarget::SiteAdblockToggle)
            } else {
                match (strip_slot(y as int, permission_row_y(0), 30, 22, 5), permission_column(x as int)) {
                    (Some(row), Some(col)) => Some(
                        UiHitTarget::SitePermission {
                            permission: spec_permission_kinds_ui()[row],
                            decision: spec_site_info_permission_rects(0)[col].0,
                        },
                    ),
                    _ => Some(UiHitTarget::SiteInfoPanel),
                }
            }
        },
    }
}

proof fn lemma_strip_slot_holds(x: int, start: int, pitch: int, width: int, count: int)
    requires
        0 < width <= pitch,
        strip_slot(x, start, pitch, width, count) is Some,
    ensures
        ({
            let j = strip_slot(x, start, pitch, width, count)->0;
            0 <= j < count && slot_holds(x, start, pitch, width, j)
        }),
{
    let q = (x - start) / pitch;
    let r = (x - start) % pitch;
    lemma_fundamental_div_mod(x - start, pitch);
    assert(x - start == q * pitch + r) by (nonlinear_arith)
        requires
            x - start == pitch * q + r,
    ;
    assert(q >= 0) by (nonlinear_arith)
        requires
            pitch > 0,
            x - start >= 0,
            q == (x - start) / pitch,
    ;
}

proof fn lemma_cell_is_slot(x: int, y: int, row: int, col: int)
    requires
        0 <= row < 5,
        0 <= col < 3,
        cell_holds(x, y, row, col),
    ensures
        strip_slot(y, permission_row_y(0), 30, 22, 5) == Some(row),
        permission_column(x) == Some(col),
{
    assert(slot_holds(y, permission_row_y(0), 30, 22, row));
    lemma_slot_is_strip_slot(y, permission_row_y(0), 30, 22, 5, row);
}

proof fn lemma_no_cell(x: int, y: int)
    requires
        forall|row: int, col: int|
            0 <= row < 5 && 0 <= col < 3 ==> !#[trigger] cell_holds(x, y, row, col),
    ensures
        strip_slot(y, permission_row_y(0), 30, 22, 5) is None || permission_column(x) is None,
{
    if strip_slot(y, permission_row_y(0), 30, 22, 5) is Some {
        lemma_strip_slot_holds(y, permission_row_y(0), 30, 22, 5);
        let row = strip_slot(y, permission_row_y(0), 30, 22, 5)->0;
        if permission_column(x) is Some {
            let col = permission_column(x)->0;
            assert(cell_holds(x, y, row, col));
        }
    }
}

fn hit_site_info_panel(ov: &HitOverlays, x: u32, y: u32) -> (r: Option<UiHitTarget>)
    ensures
        r == spec_hit_site_info_panel(*ov, x, y),
{
    let origin = match &ov.site_info {
        Some(o) => o,
        None => return None,
    };
    if !in_rect(x, y, site_info_rect()) {
        return None;
    }
    if origin.is_none() {
        return Some(UiHitTarget::SiteInfoPanel);
    }
    if in_rect(x, y, site_info_adblock_rect()) {
        return Some(UiHitTarget::SiteAdblockToggle);
    }
    let kinds = permission_kinds_ui();
    let mut idx: usize = 0;
    while idx < 5
        invariant
            idx <= 5,
            kinds@ == spec_permission_kinds_ui(),
            ov.site_info matches Some(o) && o is Some,
            spec_in_rect(x as int, y as int, spec_site_info_rect()),
            !spec_in_rect(x as int, y as int, spec_site_info_adblock_rect()),
            forall|row: int, col: int|
                0 <= row < idx && 0 <= col < 3 ==> !#[trigger] cell_holds(x as int, y as int, row, col),
        decreases 5 - idx,
    {
        let rects = site_info_permission_rects(idx);
        assert((idx as u32) as int == idx as int);
        let mut c: usize = 0;
        while c < 3
            invariant
                idx < 5,
                c <= 3,
                kinds@ == spec_permission_kinds_ui(),
                ov.site_info matches Some(o) && o is Some,
                spec_in_rect(x as int, y as int, spec_site_info_rect()),
                !spec_in_rect(x as int, y as int, spec_site_info_adblock_rect()),
                rects@ == spec_site_info_permission_rects(permission_row_y(idx as int) as u32),
                forall|row: int, col: int|
                    0 <= row < idx && 0 <= col < 3 ==> !#[trigger] cell_holds(x as int, y as int, row, col),
                forall|col: int| 0 <= col < c ==> !#[trigger] cell_holds(x as int, y as int, idx as int, col),
            decreases 3 - c,
        {
            let (decision, rect) = rects[c];
            if in_rect(x, y, rect) {
                proof {
                    assert(cell_holds(x as int, y as int, idx as int, c as int));
                    lemma_cell_is_slot(x as int, y as int, idx as int, c as int);
                    assert(decision == spec_site_info_permission_rects(0)[c as int].0);
                }
                return Some(UiHitTarget::SitePermission { permission: kinds[idx], decision });
            }
            assert(!cell_holds(x as int, y as int, idx as int, c as int));
            c = c + 1;
        }
        idx = idx + 1;
    }
    proof {
        lemma_no_cell(x as int, y as int);
    }
    Some(UiHitTarget::SiteInfoPanel)
}

// ── The whole window ─────────────────────────────────────────────────────────

/// What a click at (x, y) hits. The permission prompt and the site
/// information panel lie over everything else; then come the tab strip, the
/// chrome bar, an overlay list covering the page, and the page itself.
pub open spec fn spec_hit_test_ui(state: BrowserState, ov: HitOverlays, x: u32, y: u32) -> UiHitTarget {
    match spec_hit_permission_prompt(state, ov, x, y) {
        Some(t) => t,
        None => match spec_hit_site_info_panel(ov, x, y) {
            Some(t) => t,
            None => if y < TAB_BAR_HEIGHT {
                spec_hit_tab_bar(state.tabs@, state.tab_width, x)
            } else if y < TOP_BAR_HEIGHT {
                spec_hit_chrome_bar(ov.find_open, x, y)
            } else if ov.overlay_open {
                UiHitTarget::OverlayActivate
            } else {
                spec_hit_content(state.active().page_state, state.bookmarks@, x, y)
            },
        },
    }
}

pub fn hit_test_ui(state: &BrowserState, ov: &HitOverlays, x: u32, y: u32) -> (t: UiHitTarget)
    requires
        state.wf(),
        tab_strip_fits(*state),
    ensures
        t == spec_hit_test_ui(*state, *ov, x, y),
{
    if let Some(target) = hit_permission_prompt(state, ov, x, y) {
        return target;
    }
    if let Some(target) = hit_site_info_panel(ov, x, y) {
        return target;
    }
    if y < TAB_BAR_HEIGHT {
        return hit_tab_bar(state, x);
    }
    if y < TOP_BAR_HEIGHT {
        return hit_chrome_bar(ov.find_open, x, y);
    }
    if ov.overlay_open {
        return UiHitTarget::OverlayActivate;
    }
    hit_content(state, x, y)
}

/// Every tab in the strip can be clicked: its left edge selects it and its
/// last pixel closes it.
pub proof fn law_every_tab_is_clickable(state: BrowserState, i: int)
    requires
        state.wf(),
        tab_strip_fits(state),
        0 <= i < state.tabs@.len(),
    ensures
        ({
            let tw = state.tab_width;
            let lx = TAB_START_X + i * (tw + TAB_SEP);
            &&& spec_hit_tab_bar(state.tabs@, tw, lx as u32) == UiHitTarget::Tab(state.tabs@[i].id)
            &&& spec_hit_tab_bar(state.tabs@, tw, (lx + tw - 1) as u32) == UiHitTarget::CloseTab(
                state.tabs@[i].id,
            )
        }),
{
    let tw = state.tab_width;
    let pitch = tw + TAB_SEP;
    let n = state.tabs@.len();
    let lx = TAB_START_X + i * pitch;
    assert(i * pitch + pitch <= n * pitch) by (nonlinear_arith)
        requires
            i < n,
            pitch > 0,
    ;
    assert(slot_holds(lx, TAB_START_X as int, pitch as int, tw as int, i));
    lemma_slot_is_strip_slot(lx, TAB_START_X as int, pitch as int, tw as int, n as int, i);
    assert(slot_holds(lx + tw - 1, TAB_START_X as int, pitch as int, tw as int, i));
    lemma_slot_is_strip_slot(lx + tw - 1, TAB_START_X as int, pitch as int, tw as int, n as int, i);
}

} // verus!
