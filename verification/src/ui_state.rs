//! Core browser state model: tabs, per-tab history, the address bar, hover
//! tracking and dirty-region flags.
use vstd::prelude::*;
use vstd::string::StrSliceExecFns;

use crate::layout::{
    spec_retry_btn_pos, spec_tab_width, tab_divisor, tab_width, retry_btn_pos, ADDR_BAR_H,
    ADDR_BAR_W, CHROME_BAR_HEIGHT, FB_HEIGHT, FB_WIDTH, QUICK_LINK_GAP, QUICK_LINK_H, QUICK_LINK_W,
    RETRY_BTN_H, RETRY_BTN_W, TAB_BAR_HEIGHT, TAB_MAX_W, TAB_NEW_BTN_W, TAB_SEP, TAB_START_X, TOP_BAR_HEIGHT,
};
use crate::text::{
    chars_of, eq_pred, first_char_from, first_where, lemma_first_where_bounds, lit, occurs_at,
    occurs_at_exec, seq_eq, starts_with, string_pop, string_push, strip_prefix_rep, uppercase_first,
    ascii_upper, char_uppercase_first,
};
use crate::theme::{get_theme, spec_theme, ColorPalette, Theme};

verus! {

broadcast use vstd::string::group_string_axioms;

// ── TabId ─────────────────────────────────────────────────────────────────────

#[derive(Debug, Clone, Copy, PartialEq, Eq, Hash, Structural)]
pub struct TabId(pub usize);

impl TabId {
    pub fn raw(self) -> (r: usize)
        ensures
            r == self.0,
    {
        self.0
    }
}

// ── PageState ─────────────────────────────────────────────────────────────────

#[derive(Debug, Clone, PartialEq)]
pub enum PageState {
    NewTab,
    Loading,
    Loaded,
    Error(String),
}

impl PageState {
    pub fn is_loading(&self) -> (b: bool)
        ensures
            b == (*self is Loading),
    {
        matches!(self, Self::Loading)
    }

    pub fn is_new_tab(&self) -> (b: bool)
        ensures
            b == (*self is NewTab),
    {
        matches!(self, Self::NewTab)
    }

    pub fn is_error(&self) -> (b: bool)
        ensures
            b == (*self is Error),
    {
        matches!(self, Self::Error(_))
    }

    pub fn error_msg(&self) -> (m: Option<&str>)
        ensures
            match *self {
                PageState::Error(e) => m is Some && m->0@ == e@,
                _ => m is None,
            },
    {
        if let Self::Error(m) = self {
            Some(m.as_str())
        } else {
            None
        }
    }
}

// ── NavResult ─────────────────────────────────────────────────────────────────

/// Outcome classified at navigation-submit time, before any loading begins.
///
/// `WillLoad`     — URL is structurally valid; tab enters Loading then Loaded.
/// `WillFail(why)` — URL is unsupported/malformed; tab goes straight to Error.
#[derive(Debug, Clone, PartialEq)]
pub enum NavResult {
    WillLoad,
    WillFail(String),
}

/// The verdict for a URL: `None` when it will load, else the failure reason.
pub open spec fn spec_classify_url(url: Seq<char>) -> Option<Seq<char>> {
    if url.len() == 0 {
        Some("No address entered"@)
    } else if starts_with(url, "https://"@) || starts_with(url, "http://"@) {
        None
    } else if starts_with(url, "file://"@) {
        Some("Local file access is not yet supported"@)
    } else if starts_with(url, "chrome://"@) || starts_with(url, "about:"@) || starts_with(
        url,
        "data:"@,
    ) {
        Some("Browser-internal addresses are not supported"@)
    } else {
        Some("Unsupported address format"@)
    }
}

pub open spec fn nav_result_view(r: NavResult) -> Option<Seq<char>> {
    match r {
        NavResult::WillLoad => None,
        NavResult::WillFail(s) => Some(s@),
    }
}

fn starts_with_str(v: &Vec<char>, p: &str) -> (b: bool)
    ensures
        b == starts_with(v@, p@),
{
    crate::text::starts_with_exec(v, &lit(p))
}

/// Classify a fully-resolved URL at submit time.
fn classify_url(url: &str) -> (r: NavResult)
    ensures
        nav_result_view(r) == spec_classify_url(url@),
{
    let v = chars_of(url);
    if v.len() == 0 {
        return NavResult::WillFail("No address entered".to_string());
    }
    if starts_with_str(&v, "https://") || starts_with_str(&v, "http://") {
        return NavResult::WillLoad;
    }
    if starts_with_str(&v, "file://") {
        return NavResult::WillFail("Local file access is not yet supported".to_string());
    }
    if starts_with_str(&v, "chrome://") || starts_with_str(&v, "about:") || starts_with_str(
        &v,
        "data:",
    ) {
        return NavResult::WillFail("Browser-internal addresses are not supported".to_string());
    }
    NavResult::WillFail("Unsupported address format".to_string())
}

// ── DirtyFlags ────────────────────────────────────────────────────────────────

/// Per-region repaint flags.
#[derive(Debug, Clone, Copy)]
pub struct DirtyFlags {
    /// y = 0 .. TAB_BAR_HEIGHT
    pub tabs: bool,
    /// y = TAB_BAR_HEIGHT .. TOP_BAR_HEIGHT
    pub chrome: bool,
    /// y = TOP_BAR_HEIGHT .. FB_HEIGHT
    pub content: bool,
}

impl Default for DirtyFlags {
    fn default() -> (d: Self)
        ensures
            !d.tabs && !d.chrome && !d.content,
    {
        DirtyFlags { tabs: false, chrome: false, content: false }
    }
}

impl DirtyFlags {
    pub fn any(self) -> (b: bool)
        ensures
            b == (self.tabs || self.chrome || self.content),
    {
        self.tabs || self.chrome || self.content
    }

    pub fn all(&mut self)
        ensures
            final(self).tabs && final(self).chrome && final(self).content,
    {
        self.tabs = true;
        self.chrome = true;
        self.content = true;
    }

    pub fn clear(&mut self)
        ensures
            !final(self).tabs && !final(self).chrome && !final(self).content,
    {
        self.tabs = false;
        self.chrome = false;
        self.content = false;
    }
}

// ── HoveredRegion ─────────────────────────────────────────────────────────────

/// Interactive UI region the cursor is currently over.
#[derive(Debug, Clone, Copy, PartialEq, Eq, Structural)]
pub enum HoveredRegion {
    /// Over no interactive region.
    NoRegion,
    Tab(usize),
    TabClose(usize),
    NewTabBtn,
    NavBack,
    NavForward,
    NavReload,
    AddressBar,
    BookmarkStar,
    QuickLink(usize),
    RetryBtn,
    /// non-interactive content — no visual hover change
    ContentArea,
}

// ── NavigationEntry ───────────────────────────────────────────────────────────

#[derive(Debug)]
pub struct NavigationEntry {
    pub url: String,
    pub display_url: String,
    pub title: String,
    /// `None` → page committed successfully.
    /// `Some(reason)` → navigation failed; restoring this entry shows an Error page.
    pub error_msg: Option<String>,
}

pub struct EntryModel {
    pub url: Seq<char>,
    pub display_url: Seq<char>,
    pub title: Seq<char>,
    pub error: Option<Seq<char>>,
}

pub open spec fn opt_str_view(o: Option<String>) -> Option<Seq<char>> {
    match o {
        Some(s) => Some(s@),
        None => None,
    }
}

impl View for NavigationEntry {
    type V = EntryModel;

    open spec fn view(&self) -> EntryModel {
        EntryModel {
            url: self.url@,
            display_url: self.display_url@,
            title: self.title@,
            error: opt_str_view(self.error_msg),
        }
    }
}

pub open spec fn history_view(h: Seq<NavigationEntry>) -> Seq<EntryModel> {
    h.map_values(|e: NavigationEntry| e@)
}

fn clone_opt_string(o: &Option<String>) -> (r: Option<String>)
    ensures
        opt_str_view(r) == opt_str_view(*o),
{
    match o {
        Some(s) => Some(s.clone()),
        None => None,
    }
}

impl NavigationEntry {
    fn new(url: &str, title: &str, error_msg: Option<String>) -> (e: Self)
        ensures
            e@ == (EntryModel {
                url: url@,
                display_url: url@,
                title: title@,
                error: opt_str_view(error_msg),
            }),
    {
        Self {
            url: url.to_string(),
            display_url: url.to_string(),
            title: title.to_string(),
            error_msg,
        }
    }

    fn duplicate(&self) -> (e: Self)
        ensures
            e@ == self@,
    {
        Self {
            url: self.url.clone(),
            display_url: self.display_url.clone(),
            title: self.title.clone(),
            error_msg: clone_opt_string(&self.error_msg),
        }
    }
}

// ── Helpers ───────────────────────────────────────────────────────────────────

/// `https://`, `http://` and `www.` stripped (each as often as it repeats), and
/// everything from the first `/` on dropped.
pub open spec fn spec_title_host(url: Seq<char>) -> Seq<char> {
    let s = strip_prefix_rep(
        strip_prefix_rep(strip_prefix_rep(url, "https://"@), "http://"@),
        "www."@,
    );
    match first_where(s, eq_pred('/'), 0) {
        Some(k) => s.take(k),
        None => s,
    }
}

/// A short display title for a URL.
pub open spec fn spec_derive_title(url: Seq<char>) -> Seq<char> {
    if url.len() == 0 {
        "New Tab"@
    } else {
        spec_title_host(url)
    }
}

proof fn lemma_strip_prefix_rep_skip(s: Seq<char>, p: Seq<char>, i: int)
    requires
        0 <= i <= s.len(),
        p.len() > 0,
        occurs_at(s, p, i),
    ensures
        strip_prefix_rep(s.skip(i), p) == strip_prefix_rep(s.skip(i + p.len()), p),
{
    assert(s.skip(i).take(p.len() as int) =~= s.subrange(i, i + p.len()));
    assert(s.skip(i).skip(p.len() as int) =~= s.skip(i + p.len()));
}

/// How many leading characters `strip_prefix_rep(v, p)` removes.
fn strip_prefix_rep_len(v: &Vec<char>, p: &Vec<char>, start: usize) -> (n: usize)
    requires
        start <= v.len(),
    ensures
        start <= n <= v.len(),
        strip_prefix_rep(v@.skip(start as int), p@) == v@.skip(n as int),
{
    let mut i = start;
    while p.len() > 0 && occurs_at_exec(v, p, i)
        invariant
            start <= i <= v.len(),
            strip_prefix_rep(v@.skip(start as int), p@) == strip_prefix_rep(v@.skip(i as int), p@),
        decreases v.len() - i,
    {
        proof {
            lemma_strip_prefix_rep_skip(v@, p@, i as int);
        }
        i = i + p.len();
    }
    proof {
        let t = v@.skip(i as int);
        if p@.len() > 0 && starts_with(t, p@) {
            assert(t.take(p@.len() as int) =~= v@.subrange(i as int, i + p@.len()));
        }
    }
    i
}

/// A short display title for a URL, borrowed from it.
pub fn derive_title(url: &str) -> (t: &str)
    ensures
        t@ == spec_derive_title(url@),
{
    let v = chars_of(url);
    if v.len() == 0 {
        return "New Tab";
    }
    let a = strip_prefix_rep_len(&v, &lit("https://"), 0);
    let b = strip_prefix_rep_len(&v, &lit("http://"), a);
    let c = strip_prefix_rep_len(&v, &lit("www."), b);
    proof {
        assert(v@.skip(0) =~= v@);
    }
    let end = match first_char_from(&v, '/', c) {
        Some(k) => k,
        None => v.len(),
    };
    proof {
        let s = v@.skip(c as int);
        lemma_first_where_bounds(v@, eq_pred('/'), c as int);
        lemma_first_where_bounds(s, eq_pred('/'), 0);
        assert forall|m: int| 0 <= m < s.len() implies #[trigger] s[m] == v@[c + m] by {}
        let fv = first_where(v@, eq_pred('/'), c as int);
        let fs = first_where(s, eq_pred('/'), 0);
        match fs {
            Some(k) => {
                assert(eq_pred('/')(v@[c + k]));
                match fv {
                    Some(k2) => {
                        if k2 < c + k {
                            assert(eq_pred('/')(s[k2 - c]));
                        }
                    },
                    None => {},
                }
                assert(end == c + k);
                assert(s.take(k) =~= v@.subrange(c as int, end as int));
            },
            None => {
                match fv {
                    Some(k2) => {
                        assert(eq_pred('/')(s[k2 - c]));
                    },
                    None => {},
                }
                assert(end == v@.len());
                assert(s =~= v@.subrange(c as int, end as int));
            },
        }
    }
    url.substring_char(c, end)
}


// ── TabState ──────────────────────────────────────────────────────────────────

#[derive(Debug)]
pub struct TabState {
    pub id: TabId,
    pub title: String,
    pub url: String,
    pub display_url: String,
    pub page_state: PageState,
    pub is_pinned: bool,
    pub is_bookmarked: bool,
    pub history: Vec<NavigationEntry>,
    pub history_index: usize,
    pub last_committed_url: String,
    pub load_start_frame: u64,
    /// Pre-classified navigation outcome — set at submit time, read at commit time.
    pub nav_result: NavResult,
}

/// History after committing `url`: forward entries are dropped; a successful
/// commit of the current entry's URL updates it in place, anything else is
/// appended and becomes current. Returns the history and the new index.
pub open spec fn spec_commit(
    h: Seq<EntryModel>,
    idx: int,
    url: Seq<char>,
    title: Seq<char>,
    err: Option<Seq<char>>,
) -> (Seq<EntryModel>, int) {
    let h1 = if idx + 1 < h.len() {
        h.take(idx + 1)
    } else {
        h
    };
    if err is None && 0 <= idx < h1.len() && h1[idx].url == url {
        (h1.update(idx, EntryModel { title: title, error: None, ..h1[idx] }), idx)
    } else {
        (
            h1.push(EntryModel { url: url, display_url: url, title: title, error: err }),
            h1.len() as int,
        )
    }
}

pub open spec fn spec_tab_title(t: TabState) -> Seq<char> {
    match t.page_state {
        PageState::NewTab => "New Tab"@,
        PageState::Loading => if t.title@.len() == 0 {
            "Loading…"@
        } else {
            t.title@
        },
        PageState::Loaded => if t.title@.len() == 0 {
            t.url@
        } else {
            t.title@
        },
        PageState::Error(_) => if t.title@.len() == 0 {
            "Error"@
        } else {
            t.title@
        },
    }
}

/// The page state that restoring a history entry shows.
pub open spec fn entry_page_state_is(e: EntryModel, p: PageState) -> bool {
    match e.error {
        Some(err) => p is Error && p->0@ == err,
        None => p is Loaded,
    }
}

impl TabState {
    /// A blank new-tab page with this id and no history.
    pub open spec fn is_blank(&self, id: TabId) -> bool {
        &&& self.wf()
        &&& self.id == id
        &&& self.title@ == "New Tab"@
        &&& self.url@.len() == 0
        &&& self.display_url@.len() == 0
        &&& self.page_state is NewTab
        &&& !self.is_pinned
        &&& !self.is_bookmarked
        &&& self.history@.len() == 0
        &&& self.history_index == 0
        &&& self.last_committed_url@.len() == 0
        &&& self.load_start_frame == 0
        &&& self.nav_result is WillLoad
    }

    /// The history index points at an entry (or is zero for an empty history).
    pub open spec fn wf(&self) -> bool {
        if self.history@.len() == 0 {
            self.history_index == 0
        } else {
            self.history_index < self.history@.len()
        }
    }

    /// A blank new-tab page.
    pub fn new_tab(id: TabId) -> (t: Self)
        ensures
            t.is_blank(id),
    {
        Self {
            id,
            title: "New Tab".to_string(),
            url: String::new(),
            display_url: String::new(),
            page_state: PageState::NewTab,
            is_pinned: false,
            is_bookmarked: false,
            history: Vec::new(),
            history_index: 0,
            last_committed_url: String::new(),
            load_start_frame: 0,
            nav_result: NavResult::WillLoad,
        }
    }

    pub fn can_go_back(&self) -> (b: bool)
        ensures
            b == (self.history_index > 0),
    {
        self.history_index > 0
    }

    pub fn can_go_forward(&self) -> (b: bool)
        requires
            self.wf(),
        ensures
            b == (self.history_index + 1 < self.history@.len()),
    {
        let n = self.history.len();
        self.history_index < n && self.history_index + 1 < n
    }

    fn commit(&mut self, url: &str, title: &str, error_msg: Option<String>)
        requires
            old(self).wf(),
        ensures
            final(self).wf(),
            (history_view(final(self).history@), final(self).history_index as int) == spec_commit(
                history_view(old(self).history@),
                old(self).history_index as int,
                url@,
                title@,
                opt_str_view(error_msg),
            ),
            final(self).last_committed_url@ == url@,
            final(self).history@.len() > 0,
            *final(self) == (TabState {
                history: final(self).history,
                history_index: final(self).history_index,
                last_committed_url: final(self).last_committed_url,
                ..*old(self)
            }),
    {
        let ghost h0 = history_view(self.history@);
        let n = self.history.len();
        if self.history_index < n && self.history_index + 1 < n {
            self.history.truncate(self.history_index + 1);
        }
        let ghost h1 = history_view(self.history@);
        assert(h1 == if old(self).history_index + 1 < h0.len() {
            h0.take(old(self).history_index + 1)
        } else {
            h0
        });
        if error_msg.is_none() {
            let idx = self.history_index;
            if idx < self.history.len() {
                let same = seq_eq(&chars_of(self.history[idx].url.as_str()), &chars_of(url));
                if same {
                    self.history[idx].title = title.to_string();
                    self.history[idx].error_msg = None;
                    self.last_committed_url = url.to_string();
                    assert(history_view(self.history@) =~= h1.update(
                        idx as int,
                        EntryModel { title: title@, error: None, ..h1[idx as int] },
                    ));
                    return ;
                }
            }
        }
        let ghost err = opt_str_view(error_msg);
        self.history.push(NavigationEntry::new(url, title, error_msg));
        self.history_index = self.history.len() - 1;
        self.last_committed_url = url.to_string();
        assert(history_view(self.history@) =~= h1.push(
            EntryModel { url: url@, display_url: url@, title: title@, error: err },
        ));
    }

    /// The label shown on the tab.
    pub fn tab_title(&self) -> (t: &str)
        ensures
            t@ == spec_tab_title(*self),
    {
        match &self.page_state {
            PageState::NewTab => "New Tab",
            PageState::Loading => if self.title.as_str().is_empty() {
                "Loading…"
            } else {
                self.title.as_str()
            },
            PageState::Loaded => if self.title.as_str().is_empty() {
                self.url.as_str()
            } else {
                self.title.as_str()
            },
            PageState::Error(_) => if self.title.as_str().is_empty() {
                "Error"
            } else {
                self.title.as_str()
            },
        }
    }
}

// ── QuickLink ─────────────────────────────────────────────────────────────────

pub struct QuickLink {
    pub title: String,
    pub url: String,
    /// Pre-uppercased first char — avoids per-frame String allocation.
    pub first_upper: char,
}

/// The first character of the title's uppercase form, or `?` for an empty title.
pub open spec fn spec_first_upper(title: Seq<char>) -> char {
    if title.len() == 0 {
        '?'
    } else {
        char_uppercase_first(title[0])->0
    }
}

impl QuickLink {
    pub fn new(title: &str, url: &str) -> (q: Self)
        ensures
            q.title@ == title@,
            q.url@ == url@,
            q.first_upper == spec_first_upper(title@),
            title@.len() > 0 && (title@[0] as u32) < 128 ==> q.first_upper == ascii_upper(
                title@[0],
            ),
    {
        let chars = chars_of(title);
        let first_upper = if chars.len() > 0 {
            match uppercase_first(chars[0]) {
                Some(u) => u,
                None => '?',
            }
        } else {
            '?'
        };
        Self { title: title.to_string(), url: url.to_string(), first_upper }
    }

    fn duplicate(&self) -> (q: Self)
        ensures
            q.title@ == self.title@,
            q.url@ == self.url@,
            q.first_upper == self.first_upper,
    {
        QuickLink { title: self.title.clone(), url: self.url.clone(), first_upper: self.first_upper }
    }
}


// ── BrowserState ──────────────────────────────────────────────────────────────

pub struct BrowserState {
    pub tabs: Vec<TabState>,
    pub active_tab_id: TabId,
    pub mouse_x: u32,
    pub mouse_y: u32,
    pub frame_count: u64,
    pub theme: Theme,
    pub palette: ColorPalette,
    pub address_bar_focused: bool,
    pub address_bar_input: String,
    pub bookmarks: Vec<QuickLink>,
    pub nav_btn_pressed: u8,
    pub nav_btn_pressed_frame: u64,
    /// Cached tab strip width — recomputed only when tab count changes.
    pub tab_width: u32,
    /// Active tab's index in `tabs` — avoids O(n) scan per frame.
    pub active_pos: usize,
    /// Region-level repaint flags — set by state mutations, cleared after render.
    pub dirty: DirtyFlags,
    /// Bumped in `cycle_theme` so the render cache knows to recompute layout.
    pub theme_version: u64,
    /// Which interactive region the cursor is over — dirty only on region change.
    pub hovered_region: HoveredRegion,
    /// The id the next new tab receives.
    pub next_tab_id: usize,
}

/// Position of the first tab at or after `i` with this id.
pub open spec fn id_pos_from(tabs: Seq<TabState>, id: TabId, i: int) -> Option<int>
    decreases tabs.len() - i,
{
    if i < 0 || i >= tabs.len() {
        None
    } else if tabs[i].id == id {
        Some(i)
    } else {
        id_pos_from(tabs, id, i + 1)
    }
}

pub proof fn lemma_id_pos_from(tabs: Seq<TabState>, id: TabId, i: int)
    requires
        0 <= i,
    ensures
        id_pos_from(tabs, id, i) matches Some(k) ==> i <= k < tabs.len() && tabs[k].id == id
            && forall|m: int| i <= m < k ==> #[trigger] tabs[m].id != id,
        id_pos_from(tabs, id, i) is None ==> forall|m: int| i <= m < tabs.len() ==> #[trigger] tabs[m].id != id,
    decreases tabs.len() - i,
{
    if i < tabs.len() && tabs[i].id != id {
        lemma_id_pos_from(tabs, id, i + 1);
    }
}

/// The URL is non-empty and some bookmark has it.
pub open spec fn spec_is_bookmarked(bms: Seq<QuickLink>, url: Seq<char>) -> bool {
    url.len() > 0 && exists|i: int| 0 <= i < bms.len() && #[trigger] bms[i].url@ == url
}

pub open spec fn default_bookmarks_ok(bms: Seq<QuickLink>) -> bool {
    &&& bms.len() == 6
    &&& bms[0].title@ == "GitHub"@ && bms[0].url@ == "https://github.com"@
    &&& bms[1].title@ == "Hacker News"@ && bms[1].url@ == "https://news.ycombinator.com"@
    &&& bms[2].title@ == "Rust Lang"@ && bms[2].url@ == "https://www.rust-lang.org"@
    &&& bms[3].title@ == "MDN"@ && bms[3].url@ == "https://developer.mozilla.org"@
    &&& bms[4].title@ == "Servo"@ && bms[4].url@ == "https://servo.org"@
    &&& bms[5].title@ == "Crates.io"@ && bms[5].url@ == "https://crates.io"@
}

fn is_bookmarked_exec(bms: &Vec<QuickLink>, url: &String) -> (b: bool)
    ensures
        b == spec_is_bookmarked(bms@, url@),
{
    let u = chars_of(url.as_str());
    if u.len() == 0 {
        return false;
    }
    let mut i: usize = 0;
    while i < bms.len()
        invariant
            i <= bms.len(),
            u@ == url@,
            u@.len() > 0,
            forall|k: int| 0 <= k < i ==> #[trigger] bms@[k].url@ != url@,
        decreases bms.len() - i,
    {
        if seq_eq(&chars_of(bms[i].url.as_str()), &u) {
            assert(bms@[i as int].url@ == url@);
            assert(url@.len() > 0);
            assert(exists|k: int| 0 <= k < bms@.len() && #[trigger] bms@[k].url@ == url@);
            return true;
        }
        i = i + 1;
    }
    false
}

impl BrowserState {
    /// Layout cache and tab list are consistent: there is at least one tab, the
    /// active tab exists and `active_pos` is its first position, every tab's
    /// history is well formed, and `tab_width` fits the tab count.
    pub open spec fn wf(&self) -> bool {
        &&& self.tabs@.len() > 0
        &&& self.tabs@.len() <= u32::MAX
        &&& self.active_pos < self.tabs@.len()
        &&& id_pos_from(self.tabs@, self.active_tab_id, 0) == Some(self.active_pos as int)
        &&& forall|i: int| 0 <= i < self.tabs@.len() ==> (#[trigger] self.tabs@[i]).wf()
        &&& self.tab_width == spec_tab_width(self.tabs@.len() as usize)
    }

    /// The active tab of a well-formed state.
    pub open spec fn active(&self) -> TabState {
        self.tabs@[self.active_pos as int]
    }

    pub fn new() -> (s: Self)
        ensures
            s.wf(),
            s.tabs@.len() == 1,
            s.tabs@[0].id == TabId(1),
            s.tabs@[0].page_state is NewTab,
            s.tabs@[0].url@.len() == 0,
            s.active_tab_id == TabId(1),
            s.next_tab_id == 2,
            s.palette == ColorPalette::KamelotDark,
            s.theme == spec_theme(ColorPalette::KamelotDark),
            !s.address_bar_focused,
            s.address_bar_input@.len() == 0,
            default_bookmarks_ok(s.bookmarks@),
            s.dirty.tabs && s.dirty.chrome && s.dirty.content,
            s.hovered_region == HoveredRegion::NoRegion,
            s.mouse_x == 0 && s.mouse_y == 0 && s.frame_count == 0,
            s.nav_btn_pressed == 0 && s.nav_btn_pressed_frame == 0,
            s.theme_version == 0,
    {
        let palette = ColorPalette::KamelotDark;
        let first_tab = TabState::new_tab(TabId(1));
        let mut tabs = Vec::new();
        tabs.push(first_tab);
        let mut bookmarks = Vec::new();
        bookmarks.push(QuickLink::new("GitHub", "https://github.com"));
        bookmarks.push(QuickLink::new("Hacker News", "https://news.ycombinator.com"));
        bookmarks.push(QuickLink::new("Rust Lang", "https://www.rust-lang.org"));
        bookmarks.push(QuickLink::new("MDN", "https://developer.mozilla.org"));
        bookmarks.push(QuickLink::new("Servo", "https://servo.org"));
        bookmarks.push(QuickLink::new("Crates.io", "https://crates.io"));
        let mut s = Self {
            tabs,
            active_tab_id: TabId(1),
            mouse_x: 0,
            mouse_y: 0,
            frame_count: 0,
            palette,
            theme: get_theme(palette),
            address_bar_focused: false,
            address_bar_input: String::new(),
            bookmarks,
            nav_btn_pressed: 0,
            nav_btn_pressed_frame: 0,
            tab_width: 0,
            active_pos: 0,
            dirty: DirtyFlags { tabs: true, chrome: true, content: true },
            theme_version: 0,
            hovered_region: HoveredRegion::NoRegion,
            next_tab_id: 2,
        };
        s.update_layout();
        s
    }

    /// Hands out a fresh tab id.
    fn fresh_tab_id(&mut self) -> (id: TabId)
        ensures
            id == TabId(old(self).next_tab_id),
            *final(self) == (BrowserState {
                next_tab_id: old(self).next_tab_id.wrapping_add(1),
                ..*old(self)
            }),
    {
        let id = TabId(self.next_tab_id);
        self.next_tab_id = self.next_tab_id.wrapping_add(1);
        id
    }

    fn update_layout(&mut self)
        requires
            old(self).tabs@.len() > 0,
            old(self).tabs@.len() <= u32::MAX,
            forall|i: int| 0 <= i < old(self).tabs@.len() ==> (#[trigger] old(self).tabs@[i]).wf(),
            id_pos_from(old(self).tabs@, old(self).active_tab_id, 0) is Some,
        ensures
            final(self).wf(),
            *final(self) == (BrowserState {
                tab_width: final(self).tab_width,
                active_pos: final(self).active_pos,
                ..*old(self)
            }),
    {
        self.tab_width = tab_width(self.tabs.len());
        let mut i: usize = 0;
        while i < self.tabs.len() && self.tabs[i].id != self.active_tab_id
            invariant
                i <= self.tabs.len(),
                self.tabs == old(self).tabs,
                self.active_tab_id == old(self).active_tab_id,
                id_pos_from(self.tabs@, self.active_tab_id, 0) == id_pos_from(
                    self.tabs@,
                    self.active_tab_id,
                    i as int,
                ),
            decreases self.tabs.len() - i,
        {
            i = i + 1;
        }
        proof {
            lemma_id_pos_from(self.tabs@, self.active_tab_id, i as int);
        }
        self.active_pos = i;
        assert(self.active_pos < self.tabs@.len());
        assert(id_pos_from(self.tabs@, self.active_tab_id, 0) == Some(self.active_pos as int));
        assert(self.tab_width == spec_tab_width(self.tabs@.len() as usize));
    }

    fn update_bookmark_flag(&mut self)
        requires
            old(self).wf(),
        ensures
            final(self).wf(),
            final(self).tabs@ == old(self).tabs@.update(
                old(self).active_pos as int,
                TabState {
                    is_bookmarked: spec_is_bookmarked(old(self).bookmarks@, old(self).active().url@),
                    ..old(self).active()
                },
            ),
            *final(self) == (BrowserState { tabs: final(self).tabs, ..*old(self) }),
    {
        let p = self.active_pos;
        let is_bm = is_bookmarked_exec(&self.bookmarks, &self.tabs[p].url);
        self.tabs[p].is_bookmarked = is_bm;
        proof {
            assert forall|i: int| 0 <= i < self.tabs@.len() implies (#[trigger] self.tabs@[i]).wf() by {
                assert(old(self).tabs@[i].wf());
            }
            lemma_id_pos_from(old(self).tabs@, self.active_tab_id, 0);
            lemma_id_pos_from(self.tabs@, self.active_tab_id, 0);
            lemma_id_pos_eq(old(self).tabs@, self.tabs@, self.active_tab_id, 0);
        }
    }

    pub fn active_tab(&self) -> (r: Option<&TabState>)
        requires
            self.wf(),
        ensures
            r matches Some(t) && *t == self.active(),
    {
        Some(&self.tabs[self.active_pos])
    }

    pub fn active_tab_mut(&mut self) -> (r: Option<&mut TabState>)
        requires
            old(self).wf(),
        ensures
            r matches Some(t) && *t == old(self).active() && final(self).tabs@ == old(
                self,
            ).tabs@.update(old(self).active_pos as int, *final(t)),
            *final(self) == (BrowserState { tabs: final(self).tabs, ..*old(self) }),
    {
        let p = self.active_pos;
        Some(&mut self.tabs[p])
    }

    pub fn is_on_new_tab(&self) -> (b: bool)
        requires
            self.wf(),
        ensures
            b == (self.active().page_state is NewTab),
    {
        self.tabs[self.active_pos].page_state.is_new_tab()
    }

    /// Dirty chrome and, if the active tab is a new-tab page, content as well.
    pub fn dirty_address_bar(&mut self)
        requires
            old(self).wf(),
        ensures
            final(self).wf(),
            *final(self) == (BrowserState {
                dirty: DirtyFlags {
                    chrome: true,
                    content: old(self).dirty.content || old(self).active().page_state is NewTab,
                    ..old(self).dirty
                },
                ..*old(self)
            }),
    {
        self.dirty.chrome = true;
        if self.is_on_new_tab() {
            self.dirty.content = true;
        }
    }

    pub fn type_char(&mut self, c: char)
        requires
            old(self).wf(),
        ensures
            final(self).wf(),
            type_char_post(*old(self), *final(self), c),
    {
        string_push(&mut self.address_bar_input, c);
        self.dirty_address_bar();
    }

    pub fn type_backspace(&mut self)
        requires
            old(self).wf(),
        ensures
            final(self).wf(),
            backspace_post(*old(self), *final(self)),
    {
        if string_pop(&mut self.address_bar_input).is_some() {
            self.dirty_address_bar();
        }
    }
}

/// The address bar after an edit: chrome is dirty, and so is content when the
/// new-tab page (whose search box mirrors the bar) is showing.
pub open spec fn address_edited(s0: BrowserState, s1: BrowserState) -> bool {
    s1 == (BrowserState {
        address_bar_input: s1.address_bar_input,
        dirty: DirtyFlags {
            chrome: true,
            content: s0.dirty.content || s0.active().page_state is NewTab,
            ..s0.dirty
        },
        ..s0
    })
}

/// What typing `c` into the address bar does.
pub open spec fn type_char_post(s0: BrowserState, s1: BrowserState, c: char) -> bool {
    &&& s1.address_bar_input@ == s0.address_bar_input@.push(c)
    &&& address_edited(s0, s1)
}

/// What a backspace in the address bar does: the last character goes; an
/// empty bar is left as it is.
pub open spec fn backspace_post(s0: BrowserState, s1: BrowserState) -> bool {
    if s0.address_bar_input@.len() > 0 {
        &&& s1.address_bar_input@ == s0.address_bar_input@.drop_last()
        &&& address_edited(s0, s1)
    } else {
        &&& s1.address_bar_input@ == s0.address_bar_input@
        &&& s1 == (BrowserState { address_bar_input: s1.address_bar_input, ..s0 })
    }
}

/// A backspace right after typing a character gives back the address bar
/// text as it was before.
pub proof fn law_backspace_undoes_typing(s0: BrowserState, s1: BrowserState, s2: BrowserState, c: char)
    requires
        s0.wf(),
        type_char_post(s0, s1, c),
        backspace_post(s1, s2),
    ensures
        s2.address_bar_input@ == s0.address_bar_input@,
{
    assert(s0.address_bar_input@.push(c).drop_last() =~= s0.address_bar_input@);
}

proof fn lemma_id_pos_eq(a: Seq<TabState>, b: Seq<TabState>, id: TabId, i: int)
    requires
        0 <= i,
        a.len() == b.len(),
        forall|k: int| 0 <= k < a.len() ==> (#[trigger] a[k]).id == b[k].id,
    ensures
        id_pos_from(a, id, i) == id_pos_from(b, id, i),
    decreases a.len() - i,
{
    if i < a.len() {
        assert(a[i].id == b[i].id);
        lemma_id_pos_eq(a, b, id, i + 1);
    }
}


/// `a` and `b` hold the same tabs, except possibly for their bookmark flags.
/// The page state a history entry restores to.
pub open spec fn restored_state_ok(e: EntryModel, t: TabState) -> bool {
    &&& t.url@ == e.url
    &&& t.display_url@ == e.display_url
    &&& t.title@ == e.title
    &&& entry_page_state_is(e, t.page_state)
}

impl BrowserState {
    /// Sets the address bar to the active tab's URL.
    pub fn sync_address_bar(&mut self)
        requires
            old(self).wf(),
        ensures
            final(self).wf(),
            final(self).address_bar_input@ == old(self).active().url@,
            *final(self) == (BrowserState {
                address_bar_input: final(self).address_bar_input,
                ..*old(self)
            }),
    {
        let url = self.tabs[self.active_pos].url.clone();
        self.address_bar_input = url;
    }

    pub fn focus_address_bar(&mut self)
        requires
            old(self).wf(),
        ensures
            final(self).wf(),
            *final(self) == (BrowserState {
                address_bar_focused: true,
                dirty: DirtyFlags {
                    chrome: true,
                    content: old(self).dirty.content || old(self).active().page_state is NewTab,
                    ..old(self).dirty
                },
                ..*old(self)
            }),
    {
        self.address_bar_focused = true;
        self.dirty_address_bar();
    }

    pub fn cancel_address_bar_edit(&mut self)
        requires
            old(self).wf(),
        ensures
            final(self).wf(),
            final(self).address_bar_input@ == old(self).active().url@,
            *final(self) == (BrowserState {
                address_bar_focused: false,
                address_bar_input: final(self).address_bar_input,
                dirty: DirtyFlags {
                    chrome: true,
                    content: old(self).dirty.content || old(self).active().page_state is NewTab,
                    ..old(self).dirty
                },
                ..*old(self)
            }),
    {
        self.address_bar_focused = false;
        self.sync_address_bar();
        self.dirty_address_bar();
    }

    /// Makes the first tab with this id active (no change when there is none).
    pub fn activate_tab(&mut self, id: TabId)
        requires
            old(self).wf(),
        ensures
            final(self).wf(),
            id_pos_from(old(self).tabs@, id, 0) is None ==> *final(self) == *old(self),
            id_pos_from(old(self).tabs@, id, 0) matches Some(k) ==> {
                &&& final(self).active_tab_id == id
                &&& final(self).active_pos == k
                &&& final(self).tabs@ == old(self).tabs@.update(
                    k,
                    TabState {
                        is_bookmarked: spec_is_bookmarked(old(self).bookmarks@, old(self).tabs@[k].url@),
                        ..old(self).tabs@[k]
                    },
                )
                &&& final(self).address_bar_input@ == old(self).tabs@[k].url@
                &&& *final(self) == (BrowserState {
                    tabs: final(self).tabs,
                    active_tab_id: id,
                    active_pos: final(self).active_pos,
                    address_bar_focused: false,
                    address_bar_input: final(self).address_bar_input,
                    dirty: DirtyFlags { tabs: true, chrome: true, content: true },
                    ..*old(self)
                })
            },
    {
        let mut i: usize = 0;
        while i < self.tabs.len() && self.tabs[i].id != id
            invariant
                i <= self.tabs.len(),
                id_pos_from(self.tabs@, id, 0) == id_pos_from(self.tabs@, id, i as int),
            decreases self.tabs.len() - i,
        {
            i = i + 1;
        }
        if i == self.tabs.len() {
            return ;
        }
        proof {
            lemma_id_pos_from(self.tabs@, id, 0);
        }
        self.active_tab_id = id;
        self.address_bar_focused = false;
        self.active_pos = i;
        self.sync_address_bar();
        self.update_layout();
        self.update_bookmark_flag();
        self.dirty.all();
    }

    /// Opens a new blank tab and makes it active.
    pub fn open_new_tab(&mut self)
        requires
            old(self).wf(),
            old(self).tabs@.len() < u32::MAX,
        ensures
            final(self).wf(),
            final(self).tabs@.len() == old(self).tabs@.len() + 1,
            final(self).active_tab_id == TabId(old(self).next_tab_id),
            final(self).next_tab_id == old(self).next_tab_id.wrapping_add(1),
            final(self).tabs@[old(self).tabs@.len() as int].id == TabId(old(self).next_tab_id),
            final(self).tabs@[old(self).tabs@.len() as int].page_state is NewTab,
            id_pos_from(old(self).tabs@, TabId(old(self).next_tab_id), 0) is None
                ==> final(self).active_pos == old(self).tabs@.len(),
            forall|j: int|
                0 <= j < old(self).tabs@.len() && j != final(self).active_pos
                ==> #[trigger] final(self).tabs@[j] == old(self).tabs@[j],
            !final(self).address_bar_focused,
            final(self).dirty.tabs && final(self).dirty.chrome && final(self).dirty.content,
    {
        let id = self.fresh_tab_id();
        let tab = TabState::new_tab(id);
        self.tabs.push(tab);
        proof {
            assert forall|i: int| 0 <= i < self.tabs@.len() implies (#[trigger] self.tabs@[i]).wf() by {
                if i < old(self).tabs@.len() {
                    assert(old(self).tabs@[i].wf());
                }
            }
            lemma_id_pos_from(old(self).tabs@, self.active_tab_id, 0);
            lemma_id_pos_from(self.tabs@, self.active_tab_id, 0);
            lemma_id_pos_prefix(old(self).tabs@, self.tabs@, self.active_tab_id, 0);
            lemma_id_pos_prefix(old(self).tabs@, self.tabs@, id, 0);
            lemma_id_pos_from(old(self).tabs@, id, 0);
            if id_pos_from(old(self).tabs@, id, 0) is None {
                assert(self.tabs@[old(self).tabs@.len() as int].id == id);
                lemma_id_pos_from(self.tabs@, id, old(self).tabs@.len() as int);
            }
        }
        self.update_layout();
        self.activate_tab(id);
    }
}

/// Extending a tab list at the end does not move the first occurrence of an id
/// that already occurs.
proof fn lemma_id_pos_prefix(a: Seq<TabState>, b: Seq<TabState>, id: TabId, i: int)
    requires
        0 <= i,
        a.len() <= b.len(),
        forall|k: int| 0 <= k < a.len() ==> #[trigger] a[k] == b[k],
    ensures
        id_pos_from(a, id, i) is Some ==> id_pos_from(b, id, i) == id_pos_from(a, id, i),
        id_pos_from(a, id, i) is None ==> id_pos_from(b, id, i) == id_pos_from(b, id, a.len() as int)
            || i > a.len(),
    decreases a.len() - i,
{
    if i < a.len() {
        assert(a[i] == b[i]);
        lemma_id_pos_prefix(a, b, id, i + 1);
    }
}


/// Replacing one tab by another with the same id and a well-formed history
/// keeps every tab well formed and every id where it was.
pub(crate) proof fn lemma_replace_tab(a: Seq<TabState>, p: int, t: TabState, id: TabId)
    requires
        0 <= p < a.len(),
        t.id == a[p].id,
        t.wf(),
        forall|i: int| 0 <= i < a.len() ==> (#[trigger] a[i]).wf(),
    ensures
        forall|i: int| 0 <= i < a.len() ==> (#[trigger] a.update(p, t)[i]).wf(),
        id_pos_from(a.update(p, t), id, 0) == id_pos_from(a, id, 0),
{
    let b = a.update(p, t);
    assert forall|i: int| 0 <= i < a.len() implies (#[trigger] b[i]).wf() by {
        if i != p {
            assert(a[i].wf());
        }
    }
    assert forall|k: int| 0 <= k < a.len() implies (#[trigger] a[k]).id == b[k].id by {}
    lemma_id_pos_eq(a, b, id, 0);
}

/// All three dirty flags set.
pub open spec fn all_dirty() -> DirtyFlags {
    DirtyFlags { tabs: true, chrome: true, content: true }
}

/// `s1` differs from `s0` at most in the active tab, which is `s1.active()`.
pub open spec fn only_active_tab_changed(s0: BrowserState, s1: BrowserState) -> bool {
    s1.tabs@ == s0.tabs@.update(s0.active_pos as int, s1.active())
}

/// Restoring history entry `k` of the active tab (used by back and forward).
pub open spec fn restores_entry(s0: BrowserState, s1: BrowserState, k: int) -> bool {
    let t0 = s0.active();
    let t1 = s1.active();
    let e = history_view(t0.history@)[k];
    &&& only_active_tab_changed(s0, s1)
    &&& t1.history_index == k
    &&& restored_state_ok(e, t1)
    &&& t1.is_bookmarked == spec_is_bookmarked(s0.bookmarks@, e.url)
    &&& t1 == (TabState {
        url: t1.url,
        display_url: t1.display_url,
        title: t1.title,
        page_state: t1.page_state,
        history_index: t1.history_index,
        is_bookmarked: t1.is_bookmarked,
        ..t0
    })
    &&& s1.address_bar_input@ == e.url
    &&& s1 == (BrowserState {
        tabs: s1.tabs,
        address_bar_input: s1.address_bar_input,
        dirty: all_dirty(),
        ..s0
    })
}

/// What `go_back` does to a well-formed state.
pub open spec fn go_back_post(s0: BrowserState, s1: BrowserState) -> bool {
    if s0.active().history_index > 0 {
        restores_entry(s0, s1, s0.active().history_index - 1)
    } else {
        s1 == s0
    }
}

/// What `go_forward` does to a well-formed state.
pub open spec fn go_forward_post(s0: BrowserState, s1: BrowserState) -> bool {
    if s0.active().history_index + 1 < s0.active().history@.len() {
        restores_entry(s0, s1, s0.active().history_index + 1)
    } else {
        s1 == s0
    }
}

/// The title a successful commit records: the tab's own, or one derived from
/// the URL when the tab has none.
pub open spec fn commit_title(own: Seq<char>, url: Seq<char>) -> Seq<char> {
    if own.len() == 0 {
        spec_derive_title(url)
    } else {
        own
    }
}

/// The active tab after its load finished with `title`: loaded, titled, and
/// its URL committed to history.
pub open spec fn loaded_with_title(t0: TabState, t1: TabState, title: Seq<char>) -> bool {
    &&& t1.title@ == title
    &&& (history_view(t1.history@), t1.history_index as int) == spec_commit(
        history_view(t0.history@),
        t0.history_index as int,
        t0.url@,
        title,
        None,
    )
    &&& t1.last_committed_url@ == t0.url@
    &&& t1 == (TabState {
        title: t1.title,
        page_state: PageState::Loaded,
        history: t1.history,
        history_index: t1.history_index,
        last_committed_url: t1.last_committed_url,
        ..t0
    })
}

fn clone_fail_reason(r: &NavResult) -> (o: Option<String>)
    ensures
        match *r {
            NavResult::WillLoad => o is None,
            NavResult::WillFail(s) => o matches Some(m) && m@ == s@,
        },
{
    match r {
        NavResult::WillFail(s) => Some(s.clone()),
        NavResult::WillLoad => None,
    }
}

impl BrowserState {
    /// Replaces the tab at `p` by `t`, a tab with the same id.
    pub fn replace_tab(&mut self, p: usize, t: TabState)
        requires
            old(self).wf(),
            p < old(self).tabs@.len(),
            t.id == old(self).tabs@[p as int].id,
            t.wf(),
        ensures
            final(self).wf(),
            final(self).tabs@ == old(self).tabs@.update(p as int, t),
            *final(self) == (BrowserState { tabs: final(self).tabs, ..*old(self) }),
    {
        proof {
            lemma_replace_tab(old(self).tabs@, p as int, t, old(self).active_tab_id);
        }
        self.tabs.set(p, t);
    }
}

/// What closing the first tab with id `id` does: closing the only tab
/// replaces it by a blank one; an unknown id changes nothing; else the tab is
/// removed and, if it was active, the tab that takes its place (or the new
/// last tab) becomes active.
pub open spec fn tab_closed(s0: BrowserState, s1: BrowserState, id: TabId) -> bool {
    &&& (s0.tabs@.len() == 1 ==> {
        let fresh = TabId(s0.next_tab_id);
        &&& s1.tabs@.len() == 1
        &&& s1.tabs@[0].is_blank(fresh)
        &&& s1.address_bar_input@.len() == 0
        &&& s1 == (BrowserState {
            tabs: s1.tabs,
            active_tab_id: fresh,
            address_bar_input: s1.address_bar_input,
            next_tab_id: s0.next_tab_id.wrapping_add(1),
            dirty: all_dirty(),
            ..s0
        })
    })
    &&& (s0.tabs@.len() > 1 && id_pos_from(s0.tabs@, id, 0) is None ==> s1 == s0)
    &&& (s0.tabs@.len() > 1 ==> (id_pos_from(s0.tabs@, id, 0) matches Some(k) ==> {
        let rest = s0.tabs@.remove(k);
        let q = s1.active_pos as int;
        if id == s0.active_tab_id {
            &&& id_pos_from(rest, s1.active_tab_id, 0) == Some(q)
            &&& 0 <= q < rest.len()
            &&& s1.active_tab_id == rest[successor_pos(k, rest.len() as int)].id
            &&& s1.tabs@ == rest.update(
                q,
                TabState {
                    is_bookmarked: spec_is_bookmarked(s0.bookmarks@, rest[q].url@),
                    ..rest[q]
                },
            )
            &&& s1.address_bar_input@ == rest[q].url@
            &&& s1 == (BrowserState {
                tabs: s1.tabs,
                active_tab_id: s1.active_tab_id,
                active_pos: s1.active_pos,
                tab_width: s1.tab_width,
                address_bar_focused: false,
                address_bar_input: s1.address_bar_input,
                dirty: all_dirty(),
                ..s0
            })
        } else {
            &&& s1.tabs@ == rest
            &&& s1 == (BrowserState {
                tabs: s1.tabs,
                active_pos: s1.active_pos,
                tab_width: s1.tab_width,
                dirty: all_dirty(),
                ..s0
            })
        }
    }))
}

/// Closing the active tab of several activates its right-hand neighbour, or
/// its left-hand one when it was the last tab; the other tabs keep their
/// order and the tab count drops by one.
pub proof fn law_close_active_tab_activates_neighbour(s0: BrowserState, s1: BrowserState, k: int)
    requires
        s0.wf(),
        s0.tabs@.len() > 1,
        tab_closed(s0, s1, s0.active_tab_id),
        id_pos_from(s0.tabs@, s0.active_tab_id, 0) == Some(k),
    ensures
        s1.tabs@.len() == s0.tabs@.len() - 1,
        k + 1 < s0.tabs@.len() ==> s1.active_tab_id == s0.tabs@[k + 1].id,
        k + 1 == s0.tabs@.len() ==> s1.active_tab_id == s0.tabs@[k - 1].id,
        forall|j: int| 0 <= j < s1.tabs@.len() ==> #[trigger] s1.tabs@[j].id == (if j < k {
            s0.tabs@[j].id
        } else {
            s0.tabs@[j + 1].id
        }),
{
    lemma_id_pos_from(s0.tabs@, s0.active_tab_id, 0);
}

/// `s1` is `s0` with its active tab's load failed with `message`: the tab
/// shows the error page, and everything is to be redrawn.
pub open spec fn load_failed(s0: BrowserState, s1: BrowserState, message: Seq<char>) -> bool {
    &&& only_active_tab_changed(s0, s1)
    &&& s1.active().page_state is Error
    &&& s1.active().page_state->0@ == message
    &&& s1.active() == (TabState { page_state: s1.active().page_state, ..s0.active() })
    &&& s1 == (BrowserState { tabs: s1.tabs, dirty: all_dirty(), ..s0 })
}

impl BrowserState {
    /// Marks a loading active tab as failed with `message`.
    pub fn fail_loading(&mut self, message: &str)
        requires
            old(self).wf(),
        ensures
            final(self).wf(),
            !(old(self).active().page_state is Loading) ==> *final(self) == *old(self),
            old(self).active().page_state is Loading ==> load_failed(
                *old(self),
                *final(self),
                message@,
            ),
    {
        let p = self.active_pos;
        if self.tabs[p].page_state.is_loading() {
            self.tabs[p].page_state = PageState::Error(message.to_string());
            proof {
                assert(self.tabs@ == old(self).tabs@.update(p as int, self.tabs@[p as int]));
                lemma_replace_tab(old(self).tabs@, p as int, self.tabs@[p as int], self.active_tab_id);
            }
            self.dirty.all();
        }
    }

    /// Reloads the active tab: it enters Loading with a fresh verdict for its
    /// URL, which is returned. Nothing happens for a tab without a URL.
    pub fn reload(&mut self) -> (r: Option<String>)
        requires
            old(self).wf(),
        ensures
            final(self).wf(),
            old(self).active().url@.len() == 0 ==> r is None && *final(self) == *old(self),
            old(self).active().url@.len() > 0 ==> {
                &&& r matches Some(u) && u@ == old(self).active().url@
                &&& only_active_tab_changed(*old(self), *final(self))
                &&& nav_result_view(final(self).active().nav_result) == spec_classify_url(
                    old(self).active().url@,
                )
                &&& final(self).active() == (TabState {
                    page_state: PageState::Loading,
                    load_start_frame: old(self).frame_count,
                    nav_result: final(self).active().nav_result,
                    ..old(self).active()
                })
                &&& *final(self) == (BrowserState {
                    tabs: final(self).tabs,
                    dirty: all_dirty(),
                    ..*old(self)
                })
            },
    {
        let frame = self.frame_count;
        let p = self.active_pos;
        if self.tabs[p].url.as_str().is_empty() {
            return None;
        }
        let url = self.tabs[p].url.clone();
        let result = classify_url(url.as_str());
        self.tabs[p].page_state = PageState::Loading;
        self.tabs[p].load_start_frame = frame;
        self.tabs[p].nav_result = result;
        proof {
            assert(self.tabs@ == old(self).tabs@.update(p as int, self.tabs@[p as int]));
            lemma_replace_tab(old(self).tabs@, p as int, self.tabs@[p as int], self.active_tab_id);
        }
        self.dirty.all();
        Some(url)
    }

    /// Starts navigating the active tab to `url`. A URL that cannot load puts
    /// the tab straight into Error and returns `None`; one that can puts it
    /// into Loading and is returned. An empty URL changes nothing.
    pub fn begin_navigate(&mut self, url: &str) -> (r: Option<String>)
        requires
            old(self).wf(),
        ensures
            final(self).wf(),
            url@.len() == 0 ==> r is None && *final(self) == *old(self),
            url@.len() > 0 ==> {
                let t0 = old(self).active();
                let t1 = final(self).active();
                &&& only_active_tab_changed(*old(self), *final(self))
                &&& t1.url@ == url@
                &&& t1.display_url@ == url@
                &&& t1.title@ == spec_derive_title(url@)
                &&& nav_result_view(t1.nav_result) == spec_classify_url(url@)
                &&& t1.is_bookmarked == spec_is_bookmarked(old(self).bookmarks@, url@)
                &&& match spec_classify_url(url@) {
                    Some(reason) => {
                        &&& r is None
                        &&& t1.page_state is Error
                        &&& t1.page_state->0@ == reason
                        &&& t1.load_start_frame == t0.load_start_frame
                    },
                    None => {
                        &&& r matches Some(u) && u@ == url@
                        &&& t1.page_state is Loading
                        &&& t1.load_start_frame == old(self).frame_count
                    },
                }
                &&& t1 == (TabState {
                    url: t1.url,
                    display_url: t1.display_url,
                    title: t1.title,
                    page_state: t1.page_state,
                    is_bookmarked: t1.is_bookmarked,
                    load_start_frame: t1.load_start_frame,
                    nav_result: t1.nav_result,
                    ..t0
                })
                &&& final(self).address_bar_input@ == url@
                &&& *final(self) == (BrowserState {
                    tabs: final(self).tabs,
                    address_bar_input: final(self).address_bar_input,
                    address_bar_focused: false,
                    dirty: all_dirty(),
                    ..*old(self)
                })
            },
    {
        if url.is_empty() {
            return None;
        }
        let result = classify_url(url);
        let frame = self.frame_count;
        let p = self.active_pos;
        let fail = clone_fail_reason(&result);
        self.tabs[p].url = url.to_string();
        self.tabs[p].display_url = url.to_string();
        self.tabs[p].title = derive_title(url).to_string();
        let will_load = fail.is_none();
        match fail {
            Some(reason) => {
                self.tabs[p].page_state = PageState::Error(reason);
            },
            None => {
                self.tabs[p].page_state = PageState::Loading;
                self.tabs[p].load_start_frame = frame;
            },
        }
        self.tabs[p].nav_result = result;
        self.address_bar_input = url.to_string();
        self.address_bar_focused = false;
        proof {
            assert(self.tabs@ == old(self).tabs@.update(p as int, self.tabs@[p as int]));
            lemma_replace_tab(old(self).tabs@, p as int, self.tabs@[p as int], self.active_tab_id);
        }
        self.update_bookmark_flag();
        assert(self.tabs@ =~= old(self).tabs@.update(p as int, self.tabs@[p as int]));
        self.dirty.all();
        if will_load {
            Some(url.to_string())
        } else {
            None
        }
    }

    /// Completes the active tab's navigation with the verdict taken when it
    /// started: a URL that loads is committed to history, one that fails shows
    /// its error. Nothing happens unless the tab is loading.
    pub fn commit_navigation(&mut self)
        requires
            old(self).wf(),
        ensures
            final(self).wf(),
            !(old(self).active().page_state is Loading) ==> *final(self) == *old(self),
            old(self).active().page_state is Loading ==> {
                let t0 = old(self).active();
                let t1 = final(self).active();
                &&& only_active_tab_changed(*old(self), *final(self))
                &&& match t0.nav_result {
                    NavResult::WillLoad => loaded_with_title(
                        t0,
                        t1,
                        commit_title(t0.title@, t0.url@),
                    ),
                    NavResult::WillFail(reason) => {
                        &&& t1.page_state is Error
                        &&& t1.page_state->0@ == reason@
                        &&& t1 == (TabState { page_state: t1.page_state, ..t0 })
                    },
                }
                &&& *final(self) == (BrowserState {
                    tabs: final(self).tabs,
                    dirty: all_dirty(),
                    ..*old(self)
                })
            },
    {
        let p = self.active_pos;
        if !self.tabs[p].page_state.is_loading() {
            return ;
        }
        let url = self.tabs[p].url.clone();
        let fail = clone_fail_reason(&self.tabs[p].nav_result);
        match fail {
            None => {
                let title = if self.tabs[p].title.as_str().is_empty() {
                    derive_title(url.as_str()).to_string()
                } else {
                    self.tabs[p].title.clone()
                };
                self.tabs[p].title = title.clone();
                self.tabs[p].page_state = PageState::Loaded;
                self.tabs[p].commit(url.as_str(), title.as_str(), None);
            },
            Some(reason) => {
                self.tabs[p].page_state = PageState::Error(reason);
            },
        }
        proof {
            assert(self.tabs@ == old(self).tabs@.update(p as int, self.tabs@[p as int]));
            lemma_replace_tab(old(self).tabs@, p as int, self.tabs@[p as int], self.active_tab_id);
        }
        self.dirty.all();
    }

    /// Completes the active tab's load with a title reported by the engine
    /// (one derived from the URL when that is empty) and commits it to history.
    /// Nothing happens unless the tab is loading.
    pub fn resolve_loading(&mut self, engine_title: String)
        requires
            old(self).wf(),
        ensures
            final(self).wf(),
            !(old(self).active().page_state is Loading) ==> *final(self) == *old(self),
            old(self).active().page_state is Loading ==> {
                &&& only_active_tab_changed(*old(self), *final(self))
                &&& loaded_with_title(
                    old(self).active(),
                    final(self).active(),
                    commit_title(engine_title@, old(self).active().url@),
                )
                &&& *final(self) == (BrowserState {
                    tabs: final(self).tabs,
                    dirty: all_dirty(),
                    ..*old(self)
                })
            },
    {
        let p = self.active_pos;
        if !self.tabs[p].page_state.is_loading() {
            return ;
        }
        let url = self.tabs[p].url.clone();
        let title = if engine_title.as_str().is_empty() {
            derive_title(url.as_str()).to_string()
        } else {
            engine_title
        };
        self.tabs[p].title = title.clone();
        self.tabs[p].page_state = PageState::Loaded;
        self.tabs[p].commit(url.as_str(), title.as_str(), None);
        proof {
            assert(self.tabs@ == old(self).tabs@.update(p as int, self.tabs@[p as int]));
            lemma_replace_tab(old(self).tabs@, p as int, self.tabs@[p as int], self.active_tab_id);
        }
        self.dirty.all();
    }
}


impl BrowserState {
    /// Shows history entry `k` of the active tab (shared by back and forward).
    fn restore_entry(&mut self, k: usize)
        requires
            old(self).wf(),
            k < old(self).active().history@.len(),
        ensures
            final(self).wf(),
            restores_entry(*old(self), *final(self), k as int),
    {
        let p = self.active_pos;
        self.tabs[p].history_index = k;
        let entry = self.tabs[p].history[k].duplicate();
        self.tabs[p].url = entry.url.clone();
        self.tabs[p].display_url = entry.display_url.clone();
        self.tabs[p].title = entry.title.clone();
        self.tabs[p].page_state = match &entry.error_msg {
            Some(err) => PageState::Error(err.clone()),
            None => PageState::Loaded,
        };
        self.address_bar_input = entry.url.clone();
        proof {
            assert(self.tabs@ == old(self).tabs@.update(p as int, self.tabs@[p as int]));
            assert(history_view(self.tabs@[p as int].history@)[k as int] == entry@);
            lemma_replace_tab(old(self).tabs@, p as int, self.tabs@[p as int], self.active_tab_id);
        }
        self.update_bookmark_flag();
        assert(self.tabs@ =~= old(self).tabs@.update(p as int, self.tabs@[p as int]));
        self.dirty.all();
    }

    /// Steps the active tab back one history entry and shows it as it was
    /// committed (no reload). Always returns `None`: nothing needs loading.
    pub fn go_back(&mut self) -> (r: Option<String>)
        requires
            old(self).wf(),
        ensures
            final(self).wf(),
            r is None,
            go_back_post(*old(self), *final(self)),
    {
        let p = self.active_pos;
        if !self.tabs[p].can_go_back() {
            return None;
        }
        let k = self.tabs[p].history_index - 1;
        self.restore_entry(k);
        None
    }

    /// Steps the active tab forward one history entry and shows it as it was
    /// committed (no reload). Always returns `None`: nothing needs loading.
    pub fn go_forward(&mut self) -> (r: Option<String>)
        requires
            old(self).wf(),
        ensures
            final(self).wf(),
            r is None,
            go_forward_post(*old(self), *final(self)),
    {
        let p = self.active_pos;
        let n = self.tabs[p].history.len();
        assert(self.tabs@[p as int].wf());
        if self.tabs[p].history_index + 1 >= n {
            return None;
        }
        let k = self.tabs[p].history_index + 1;
        self.restore_entry(k);
        None
    }

    /// Switches to the next palette and its theme.
    pub fn cycle_theme(&mut self)
        requires
            old(self).wf(),
            old(self).theme_version < u64::MAX,
        ensures
            final(self).wf(),
            *final(self) == (BrowserState {
                palette: old(self).palette.spec_cycle(),
                theme: spec_theme(old(self).palette.spec_cycle()),
                theme_version: (old(self).theme_version + 1) as u64,
                dirty: all_dirty(),
                ..*old(self)
            }),
    {
        let next = self.palette.cycle();
        self.palette = next;
        self.theme = get_theme(next);
        self.theme_version = self.theme_version + 1;
        self.dirty.all();
    }

    /// Shows navigation button `id` as pressed from the current frame on.
    pub fn press_nav_btn(&mut self, id: u8)
        requires
            old(self).wf(),
        ensures
            final(self).wf(),
            *final(self) == (BrowserState {
                nav_btn_pressed: id,
                nav_btn_pressed_frame: old(self).frame_count,
                dirty: DirtyFlags { chrome: true, ..old(self).dirty },
                ..*old(self)
            }),
    {
        self.nav_btn_pressed = id;
        self.nav_btn_pressed_frame = self.frame_count;
        self.dirty.chrome = true;
    }

    /// Releases a pressed navigation button more than twelve frames after it
    /// was pressed.
    pub fn tick_nav_btn(&mut self)
        requires
            old(self).wf(),
            old(self).nav_btn_pressed != 0 ==> old(self).nav_btn_pressed_frame + 12 <= u64::MAX,
        ensures
            final(self).wf(),
            old(self).nav_btn_pressed != 0 && old(self).frame_count > old(self).nav_btn_pressed_frame
                + 12 ==> *final(self) == (BrowserState {
                nav_btn_pressed: 0,
                dirty: DirtyFlags { chrome: true, ..old(self).dirty },
                ..*old(self)
            }),
            !(old(self).nav_btn_pressed != 0 && old(self).frame_count > old(
                self,
            ).nav_btn_pressed_frame + 12) ==> *final(self) == *old(self),
    {
        if self.nav_btn_pressed != 0 && self.frame_count > self.nav_btn_pressed_frame + 12 {
            self.nav_btn_pressed = 0;
            self.dirty.chrome = true;
        }
    }
}

/// Back then forward returns the active tab to the entry it showed.
pub proof fn law_back_then_forward(s0: BrowserState, s1: BrowserState, s2: BrowserState)
    requires
        s0.wf(),
        s1.wf(),
        s0.active().history_index > 0,
        go_back_post(s0, s1),
        go_forward_post(s1, s2),
    ensures
        s2.active_pos == s0.active_pos,
        s2.active().history_index == s0.active().history_index,
        history_view(s2.active().history@) == history_view(s0.active().history@),
        restored_state_ok(history_view(s0.active().history@)[s0.active().history_index as int], s2.active()),
        s2.tabs@.len() == s0.tabs@.len(),
        forall|j: int| 0 <= j < s0.tabs@.len() && j != s0.active_pos ==> #[trigger] s2.tabs@[j] == s0.tabs@[j],
{
    assert(s1.active_pos == s0.active_pos);
    assert(s1.tabs@[s1.active_pos as int] == s1.active());
    assert(s1.active().history == s0.active().history);
}

/// Forward then back returns the active tab to the entry it showed.
pub proof fn law_forward_then_back(s0: BrowserState, s1: BrowserState, s2: BrowserState)
    requires
        s0.wf(),
        s1.wf(),
        s0.active().history_index + 1 < s0.active().history@.len(),
        go_forward_post(s0, s1),
        go_back_post(s1, s2),
    ensures
        s2.active_pos == s0.active_pos,
        s2.active().history_index == s0.active().history_index,
        history_view(s2.active().history@) == history_view(s0.active().history@),
        restored_state_ok(history_view(s0.active().history@)[s0.active().history_index as int], s2.active()),
        s2.tabs@.len() == s0.tabs@.len(),
        forall|j: int| 0 <= j < s0.tabs@.len() && j != s0.active_pos ==> #[trigger] s2.tabs@[j] == s0.tabs@[j],
{
    assert(s1.active_pos == s0.active_pos);
    assert(s1.active().history == s0.active().history);
}


/// Bookmarks for any URL but `url` are kept.
pub open spec fn keeps_other_urls(url: Seq<char>) -> spec_fn(QuickLink) -> bool {
    |b: QuickLink| b.url@ != url
}

/// `s1` is `s0` after the active tab's bookmark was toggled: nothing changes
/// for a tab without a URL; otherwise its bookmarks are removed when it was
/// marked bookmarked, or one for it is appended when it was not.
pub open spec fn bookmark_toggled(s0: BrowserState, s1: BrowserState) -> bool {
    &&& s0.active().url@.len() == 0 ==> s1 == s0
    &&& s0.active().url@.len() > 0 ==> {
        let t0 = s0.active();
        let n = s0.bookmarks@.len();
        &&& if t0.is_bookmarked {
            s1.bookmarks@ == s0.bookmarks@.filter(keeps_other_urls(t0.url@))
        } else {
            &&& s1.bookmarks@.len() == n + 1
            &&& s1.bookmarks@.take(n as int) == s0.bookmarks@
            &&& s1.bookmarks@[n as int].title@ == t0.title@
            &&& s1.bookmarks@[n as int].url@ == t0.url@
            &&& s1.bookmarks@[n as int].first_upper == spec_first_upper(t0.title@)
        }
        &&& s1.tabs@ == s0.tabs@.update(
            s0.active_pos as int,
            TabState { is_bookmarked: !t0.is_bookmarked, ..t0 },
        )
        &&& s1 == (BrowserState {
            tabs: s1.tabs,
            bookmarks: s1.bookmarks,
            dirty: DirtyFlags { chrome: true, ..s0.dirty },
            ..s0
        })
    }
}

proof fn lemma_filter_keeps_all(bms: Seq<QuickLink>, url: Seq<char>)
    requires
        forall|i: int| 0 <= i < bms.len() ==> (#[trigger] bms[i]).url@ != url,
    ensures
        bms.filter(keeps_other_urls(url)) == bms,
    decreases bms.len(),
{
    reveal(Seq::filter);
    if bms.len() > 0 {
        lemma_filter_keeps_all(bms.drop_last(), url);
        assert(bms.drop_last().push(bms.last()) =~= bms);
    }
}

/// Bookmarking a page that no bookmark points to and then toggling again
/// leaves the bookmarks and tabs as they were.
pub proof fn law_bookmark_toggle_twice_restores(s0: BrowserState, s1: BrowserState, s2: BrowserState)
    requires
        s0.wf(),
        bookmark_toggled(s0, s1),
        bookmark_toggled(s1, s2),
        !s0.active().is_bookmarked,
        forall|i: int| 0 <= i < s0.bookmarks@.len() ==> (#[trigger] s0.bookmarks@[i]).url@ != s0.active().url@,
    ensures
        s2.bookmarks@ == s0.bookmarks@,
        s2.tabs@ == s0.tabs@,
{
    let t0 = s0.active();
    if t0.url@.len() > 0 {
        let n = s0.bookmarks@.len();
        assert(s1.active_pos == s0.active_pos);
        assert(s1.bookmarks@ =~= s0.bookmarks@.push(s1.bookmarks@[n as int]));
        assert(s1.active() == (TabState { is_bookmarked: true, ..t0 }));
        s0.bookmarks@.lemma_filter_push(s1.bookmarks@[n as int], keeps_other_urls(t0.url@));
        lemma_filter_keeps_all(s0.bookmarks@, t0.url@);
        assert(s2.tabs@ =~= s0.tabs@);
    }
}

/// Drops every bookmark for `url`, keeping the others in order.
fn remove_bookmarks_for(bms: &mut Vec<QuickLink>, url: &String)
    ensures
        final(bms)@ == old(bms)@.filter(keeps_other_urls(url@)),
{
    let mut rest: Vec<QuickLink> = Vec::new();
    std::mem::swap(&mut rest, bms);
    let ghost orig = rest@;
    let ghost mut done: Seq<QuickLink> = Seq::empty();
    let u = chars_of(url.as_str());
    assert(done.filter(keeps_other_urls(url@)) =~= Seq::<QuickLink>::empty()) by {
        reveal(Seq::filter);
    }
    while rest.len() > 0
        invariant
            orig == done + rest@,
            bms@ == done.filter(keeps_other_urls(url@)),
            u@ == url@,
        decreases rest.len(),
    {
        let b = rest.remove(0);
        proof {
            done.lemma_filter_push(b, keeps_other_urls(url@));
            done = done.push(b);
        }
        if !seq_eq(&chars_of(b.url.as_str()), &u) {
            bms.push(b);
        }
    }
    assert(done =~= orig);
}

impl BrowserState {
    /// Bookmarks the active tab's page, or removes every bookmark for it when
    /// the tab is marked bookmarked. Nothing happens for a tab without a URL.
    pub fn toggle_bookmark(&mut self)
        requires
            old(self).wf(),
        ensures
            final(self).wf(),
            bookmark_toggled(*old(self), *final(self)),
    {
        let p = self.active_pos;
        if self.tabs[p].url.as_str().is_empty() {
            return ;
        }
        let url = self.tabs[p].url.clone();
        let was = self.tabs[p].is_bookmarked;
        if was {
            remove_bookmarks_for(&mut self.bookmarks, &url);
        } else {
            let link = QuickLink::new(self.tabs[p].title.as_str(), url.as_str());
            self.bookmarks.push(link);
            assert(self.bookmarks@.take(old(self).bookmarks@.len() as int) =~= old(self).bookmarks@);
        }
        self.tabs[p].is_bookmarked = !was;
        proof {
            assert(self.tabs@ == old(self).tabs@.update(p as int, self.tabs@[p as int]));
            lemma_replace_tab(old(self).tabs@, p as int, self.tabs@[p as int], self.active_tab_id);
        }
        self.dirty.chrome = true;
    }
}


/// An id that occurs in the list has a first position.
proof fn lemma_id_present(a: Seq<TabState>, id: TabId, j: int)
    requires
        0 <= j < a.len(),
        a[j].id == id,
    ensures
        id_pos_from(a, id, 0) is Some,
{
    lemma_id_pos_from(a, id, 0);
}

/// The tab a closed active tab hands over to: the one that took its place,
/// or the new last tab when it was last.
pub open spec fn successor_pos(k: int, remaining: int) -> int {
    if k < remaining - 1 {
        k
    } else {
        remaining - 1
    }
}

impl BrowserState {
    /// Closes the first tab with this id. Closing the only tab replaces it by
    /// a blank one; closing the active tab activates its successor; an unknown
    /// id changes nothing.
    pub fn close_tab(&mut self, id: TabId)
        requires
            old(self).wf(),
        ensures
            final(self).wf(),
            tab_closed(*old(self), *final(self), id),

    {
        if self.tabs.len() == 1 {
            let fresh_id = self.fresh_tab_id();
            let fresh = TabState::new_tab(fresh_id);
            self.tabs.set(0, fresh);
            self.active_tab_id = fresh_id;
            proof {
                assert(self.tabs@[0].wf());
                assert(id_pos_from(self.tabs@, fresh_id, 0) == Some(0int));
            }
            self.sync_address_bar();
            self.update_layout();
            self.dirty.all();
            return ;
        }
        let mut idx: usize = 0;
        while idx < self.tabs.len() && self.tabs[idx].id != id
            invariant
                idx <= self.tabs.len(),
                id_pos_from(self.tabs@, id, 0) == id_pos_from(self.tabs@, id, idx as int),
            decreases self.tabs.len() - idx,
        {
            idx = idx + 1;
        }
        if idx == self.tabs.len() {
            return ;
        }
        proof {
            lemma_id_pos_from(old(self).tabs@, id, 0);
            lemma_id_pos_from(old(self).tabs@, self.active_tab_id, 0);
        }
        let closing_active = id == self.active_tab_id;
        let ghost ap = self.active_pos as int;
        self.tabs.remove(idx);
        let ghost rest = self.tabs@;
        assert(rest == old(self).tabs@.remove(idx as int));
        assert forall|i: int| 0 <= i < rest.len() implies (#[trigger] rest[i]).wf() by {
            if i < idx {
                assert(old(self).tabs@[i].wf());
            } else {
                assert(old(self).tabs@[i + 1].wf());
            }
        }
        let last = self.tabs.len() - 1;
        let new_idx = if idx < last {
            idx
        } else {
            last
        };
        let new_id = self.tabs[new_idx].id;
        if closing_active {
            self.active_tab_id = new_id;
            proof {
                lemma_id_present(rest, new_id, new_idx as int);
            }
        } else {
            proof {
                if ap < idx {
                    assert(rest[ap].id == old(self).active_tab_id);
                    lemma_id_present(rest, old(self).active_tab_id, ap);
                } else {
                    assert(ap != idx);
                    assert(rest[ap - 1].id == old(self).active_tab_id);
                    lemma_id_present(rest, old(self).active_tab_id, ap - 1);
                }
            }
        }
        self.update_layout();
        if closing_active {
            self.activate_tab(new_id);
            proof {
                lemma_id_pos_from(rest, new_id, 0);
            }
        }
        self.dirty.all();
    }
}


/// `x` lies in slot `i` of a row of slots `w` wide that start at `base` and
/// repeat every `d`.
pub open spec fn in_slot(x: int, base: int, d: int, w: int, i: int) -> bool {
    base + i * d <= x < base + i * d + w
}

/// The slot of a row that `x` lies in, if any: the quotient by the pitch,
/// provided the remainder falls within a slot's width.
pub open spec fn slot_of(x: int, base: int, d: int, w: int) -> Option<int> {
    if x >= base && (x - base) % d < w {
        Some((x - base) / d)
    } else {
        None
    }
}

proof fn lemma_slot(x: int, base: int, d: int, w: int, i: int)
    requires
        0 < w <= d,
        0 <= i,
    ensures
        in_slot(x, base, d, w, i) <==> slot_of(x, base, d, w) == Some(i),
        in_slot(x, base, d, w, i) ==> (x - base) % d == x - base - i * d,
{
    if x >= base {
        vstd::arithmetic::div_mod::lemma_fundamental_div_mod(x - base, d);
        vstd::arithmetic::div_mod::lemma_mod_pos_bound(x - base, d);
        let q = (x - base) / d;
        let r = (x - base) % d;
        assert(d * q == q * d) by (nonlinear_arith);
        if in_slot(x, base, d, w, i) {
            vstd::arithmetic::div_mod::lemma_fundamental_div_mod_converse(
                x - base,
                d,
                i,
                x - base - i * d,
            );
        }
    } else {
        assert(i * d >= 0) by (nonlinear_arith)
            requires
                i >= 0,
                d > 0,
        ;
    }
}

/// Half-open interval test.
pub open spec fn within(v: int, lo: int, len: int) -> bool {
    lo <= v < lo + len
}

/// The tab-strip region under `x`: a tab (its close button in the last
/// eighteen pixels), the new-tab button after the last tab, or nothing.
pub open spec fn tab_strip_region(n: int, tw: int, x: int) -> HoveredRegion {
    let d = tw + TAB_SEP;
    match slot_of(x, TAB_START_X as int, d, tw) {
        Some(i) if i < n => if (x - TAB_START_X) % d >= (if tw >= 18 {
            tw - 18
        } else {
            0
        }) {
            HoveredRegion::TabClose(i as usize)
        } else {
            HoveredRegion::Tab(i as usize)
        },
        _ => if within(x, TAB_START_X + n * d, TAB_NEW_BTN_W as int) {
            HoveredRegion::NewTabBtn
        } else {
            HoveredRegion::NoRegion
        },
    }
}

pub open spec fn addr_bar_x() -> int {
    (FB_WIDTH - ADDR_BAR_W) / 2
}

pub open spec fn addr_bar_y() -> int {
    TAB_BAR_HEIGHT + (CHROME_BAR_HEIGHT - ADDR_BAR_H) / 2
}

/// The chrome-bar region under `(x, y)`: a navigation button, the bookmark
/// star at the right end of the address bar, the address bar, or nothing.
pub open spec fn chrome_region(x: int, y: int) -> HoveredRegion {
    if within(x, 12, 32) {
        HoveredRegion::NavBack
    } else if within(x, 54, 32) {
        HoveredRegion::NavForward
    } else if within(x, 96, 32) {
        HoveredRegion::NavReload
    } else if within(x, addr_bar_x(), ADDR_BAR_W as int) && within(
        y,
        addr_bar_y(),
        ADDR_BAR_H as int,
    ) {
        if x >= addr_bar_x() + ADDR_BAR_W - 26 {
            HoveredRegion::BookmarkStar
        } else {
            HoveredRegion::AddressBar
        }
    } else {
        HoveredRegion::NoRegion
    }
}

/// How many quick links the new-tab page shows.
pub open spec fn quick_link_count(n_bookmarks: int) -> int {
    if n_bookmarks < 6 {
        n_bookmarks
    } else {
        6
    }
}

/// Left edge of the centred row of `num` quick links.
pub open spec fn quick_row_x(num: int) -> int {
    FB_WIDTH / 2 - (num * QUICK_LINK_W + (num - 1) * QUICK_LINK_GAP) / 2
}

/// Top edge of the quick-link row.
pub open spec fn quick_row_y() -> int {
    TOP_BAR_HEIGHT + (FB_HEIGHT - TOP_BAR_HEIGHT) / 2 + 46
}

/// The content-area region under `(x, y)`: the retry button of an error
/// page, a quick link of the new-tab page, or plain content.
pub open spec fn content_region(page: PageState, n_bookmarks: int, x: int, y: int) -> HoveredRegion {
    match page {
        PageState::Error(_) => if within(x, spec_retry_btn_pos().0 as int, RETRY_BTN_W as int)
            && within(y, spec_retry_btn_pos().1 as int, RETRY_BTN_H as int) {
            HoveredRegion::RetryBtn
        } else {
            HoveredRegion::ContentArea
        },
        PageState::NewTab => {
            let num = quick_link_count(n_bookmarks);
            match slot_of(x, quick_row_x(num), QUICK_LINK_W + QUICK_LINK_GAP, QUICK_LINK_W as int) {
                Some(i) if num > 0 && i < num && within(y, quick_row_y(), QUICK_LINK_H as int) => {
                    HoveredRegion::QuickLink(i as usize)
                },
                _ => HoveredRegion::ContentArea,
            }
        },
        _ => HoveredRegion::ContentArea,
    }
}

/// The interactive region under the cursor at `(x, y)`.
pub open spec fn hover_region_at(s: BrowserState, x: int, y: int) -> HoveredRegion {
    if y < TAB_BAR_HEIGHT {
        tab_strip_region(s.tabs@.len() as int, s.tab_width as int, x)
    } else if y < TOP_BAR_HEIGHT {
        chrome_region(x, y)
    } else {
        content_region(s.active().page_state, s.bookmarks@.len() as int, x, y)
    }
}

/// The flags after hover over `r` changed: the strip that shows `r` is dirty.
pub open spec fn hover_dirty(d: DirtyFlags, r: HoveredRegion) -> DirtyFlags {
    match r {
        HoveredRegion::Tab(_) | HoveredRegion::TabClose(_) | HoveredRegion::NewTabBtn => DirtyFlags {
            tabs: true,
            ..d
        },
        HoveredRegion::NavBack
        | HoveredRegion::NavForward
        | HoveredRegion::NavReload
        | HoveredRegion::AddressBar
        | HoveredRegion::BookmarkStar => DirtyFlags { chrome: true, ..d },
        HoveredRegion::QuickLink(_) | HoveredRegion::RetryBtn => DirtyFlags { content: true, ..d },
        HoveredRegion::NoRegion | HoveredRegion::ContentArea => d,
    }
}

/// The tab strip of `n` tabs `tw` wide, and the new-tab button after it, fit
/// in `u32` coordinates.
pub open spec fn strip_fits(n: int, tw: int) -> bool {
    n * (tw + TAB_SEP) + TAB_START_X + TAB_NEW_BTN_W <= u32::MAX
}

impl BrowserState {
    /// Dirty only the hover-affected region for a given interactive element.
    fn dirty_for_hover(region: HoveredRegion, d: &mut DirtyFlags)
        ensures
            *final(d) == hover_dirty(*old(d), region),
    {
        match region {
            HoveredRegion::Tab(_) | HoveredRegion::TabClose(_) | HoveredRegion::NewTabBtn => d.tabs =
            true,
            HoveredRegion::NavBack
            | HoveredRegion::NavForward
            | HoveredRegion::NavReload
            | HoveredRegion::AddressBar
            | HoveredRegion::BookmarkStar => d.chrome = true,
            HoveredRegion::QuickLink(_) | HoveredRegion::RetryBtn => d.content = true,
            HoveredRegion::NoRegion | HoveredRegion::ContentArea => {},
        }
    }

    fn tab_strip_hit(n: usize, tw: u32, x: u32) -> (r: HoveredRegion)
        requires
            0 < tw <= TAB_MAX_W,
            n <= u32::MAX,
            strip_fits(n as int, tw as int),
        ensures
            r == tab_strip_region(n as int, tw as int, x as int),
    {
        let ghost d = tw + TAB_SEP;
        let mut i: usize = 0;
        while i < n
            invariant
                i <= n,
                n <= u32::MAX,
                0 < tw <= TAB_MAX_W,
                d == tw + TAB_SEP,
                strip_fits(n as int, tw as int),
                forall|j: int| 0 <= j < i ==> !#[trigger] in_slot(x as int, TAB_START_X as int, d, tw as int, j),
            decreases n - i,
        {
            assert(i * d + d <= n * d) by (nonlinear_arith)
                requires
                    i < n,
                    d > 0,
            ;
            let lx = TAB_START_X + (i as u32) * (tw + TAB_SEP);
            let rx = lx + tw;
            if x >= lx && x < rx {
                proof {
                    lemma_slot(x as int, TAB_START_X as int, d, tw as int, i as int);
                }
                return if x >= lx + tw.saturating_sub(18) {
                    HoveredRegion::TabClose(i)
                } else {
                    HoveredRegion::Tab(i)
                };
            }
            i = i + 1;
        }
        proof {
            match slot_of(x as int, TAB_START_X as int, d, tw as int) {
                Some(q) => {
                    if q < n {
                        vstd::arithmetic::div_mod::lemma_mod_pos_bound(x - TAB_START_X, d);
                        lemma_slot(x as int, TAB_START_X as int, d, tw as int, q);
                        assert(!in_slot(x as int, TAB_START_X as int, d, tw as int, q));
                    }
                },
                None => {},
            }
        }
        let add_x = TAB_START_X + (n as u32) * (tw + TAB_SEP);
        if x >= add_x && x < add_x + TAB_NEW_BTN_W {
            return HoveredRegion::NewTabBtn;
        }
        HoveredRegion::NoRegion
    }

    fn chrome_hit(x: u32, y: u32) -> (r: HoveredRegion)
        ensures
            r == chrome_region(x as int, y as int),
    {
        let r: u32 = 16;
        if x >= 12 && x < 12 + r * 2 {
            return HoveredRegion::NavBack;
        }
        if x >= 54 && x < 54 + r * 2 {
            return HoveredRegion::NavForward;
        }
        if x >= 96 && x < 96 + r * 2 {
            return HoveredRegion::NavReload;
        }
        let bar_x = (FB_WIDTH - ADDR_BAR_W) / 2;
        let bar_y = TAB_BAR_HEIGHT + (CHROME_BAR_HEIGHT - ADDR_BAR_H) / 2;
        if x >= bar_x && x < bar_x + ADDR_BAR_W && y >= bar_y && y < bar_y + ADDR_BAR_H {
            return if x >= bar_x + ADDR_BAR_W - 26 {
                HoveredRegion::BookmarkStar
            } else {
                HoveredRegion::AddressBar
            };
        }
        HoveredRegion::NoRegion
    }

    fn quick_link_hit(n_bookmarks: usize, x: u32, y: u32) -> (r: HoveredRegion)
        ensures
            r == content_region(PageState::NewTab, n_bookmarks as int, x as int, y as int),
    {
        let num: u32 = if n_bookmarks < 6 {
            n_bookmarks as u32
        } else {
            6
        };
        if num > 0 {
            let cx = FB_WIDTH / 2;
            let cy = TOP_BAR_HEIGHT + (FB_HEIGHT - TOP_BAR_HEIGHT) / 2;
            let row_w = num * QUICK_LINK_W + (num - 1) * QUICK_LINK_GAP;
            let mut lx = cx.saturating_sub(row_w / 2);
            let ly = cy + 46;
            let ghost base = lx as int;
            let ghost d = QUICK_LINK_W + QUICK_LINK_GAP;
            assert(base == quick_row_x(num as int));
            let mut i: usize = 0;
            while i < num as usize
                invariant
                    0 < num <= 6,
                    num == quick_link_count(n_bookmarks as int),
                    i <= num,
                    base == quick_row_x(num as int),
                    d == QUICK_LINK_W + QUICK_LINK_GAP,
                    ly == quick_row_y(),
                    lx == base + i * 136,
                    forall|j: int| 0 <= j < i ==> !(#[trigger] in_slot(x as int, base, d, QUICK_LINK_W as int, j)
                        && within(y as int, ly as int, QUICK_LINK_H as int)),
                decreases num - i,
            {
                if x >= lx && x < lx + QUICK_LINK_W && y >= ly && y < ly + QUICK_LINK_H {
                    proof {
                        lemma_slot(x as int, base, d, QUICK_LINK_W as int, i as int);
                    }
                    return HoveredRegion::QuickLink(i);
                }
                lx = lx + QUICK_LINK_W + QUICK_LINK_GAP;
                i = i + 1;
            }
            proof {
                match slot_of(x as int, base, d, QUICK_LINK_W as int) {
                    Some(q) => {
                        if q < num && within(y as int, ly as int, QUICK_LINK_H as int) {
                            vstd::arithmetic::div_mod::lemma_mod_pos_bound(x - base, d);
                            lemma_slot(x as int, base, d, QUICK_LINK_W as int, q);
                            assert(!(in_slot(x as int, base, d, QUICK_LINK_W as int, q) && within(
                                y as int,
                                ly as int,
                                QUICK_LINK_H as int,
                            )));
                        }
                    },
                    None => {},
                }
            }
        }
        HoveredRegion::ContentArea
    }

    fn compute_hover_region(&self, x: u32, y: u32) -> (r: HoveredRegion)
        requires
            self.wf(),
            strip_fits(self.tabs@.len() as int, self.tab_width as int),
        ensures
            r == hover_region_at(*self, x as int, y as int),
    {
        if y < TAB_BAR_HEIGHT {
            return Self::tab_strip_hit(self.tabs.len(), self.tab_width, x);
        }
        if y < TOP_BAR_HEIGHT {
            return Self::chrome_hit(x, y);
        }
        match &self.tabs[self.active_pos].page_state {
            PageState::Error(_) => {
                let (bx, by) = retry_btn_pos();
                if x >= bx && x < bx + RETRY_BTN_W && y >= by && y < by + RETRY_BTN_H {
                    return HoveredRegion::RetryBtn;
                }
            },
            PageState::NewTab => {
                return Self::quick_link_hit(self.bookmarks.len(), x, y);
            },
            _ => {},
        }
        HoveredRegion::ContentArea
    }

    /// Stores the cursor position and dirties only the strips whose hover
    /// state changed.
    pub fn set_mouse_pos(&mut self, x: u32, y: u32)
        requires
            old(self).wf(),
            strip_fits(old(self).tabs@.len() as int, old(self).tab_width as int),
        ensures
            final(self).wf(),
            ({
                let r = hover_region_at(*old(self), x as int, y as int);
                *final(self) == (BrowserState {
                    mouse_x: x,
                    mouse_y: y,
                    hovered_region: r,
                    dirty: if r != old(self).hovered_region {
                        hover_dirty(hover_dirty(old(self).dirty, r), old(self).hovered_region)
                    } else {
                        old(self).dirty
                    },
                    ..*old(self)
                })
            }),
    {
        self.mouse_x = x;
        self.mouse_y = y;
        let region = self.compute_hover_region(x, y);
        if region != self.hovered_region {
            Self::dirty_for_hover(region, &mut self.dirty);
            Self::dirty_for_hover(self.hovered_region, &mut self.dirty);
            self.hovered_region = region;
        }
    }
}

} // verus!
