//! The rendering engine's vocabulary shared with the shell, and the engine's
//! small pure helpers: download file names, script string literals, cursor
//! names, per-origin block counts.
use vstd::prelude::*;

use crate::adblock::{opt_view, spec_after_request, spec_block_decision, AdblockEngine, AdblockModel};
use crate::framebuffer::{min, painted, Framebuffer, Pixel};
use crate::json::hex_lower;
use crate::permissions::{
    origin_from_url, spec_origin_from_url, DecisionSource, PermissionDecision, PermissionKind,
};
use crate::text::{
    chars_of, dec, dec_u64, eq_pred, extend_chars, first_char_from, first_where, is_ascii_alnum,
    is_ws, is_ws_exec, last_char_before, last_where, lemma_last_where_bounds, lit, seq_eq, slice_of,
    string_of, trim, trim_by, trim_char_exec, trim_exec,
};

verus! {

broadcast use vstd::string::group_string_axioms;

// ── Engine vocabulary ────────────────────────────────────────────────────────

#[derive(Debug, Clone, Copy)]
pub struct EnginePerfStats {
    pub live_webviews: usize,
    pub suspended_tabs: usize,
}

impl Default for EnginePerfStats {
    fn default() -> (s: Self)
        ensures
            s.live_webviews == 0 && s.suspended_tabs == 0,
    {
        EnginePerfStats { live_webviews: 0, suspended_tabs: 0 }
    }
}

#[derive(Debug, Clone, Copy, PartialEq, Eq, Structural)]
pub enum CursorKind {
    Default,
    Pointer,
    Text,
    Wait,
}

/// Events the engine pushes up to the browser shell, each tagged (alongside)
/// with the id of the tab that produced it; a tab id of 0 means the active
/// tab.
#[derive(Debug, Clone, PartialEq)]
pub enum EngineEvent {
    TitleChanged(String),
    /// Actual URL after redirects.
    UrlChanged(String),
    LoadStarted,
    LoadComplete,
    LoadFailed(String),
    /// Full scrollable height of the loaded page in pixels.
    ContentHeightChanged(u32),
    /// Whether native back/forward history is available.
    NavStateChanged { can_back: bool, can_forward: bool },
    /// Find-in-page reported a match count for the active query.
    FindMatchCount(u32),
    DownloadStarted { id: u64, filename: String, path: String },
    /// Progress in thousandths of the whole download.
    DownloadProgress { id: u64, received: u64, per_mille: u32 },
    DownloadFinished { id: u64, path: String },
    DownloadFailed { id: u64, reason: String },
    PermissionPrompt { id: u64, origin: String, kind: PermissionKind, nav_id: u64 },
    PermissionResolved { id: u64 },
    SitePermissions {
        origin: String,
        decisions: Vec<(PermissionKind, PermissionDecision)>,
        adblock_enabled: bool,
        adblock_allowlisted: bool,
        blocked_count: u64,
    },
    CursorChanged(CursorKind),
    FrameReady { reason: String },
}

/// Whether the engine wrote real pixels into the framebuffer.
#[derive(Debug, Clone, Copy, PartialEq, Eq, Structural)]
pub enum EngineFrame {
    /// Engine composited pixels — caller should skip its own content renderer.
    Ready,
    /// Engine not yet ready or has no page — caller should use its fallback.
    NotReady,
}

// ── Test hooks of an engine without the WebKit extension ─────────────────────

/// Where a download with this suggested name goes in a build without the
/// WebKit engine: the name itself.
pub fn download_destination_for_test(filename: &str) -> (p: String)
    ensures
        p@ == filename@,
{
    filename.to_string()
}

/// Without the WebKit engine no web extension is configured.
pub fn webext_is_configured_for_test() -> (b: bool)
    ensures
        !b,
{
    false
}

/// Without the WebKit engine no web extension is available.
pub fn webext_is_available_for_test() -> (b: bool)
    ensures
        !b,
{
    false
}

/// Without the WebKit engine the web extension is not disabled either.
pub fn webext_is_disabled_for_test() -> (b: bool)
    ensures
        !b,
{
    false
}

/// Without the WebKit engine no web extension becomes ready.
pub fn webext_ready_for_test() -> (b: bool)
    ensures
        !b,
{
    false
}

/// Without the WebKit engine no web extension blocks anything.
pub fn webext_blocked_events_for_test() -> (n: u64)
    ensures
        n == 0,
{
    0
}

// ── Permissions ──────────────────────────────────────────────────────────────

/// How a decision's source is named in traces.
pub fn decision_source_label(source: DecisionSource) -> (s: &'static str)
    ensures
        s@ == match source {
            DecisionSource::Persisted => "persisted"@,
            DecisionSource::Session => "session"@,
            DecisionSource::Default => "default"@,
        },
{
    match source {
        DecisionSource::Persisted => "persisted",
        DecisionSource::Session => "session",
        DecisionSource::Default => "default",
    }
}

/// The permissions the site-information panel lists, in its order.
pub fn permission_kinds() -> (k: [PermissionKind; 5])
    ensures
        k@ == seq![
            PermissionKind::Notifications,
            PermissionKind::Geolocation,
            PermissionKind::Camera,
            PermissionKind::Microphone,
            PermissionKind::Clipboard,
        ],
{
    let k = [
        PermissionKind::Notifications,
        PermissionKind::Geolocation,
        PermissionKind::Camera,
        PermissionKind::Microphone,
        PermissionKind::Clipboard,
    ];
    assert(k@ =~= seq![
        PermissionKind::Notifications,
        PermissionKind::Geolocation,
        PermissionKind::Camera,
        PermissionKind::Microphone,
        PermissionKind::Clipboard,
    ]);
    k
}

// ── Ad blocking ──────────────────────────────────────────────────────────────

/// How many requests of one origin were blocked, by where they were stopped.
#[derive(Debug, Clone, Copy, PartialEq, Eq, Structural)]
pub struct OriginBlockCounts {
    pub in_process_policy: u64,
    pub in_process_subresource: u64,
    pub webextension_hard: u64,
}

/// `a + b`, capped at `u64::MAX`.
pub open spec fn sat_add(a: int, b: int) -> int {
    if a + b > u64::MAX {
        u64::MAX as int
    } else {
        a + b
    }
}

impl OriginBlockCounts {
    /// All blocked requests, the sum capped at `u64::MAX`.
    pub fn total(self) -> (n: u64)
        ensures
            n == sat_add(sat_add(self.in_process_policy as int, self.in_process_subresource as int),
                self.webextension_hard as int),
    {
        self.in_process_policy.saturating_add(self.in_process_subresource).saturating_add(
            self.webextension_hard,
        )
    }
}

/// Why a request is blocked (the matching rule, or "matched rule"), or
/// `None` when it may go ahead.
pub fn adblock_block_reason(adblock: &mut AdblockEngine, url: &str, origin: &str, private: bool) -> (r:
    Option<String>)
    requires
        old(adblock).wf(),
        old(adblock)@.total < u64::MAX,
    ensures
        final(adblock).wf(),
        final(adblock)@ == spec_after_request(old(adblock)@, url@, origin@, private),
        ({
            let (blocked, reason) = spec_block_decision(old(adblock)@, url@, origin@, private);
            match r {
                Some(s) => blocked && s@ == match reason {
                    Some(t) => t,
                    None => "matched rule"@,
                },
                None => !blocked,
            }
        }),
{
    let (blocked, reason) = adblock.should_block_for_context(url, origin, private);
    if blocked {
        match reason {
            Some(t) => Some(t),
            None => Some("matched rule".to_string()),
        }
    } else {
        None
    }
}

/// The key block counts are kept under: the origin of a URL, or the text
/// itself when it has none.
pub fn origin_key(origin_or_url: &str) -> (k: String)
    ensures
        k@ == match spec_origin_from_url(origin_or_url@) {
            Some(o) => o,
            None => origin_or_url@,
        },
{
    match origin_from_url(origin_or_url) {
        Some(o) => o,
        None => origin_or_url.to_string(),
    }
}

pub open spec fn spec_origin_key(origin_or_url: Seq<char>) -> Seq<char> {
    match spec_origin_from_url(origin_or_url) {
        Some(o) => o,
        None => origin_or_url,
    }
}

/// Where a request was stopped.
#[derive(Debug, Clone, Copy, PartialEq, Eq, Structural)]
pub enum BlockSource {
    InProcessPolicy,
    InProcessSubresource,
    WebExtensionHard,
}

/// The counts with the one for `source` raised by one (capped at `u64::MAX`).
pub open spec fn bumped(c: OriginBlockCounts, source: BlockSource) -> OriginBlockCounts {
    match source {
        BlockSource::InProcessPolicy => OriginBlockCounts {
            in_process_policy: sat_add(c.in_process_policy as int, 1) as u64,
            ..c
        },
        BlockSource::InProcessSubresource => OriginBlockCounts {
            in_process_subresource: sat_add(c.in_process_subresource as int, 1) as u64,
            ..c
        },
        BlockSource::WebExtensionHard => OriginBlockCounts {
            webextension_hard: sat_add(c.webextension_hard as int, 1) as u64,
            ..c
        },
    }
}

pub open spec fn zero_counts() -> OriginBlockCounts {
    OriginBlockCounts { in_process_policy: 0, in_process_subresource: 0, webextension_hard: 0 }
}

/// Blocked-request counts per origin.
pub struct OriginBlockTable {
    entries: Vec<(String, OriginBlockCounts)>,
}

pub open spec fn table_keys(es: Seq<(String, OriginBlockCounts)>) -> Seq<Seq<char>> {
    es.map_values(|e: (String, OriginBlockCounts)| e.0@)
}

pub open spec fn table_map(es: Seq<(String, OriginBlockCounts)>) -> Map<Seq<char>, OriginBlockCounts>
    decreases es.len(),
{
    if es.len() == 0 {
        Map::empty()
    } else {
        table_map(es.drop_last()).insert(es.last().0@, es.last().1)
    }
}

proof fn lemma_table_map_index(es: Seq<(String, OriginBlockCounts)>, i: int)
    requires
        0 <= i < es.len(),
        table_keys(es).no_duplicates(),
    ensures
        table_map(es).contains_key(es[i].0@),
        table_map(es)[es[i].0@] == es[i].1,
    decreases es.len(),
{
    let p = es.drop_last();
    assert(table_keys(p) =~= table_keys(es).drop_last());
    if i < es.len() - 1 {
        assert(p[i] == es[i]);
        lemma_table_map_index(p, i);
        assert(table_keys(es)[i] != table_keys(es)[es.len() - 1]);
    }
}

proof fn lemma_table_map_absent(es: Seq<(String, OriginBlockCounts)>, k: Seq<char>)
    requires
        forall|i: int| 0 <= i < es.len() ==> (#[trigger] es[i]).0@ != k,
    ensures
        !table_map(es).contains_key(k),
    decreases es.len(),
{
    if es.len() > 0 {
        let p = es.drop_last();
        assert forall|i: int| 0 <= i < p.len() implies (#[trigger] p[i]).0@ != k by {
            assert(p[i] == es[i]);
        }
        lemma_table_map_absent(p, k);
    }
}

proof fn lemma_table_map_update(es: Seq<(String, OriginBlockCounts)>, i: int, c: OriginBlockCounts)
    requires
        0 <= i < es.len(),
        table_keys(es).no_duplicates(),
    ensures
        table_keys(es.update(i, (es[i].0, c))).no_duplicates(),
        table_map(es.update(i, (es[i].0, c))) == table_map(es).insert(es[i].0@, c),
    decreases es.len(),
{
    let u = es.update(i, (es[i].0, c));
    assert(table_keys(u) =~= table_keys(es));
    let p = es.drop_last();
    assert(table_keys(p) =~= table_keys(es).drop_last());
    if i == es.len() - 1 {
        assert(u.drop_last() =~= p);
        assert forall|j: int| 0 <= j < p.len() implies (#[trigger] p[j]).0@ != es[i].0@ by {
            assert(table_keys(es)[j] != table_keys(es)[i]);
        }
        lemma_table_map_absent(p, es[i].0@);
        assert(table_map(u) =~= table_map(es).insert(es[i].0@, c));
    } else {
        assert(u.drop_last() =~= p.update(i, (es[i].0, c)));
        assert(p[i] == es[i]);
        lemma_table_map_update(p, i, c);
        assert(table_keys(es)[i] != table_keys(es)[es.len() - 1]);
        assert(table_map(u) =~= table_map(es).insert(es[i].0@, c));
    }
}

impl OriginBlockTable {
    /// The counts by origin.
    pub closed spec fn view_map(&self) -> Map<Seq<char>, OriginBlockCounts> {
        table_map(self.entries@)
    }

    /// Each origin is listed once.
    pub closed spec fn wf(&self) -> bool {
        table_keys(self.entries@).no_duplicates()
    }

    pub fn new() -> (t: Self)
        ensures
            t.wf(),
            t.view_map() == Map::<Seq<char>, OriginBlockCounts>::empty(),
    {
        let t = OriginBlockTable { entries: Vec::new() };
        assert(table_keys(t.entries@) =~= Seq::<Seq<char>>::empty());
        t
    }

    /// The counts for an origin (all zero when it has none).
    pub fn get(&self, origin: &str) -> (c: OriginBlockCounts)
        requires
            self.wf(),
        ensures
            c == if self.view_map().contains_key(origin@) {
                self.view_map()[origin@]
            } else {
                zero_counts()
            },
    {
        let key = chars_of(origin);
        let mut i: usize = 0;
        while i < self.entries.len()
            invariant
                i <= self.entries@.len(),
                self.wf(),
                key@ == origin@,
                forall|j: int| 0 <= j < i ==> (#[trigger] self.entries@[j]).0@ != origin@,
            decreases self.entries.len() - i,
        {
            if seq_eq(&chars_of(self.entries[i].0.as_str()), &key) {
                proof {
                    lemma_table_map_index(self.entries@, i as int);
                }
                return self.entries[i].1;
            }
            i = i + 1;
        }
        proof {
            lemma_table_map_absent(self.entries@, origin@);
        }
        OriginBlockCounts { in_process_policy: 0, in_process_subresource: 0, webextension_hard: 0 }
    }

    /// Counts one more blocked request of `origin_or_url`'s origin, by where
    /// it was stopped; an empty origin is not counted.
    pub fn increment_origin_block_count(&mut self, origin_or_url: &str, source: BlockSource)
        requires
            old(self).wf(),
        ensures
            final(self).wf(),
            origin_or_url@.len() == 0 ==> final(self).view_map() == old(self).view_map(),
            origin_or_url@.len() > 0 ==> ({
                let k = spec_origin_key(origin_or_url@);
                let c = if old(self).view_map().contains_key(k) {
                    old(self).view_map()[k]
                } else {
                    zero_counts()
                };
                final(self).view_map() == old(self).view_map().insert(k, bumped(c, source))
            }),
    {
        if origin_or_url.is_empty() {
            return;
        }
        let key = origin_key(origin_or_url);
        let kc = chars_of(key.as_str());
        let mut i: usize = 0;
        while i < self.entries.len()
            invariant
                i <= self.entries@.len(),
                self.entries@ == old(self).entries@,
                table_keys(self.entries@).no_duplicates(),
                origin_or_url@.len() > 0,
                key@ == spec_origin_key(origin_or_url@),
                kc@ == key@,
                forall|j: int| 0 <= j < i ==> (#[trigger] self.entries@[j]).0@ != key@,
            decreases self.entries.len() - i,
        {
            if seq_eq(&chars_of(self.entries[i].0.as_str()), &kc) {
                let c = self.entries[i].1;
                let next = match source {
                    BlockSource::InProcessPolicy => OriginBlockCounts {
                        in_process_policy: c.in_process_policy.saturating_add(1),
                        ..c
                    },
                    BlockSource::InProcessSubresource => OriginBlockCounts {
                        in_process_subresource: c.in_process_subresource.saturating_add(1),
                        ..c
                    },
                    BlockSource::WebExtensionHard => OriginBlockCounts {
                        webextension_hard: c.webextension_hard.saturating_add(1),
                        ..c
                    },
                };
                assert(next == bumped(c, source));
                let name = self.entries[i].0.clone();
                proof {
                    lemma_table_map_index(self.entries@, i as int);
                    lemma_table_map_update(self.entries@, i as int, next);
                }
                let ghost before = self.entries@;
                self.entries.set(i, (name, next));
                proof {
                    assert(self.entries@ == before.update(i as int, (before[i as int].0, next)));
                }
                return;
            }
            i = i + 1;
        }
        let ghost before = self.entries@;
        let c = OriginBlockCounts { in_process_policy: 0, in_process_subresource: 0, webextension_hard: 0 };
        let next = match source {
            BlockSource::InProcessPolicy => OriginBlockCounts { in_process_policy: 1, ..c },
            BlockSource::InProcessSubresource => OriginBlockCounts { in_process_subresource: 1, ..c },
            BlockSource::WebExtensionHard => OriginBlockCounts { webextension_hard: 1, ..c },
        };
        self.entries.push((key, next));
        proof {
            lemma_table_map_absent(before, key@);
            assert(self.entries@.drop_last() =~= before);
            assert(table_keys(self.entries@) =~= table_keys(before).push(key@));
            assert forall|a: int, b: int|
                0 <= a < table_keys(self.entries@).len() && 0 <= b < table_keys(self.entries@).len() && a
                    != b implies table_keys(self.entries@)[a] != table_keys(self.entries@)[b] by {
                if a < before.len() && b < before.len() {
                    assert(table_keys(before)[a] != table_keys(before)[b]);
                } else if a < before.len() {
                    assert(before[a].0@ != key@);
                } else if b < before.len() {
                    assert(before[b].0@ != key@);
                }
            }
        }
    }
}

/// The next snapshot generation: one more than the current (wrapping), never 0.
pub fn next_cell_generation(cell: &mut u64) -> (n: u64)
    ensures
        n == (if *old(cell) == u64::MAX {
            1
        } else {
            (*old(cell) + 1) as u64
        }),
        *final(cell) == n,
{
    let w = cell.wrapping_add(1);
    let next = if w > 1 {
        w
    } else {
        1
    };
    *cell = next;
    next
}

// ── Engine replies ───────────────────────────────────────────────────────────

/// What the engine remembers of a tab while replies come in: the navigation
/// it expects replies for (0: any) and the newest frame generation shown.
#[derive(Debug, Clone, Copy, PartialEq, Eq, Structural)]
pub struct TabReplyState {
    pub tab_id: u64,
    pub expected_nav_id: u64,
    pub latest_frame_gen: u64,
}

/// A reply from the thread that drives the web views, tagged with the tab and
/// navigation it belongs to.
#[derive(Debug, Clone, PartialEq)]
pub enum EngineReply {
    /// A snapshot of a tab (its pixels go to the frame cache of whoever owns
    /// it).
    FrameReady { tab_id: u64, nav_id: u64, gen: u64, reason: String, title: String, url: String },
    TitleChanged { tab_id: u64, nav_id: u64, title: String },
    UrlChanged { tab_id: u64, nav_id: u64, url: String },
    ContentHeight { tab_id: u64, nav_id: u64, h: u32 },
    LoadFailed { tab_id: u64, nav_id: u64, reason: String },
    NavState { tab_id: u64, can_back: bool, can_forward: bool },
    FindMatchCount { tab_id: u64, count: u32 },
    DownloadStarted { id: u64, filename: String, path: String },
    /// Progress in thousandths of the whole download.
    DownloadProgress { id: u64, received: u64, per_mille: u32 },
    DownloadFinished { id: u64, path: String },
    DownloadFailed { id: u64, reason: String },
    PermissionPrompt { id: u64, tab_id: u64, nav_id: u64, origin: String, kind: PermissionKind },
    PermissionResolved { tab_id: u64, id: u64 },
    SitePermissions {
        origin: String,
        decisions: Vec<(PermissionKind, PermissionDecision)>,
        adblock_enabled: bool,
        adblock_allowlisted: bool,
        blocked_count: u64,
    },
    CursorChanged { tab_id: u64, cursor: CursorKind },
    TabSuspended { tab_id: u64 },
    TabWaking { tab_id: u64 },
}

/// Position of the first state at or after `i` for tab `id`.
pub open spec fn reply_pos_from(tabs: Seq<TabReplyState>, id: u64, i: int) -> Option<int>
    decreases tabs.len() - i,
{
    if i < 0 || i >= tabs.len() {
        None
    } else if tabs[i].tab_id == id {
        Some(i)
    } else {
        reply_pos_from(tabs, id, i + 1)
    }
}

pub open spec fn reply_pos(tabs: Seq<TabReplyState>, id: u64) -> Option<int> {
    reply_pos_from(tabs, id, 0)
}

/// The navigation replies for tab `id` must belong to (0: any).
pub open spec fn expected_nav(tabs: Seq<TabReplyState>, id: u64) -> u64 {
    match reply_pos(tabs, id) {
        Some(p) => tabs[p].expected_nav_id,
        None => 0,
    }
}

/// A reply from another navigation than the one expected; a reply or an
/// expectation of navigation 0 is never stale.
pub open spec fn stale(nav_id: u64, expected: u64) -> bool {
    nav_id != 0 && expected != 0 && nav_id != expected
}

/// The states with one for tab `id` added when there is none.
pub open spec fn with_entry(tabs: Seq<TabReplyState>, id: u64) -> Seq<TabReplyState> {
    if reply_pos(tabs, id) is Some {
        tabs
    } else {
        tabs.push(TabReplyState { tab_id: id, expected_nav_id: 0, latest_frame_gen: 0 })
    }
}

/// A reply that is kept unless stale, recording tab `id` as known.
pub open spec fn filtered(
    tabs: Seq<TabReplyState>,
    id: u64,
    nav_id: u64,
    ev: EngineEvent,
) -> (Seq<(u64, EngineEvent)>, Seq<TabReplyState>) {
    if stale(nav_id, expected_nav(tabs, id)) {
        (seq![], with_entry(tabs, id))
    } else {
        (seq![(id, ev)], with_entry(tabs, id))
    }
}

/// The events one reply gives, and the tab states after it. A frame is kept
/// only for a known tab, from the expected navigation and no older than the
/// newest frame shown; it gives the page's title and URL, a completed load
/// and the frame. Title, URL, height and failure replies of another
/// navigation are dropped. Download and site replies concern no tab (0); a
/// waking tab starts loading; a suspended tab gives nothing.
pub open spec fn reply_step(tabs: Seq<TabReplyState>, r: EngineReply) -> (
    Seq<(u64, EngineEvent)>,
    Seq<TabReplyState>,
) {
    match r {
        EngineReply::FrameReady { tab_id, nav_id, gen, reason, title, url } => match reply_pos(
            tabs,
            tab_id,
        ) {
            None => (seq![], tabs),
            Some(p) => if stale(nav_id, tabs[p].expected_nav_id) || gen < tabs[p].latest_frame_gen {
                (seq![], tabs)
            } else {
                (
                    seq![
                        (tab_id, EngineEvent::TitleChanged(title)),
                        (tab_id, EngineEvent::UrlChanged(url)),
                        (tab_id, EngineEvent::LoadComplete),
                        (tab_id, EngineEvent::FrameReady { reason }),
                    ],
                    tabs.update(p, TabReplyState { latest_frame_gen: gen, ..tabs[p] }),
                )
            },
        },
        EngineReply::TitleChanged { tab_id, nav_id, title } => filtered(
            tabs,
            tab_id,
            nav_id,
            EngineEvent::TitleChanged(title),
        ),
        EngineReply::UrlChanged { tab_id, nav_id, url } => filtered(
            tabs,
            tab_id,
            nav_id,
            EngineEvent::UrlChanged(url),
        ),
        EngineReply::ContentHeight { tab_id, nav_id, h } => filtered(
            tabs,
            tab_id,
            nav_id,
            EngineEvent::ContentHeightChanged(h),
        ),
        EngineReply::LoadFailed { tab_id, nav_id, reason } => filtered(
            tabs,
            tab_id,
            nav_id,
            EngineEvent::LoadFailed(reason),
        ),
        EngineReply::NavState { tab_id, can_back, can_forward } => (
            seq![(tab_id, EngineEvent::NavStateChanged { can_back, can_forward })],
            with_entry(tabs, tab_id),
        ),
        EngineReply::FindMatchCount { tab_id, count } => (
            seq![(tab_id, EngineEvent::FindMatchCount(count))],
            tabs,
        ),
        EngineReply::DownloadStarted { id, filename, path } => (
            seq![(0u64, EngineEvent::DownloadStarted { id, filename, path })],
            tabs,
        ),
        EngineReply::DownloadProgress { id, received, per_mille } => (
            seq![(0u64, EngineEvent::DownloadProgress { id, received, per_mille })],
            tabs,
        ),
        EngineReply::DownloadFinished { id, path } => (
            seq![(0u64, EngineEvent::DownloadFinished { id, path })],
            tabs,
        ),
        EngineReply::DownloadFailed { id, reason } => (
            seq![(0u64, EngineEvent::DownloadFailed { id, reason })],
            tabs,
        ),
        EngineReply::PermissionPrompt { id, tab_id, nav_id, origin, kind } => (
            seq![(tab_id, EngineEvent::PermissionPrompt { id, origin, kind, nav_id })],
            tabs,
        ),
        EngineReply::PermissionResolved { tab_id, id } => (
            seq![(tab_id, EngineEvent::PermissionResolved { id })],
            tabs,
        ),
        EngineReply::SitePermissions {
            origin,
            decisions,
            adblock_enabled,
            adblock_allowlisted,
            blocked_count,
        } => (
            seq![
                (
                    0u64,
                    EngineEvent::SitePermissions {
                        origin,
                        decisions,
                        adblock_enabled,
                        adblock_allowlisted,
                        blocked_count,
                    },
                ),
            ],
            tabs,
        ),
        EngineReply::CursorChanged { tab_id, cursor } => (
            seq![(tab_id, EngineEvent::CursorChanged(cursor))],
            tabs,
        ),
        EngineReply::TabSuspended { .. } => (seq![], tabs),
        EngineReply::TabWaking { tab_id } => (seq![(tab_id, EngineEvent::LoadStarted)], tabs),
    }
}

/// The events a queue of replies gives, in queue order, and the tab states
/// after them.
pub open spec fn spec_accept(tabs: Seq<TabReplyState>, replies: Seq<EngineReply>) -> (
    Seq<(u64, EngineEvent)>,
    Seq<TabReplyState>,
)
    decreases replies.len(),
{
    if replies.len() == 0 {
        (seq![], tabs)
    } else {
        let (ev, next) = reply_step(tabs, replies[0]);
        let (rest, last) = spec_accept(next, replies.drop_first());
        (ev + rest, last)
    }
}

fn reply_pos_exec(tabs: &Vec<TabReplyState>, id: u64) -> (r: Option<usize>)
    ensures
        match r {
            Some(p) => reply_pos(tabs@, id) == Some(p as int) && p < tabs@.len(),
            None => reply_pos(tabs@, id) is None,
        },
{
    let mut i: usize = 0;
    while i < tabs.len()
        invariant
            i <= tabs@.len(),
            reply_pos(tabs@, id) == reply_pos_from(tabs@, id, i as int),
        decreases tabs.len() - i,
    {
        if tabs[i].tab_id == id {
            return Some(i);
        }
        i = i + 1;
    }
    None
}

fn filter_reply(tabs: &mut Vec<TabReplyState>, id: u64, nav_id: u64, ev: EngineEvent) -> (r: Vec<
    (u64, EngineEvent),
>)
    ensures
        (r@, final(tabs)@) == filtered(old(tabs)@, id, nav_id, ev),
{
    let expected = match reply_pos_exec(tabs, id) {
        Some(p) => tabs[p].expected_nav_id,
        None => {
            tabs.push(TabReplyState { tab_id: id, expected_nav_id: 0, latest_frame_gen: 0 });
            0
        },
    };
    if nav_id != 0 && expected != 0 && nav_id != expected {
        Vec::new()
    } else {
        vec![(id, ev)]
    }
}

fn accept_reply(tabs: &mut Vec<TabReplyState>, r: EngineReply) -> (ev: Vec<(u64, EngineEvent)>)
    ensures
        (ev@, final(tabs)@) == reply_step(old(tabs)@, r),
{
    match r {
        EngineReply::FrameReady { tab_id, nav_id, gen, reason, title, url } => {
            match reply_pos_exec(tabs, tab_id) {
                None => Vec::new(),
                Some(p) => {
                    let st = tabs[p];
                    if (nav_id != 0 && st.expected_nav_id != 0 && nav_id != st.expected_nav_id)
                        || gen < st.latest_frame_gen {
                        Vec::new()
                    } else {
                        tabs.set(p, TabReplyState { latest_frame_gen: gen, ..st });
                        let ev = vec![
                            (tab_id, EngineEvent::TitleChanged(title)),
                            (tab_id, EngineEvent::UrlChanged(url)),
                            (tab_id, EngineEvent::LoadComplete),
                            (tab_id, EngineEvent::FrameReady { reason }),
                        ];
                        ev
                    }
                },
            }
        },
        EngineReply::TitleChanged { tab_id, nav_id, title } => filter_reply(
            tabs,
            tab_id,
            nav_id,
            EngineEvent::TitleChanged(title),
        ),
        EngineReply::UrlChanged { tab_id, nav_id, url } => filter_reply(
            tabs,
            tab_id,
            nav_id,
            EngineEvent::UrlChanged(url),
        ),
        EngineReply::ContentHeight { tab_id, nav_id, h } => filter_reply(
            tabs,
            tab_id,
            nav_id,
            EngineEvent::ContentHeightChanged(h),
        ),
        EngineReply::LoadFailed { tab_id, nav_id, reason } => filter_reply(
            tabs,
            tab_id,
            nav_id,
            EngineEvent::LoadFailed(reason),
        ),
        EngineReply::NavState { tab_id, can_back, can_forward } => {
            if reply_pos_exec(tabs, tab_id).is_none() {
                tabs.push(TabReplyState { tab_id, expected_nav_id: 0, latest_frame_gen: 0 });
            }
            vec![(tab_id, EngineEvent::NavStateChanged { can_back, can_forward })]
        },
        EngineReply::FindMatchCount { tab_id, count } => vec![
            (tab_id, EngineEvent::FindMatchCount(count)),
        ],
        EngineReply::DownloadStarted { id, filename, path } => vec![
            (0u64, EngineEvent::DownloadStarted { id, filename, path }),
        ],
        EngineReply::DownloadProgress { id, received, per_mille } => vec![
            (0u64, EngineEvent::DownloadProgress { id, received, per_mille }),
        ],
        EngineReply::DownloadFinished { id, path } => vec![
            (0u64, EngineEvent::DownloadFinished { id, path }),
        ],
        EngineReply::DownloadFailed { id, reason } => vec![
            (0u64, EngineEvent::DownloadFailed { id, reason }),
        ],
        EngineReply::PermissionPrompt { id, tab_id, nav_id, origin, kind } => vec![
            (tab_id, EngineEvent::PermissionPrompt { id, origin, kind, nav_id }),
        ],
        EngineReply::PermissionResolved { tab_id, id } => vec![
            (tab_id, EngineEvent::PermissionResolved { id }),
        ],
        EngineReply::SitePermissions {
            origin,
            decisions,
            adblock_enabled,
            adblock_allowlisted,
            blocked_count,
        } => vec![
            (
                0u64,
                EngineEvent::SitePermissions {
                    origin,
                    decisions,
                    adblock_enabled,
                    adblock_allowlisted,
                    blocked_count,
                },
            ),
        ],
        EngineReply::CursorChanged { tab_id, cursor } => vec![
            (tab_id, EngineEvent::CursorChanged(cursor)),
        ],
        EngineReply::TabSuspended { .. } => Vec::new(),
        EngineReply::TabWaking { tab_id } => vec![(tab_id, EngineEvent::LoadStarted)],
    }
}

/// Turns the queued replies into engine events, in queue order, as
/// `spec_accept` says: stale replies are dropped before they become events,
/// and `tabs` records the frames shown and the tabs heard from.
pub fn accept_replies(tabs: &mut Vec<TabReplyState>, replies: Vec<EngineReply>) -> (ev: Vec<
    (u64, EngineEvent),
>)
    ensures
        (ev@, final(tabs)@) == spec_accept(old(tabs)@, replies@),
{
    let ghost t0 = tabs@;
    let ghost all = replies@;
    let mut rest = replies;
    let mut out: Vec<(u64, EngineEvent)> = Vec::new();
    while rest.len() > 0
        invariant
            spec_accept(t0, all) == (out@ + spec_accept(tabs@, rest@).0, spec_accept(
                tabs@,
                rest@,
            ).1),
        decreases rest.len(),
    {
        let ghost before = rest@;
        let ghost t_before = tabs@;
        let r = rest.remove(0);
        assert(rest@ =~= before.drop_first());
        let mut ev = accept_reply(tabs, r);
        let ghost evs = ev@;
        out.append(&mut ev);
        proof {
            let tail = spec_accept(tabs@, rest@);
            assert(spec_accept(t_before, before) == (evs + tail.0, tail.1));
            assert(out@ + tail.0 =~= (out@.subrange(0, out@.len() - evs.len())) + (evs + tail.0));
        }
    }
    assert(out@ + seq![] =~= out@);
    out
}

/// The tab and navigation a reply is tagged with, for the replies that carry
/// a navigation.
pub open spec fn reply_nav(r: EngineReply) -> Option<(u64, u64)> {
    match r {
        EngineReply::FrameReady { tab_id, nav_id, .. } => Some((tab_id, nav_id)),
        EngineReply::TitleChanged { tab_id, nav_id, .. } => Some((tab_id, nav_id)),
        EngineReply::UrlChanged { tab_id, nav_id, .. } => Some((tab_id, nav_id)),
        EngineReply::ContentHeight { tab_id, nav_id, .. } => Some((tab_id, nav_id)),
        EngineReply::LoadFailed { tab_id, nav_id, .. } => Some((tab_id, nav_id)),
        _ => None,
    }
}

/// A reply from another navigation than the one its tab expects is dropped
/// before it becomes an event.
pub proof fn law_stale_replies_are_dropped(tabs: Seq<TabReplyState>, r: EngineReply)
    requires
        stale_reply(tabs, r),
    ensures
        reply_step(tabs, r).0.len() == 0,
{
}

/// Whether a reply carries a navigation other than the one its tab expects.
pub open spec fn stale_reply(tabs: Seq<TabReplyState>, r: EngineReply) -> bool {
    reply_nav(r) matches Some((t, n)) && stale(n, expected_nav(tabs, t))
}

/// A queue of replies that all come from navigations other than the ones
/// their tabs expect gives no event at all, and leaves the tab states as
/// they were.
pub proof fn law_stale_queue_gives_no_events(tabs: Seq<TabReplyState>, replies: Seq<EngineReply>)
    requires
        forall|i: int| 0 <= i < replies.len() ==> #[trigger] stale_reply(tabs, replies[i]),
    ensures
        spec_accept(tabs, replies).0.len() == 0,
        spec_accept(tabs, replies).1 == tabs,
    decreases replies.len(),
{
    if replies.len() > 0 {
        assert(stale_reply(tabs, replies[0]));
        let rest = replies.drop_first();
        assert forall|i: int| 0 <= i < rest.len() implies #[trigger] stale_reply(tabs, rest[i]) by {
            assert(rest[i] == replies[i + 1]);
            assert(stale_reply(tabs, replies[i + 1]));
        }
        law_stale_queue_gives_no_events(tabs, rest);
    }
}

/// The failure a navigation stopped by the ad blocker reports.
pub open spec fn blocked_navigation_text(reason: Seq<char>) -> Seq<char> {
    "Blocked by adblock ("@ + reason + ")"@
}

/// Checks a navigation of tab `tab_id` (navigation `nav_id`) from the page at
/// `current_url` to `url` against the ad blocker. A blocked navigation is
/// counted against the current page's origin as an in-process policy block
/// and comes back as the load failure to report; one that may go ahead gives
/// `None` and leaves the table as it was.
pub fn navigation_block(
    adblock: &mut AdblockEngine,
    table: &mut OriginBlockTable,
    tab_id: u64,
    nav_id: u64,
    url: &str,
    current_url: &str,
    private: bool,
) -> (r: Option<EngineReply>)
    requires
        old(adblock).wf(),
        old(adblock)@.total < u64::MAX,
        old(table).wf(),
    ensures
        final(adblock).wf(),
        final(table).wf(),
        final(adblock)@ == spec_after_request(old(adblock)@, url@, current_url@, private),
        ({
            let (blocked, reason) = spec_block_decision(
                old(adblock)@,
                url@,
                current_url@,
                private,
            );
            let why = match reason {
                Some(t) => t,
                None => "matched rule"@,
            };
            &&& !blocked ==> r is None && final(table).view_map() == old(table).view_map()
            &&& blocked ==> (r matches Some(EngineReply::LoadFailed { tab_id: t, nav_id: n, reason: m })
                && t == tab_id && n == nav_id && m@ == blocked_navigation_text(why))
            &&& blocked && current_url@.len() == 0 ==> final(table).view_map() == old(
                table,
            ).view_map()
            &&& blocked && current_url@.len() > 0 ==> ({
                let k = spec_origin_key(current_url@);
                let c = if old(table).view_map().contains_key(k) {
                    old(table).view_map()[k]
                } else {
                    zero_counts()
                };
                final(table).view_map() == old(table).view_map().insert(
                    k,
                    bumped(c, BlockSource::InProcessPolicy),
                )
            })
        }),
{
    match adblock_block_reason(adblock, url, current_url, private) {
        None => None,
        Some(reason) => {
            table.increment_origin_block_count(current_url, BlockSource::InProcessPolicy);
            let mut text = lit("Blocked by adblock (");
            extend_chars(&mut text, &chars_of(reason.as_str()));
            text.push(')');
            proof {
                reveal_strlit("Blocked by adblock (");
                reveal_strlit(")");
                assert(text@ =~= blocked_navigation_text(reason@));
            }
            Some(EngineReply::LoadFailed { tab_id, nav_id, reason: string_of(&text) })
        },
    }
}

// ── Snapshots ────────────────────────────────────────────────────────────────

/// Byte `k` of the pixel at (`row`, `col`) of a snapshot whose rows are
/// `stride` bytes apart, four bytes a pixel; a pixel past the end of the
/// data reads as opaque black.
pub open spec fn snapshot_byte(data: Seq<u8>, stride: int, row: int, col: int, k: int) -> u8 {
    let s = row * stride + col * 4;
    if s + 3 < data.len() {
        data[s + k]
    } else if k == 3 {
        255
    } else {
        0
    }
}

/// A `width`×`height` snapshot packed tight, four bytes a pixel, row after
/// row.
pub open spec fn spec_packed(data: Seq<u8>, width: int, stride: int, n: int) -> Seq<u8> {
    Seq::new(
        (n * 4) as nat,
        |j: int| snapshot_byte(data, stride, (j / 4) / width, (j / 4) % width, j % 4),
    )
}

proof fn lemma_pixel_index(q: int, w: int, row: int, col: int, k: int)
    requires
        w > 0,
        0 <= col < w,
        0 <= row,
        q == row * w + col,
        0 <= k < 4,
    ensures
        (q * 4 + k) / 4 == q,
        (q * 4 + k) % 4 == k,
        q / w == row,
        q % w == col,
{
    vstd::arithmetic::div_mod::lemma_fundamental_div_mod_converse(q * 4 + k, 4, q, k);
    vstd::arithmetic::div_mod::lemma_fundamental_div_mod_converse(q, w, row, col);
}

/// Packs a snapshot's rows (`stride` bytes apart) into `width`×`height`
/// pixels of four bytes each, as `spec_packed` says.
pub fn pack_snapshot(data: &[u8], width: u32, height: u32, stride: u32) -> (p: Vec<u8>)
    requires
        (width as int) * (height as int) * 4 <= u32::MAX,
        width > 0 && height > 0 ==> (height - 1) * (stride as int) + (width - 1) * 4 <= u32::MAX,
    ensures
        p@ == spec_packed(data@, width as int, stride as int, (width as int) * (height as int)),
{
    let mut p: Vec<u8> = Vec::new();
    let ghost w = width as int;
    let ghost n = (width as int) * (height as int);
    let mut row: u32 = 0;
    while row < height
        invariant
            row <= height,
            w == width as int,
            n == (width as int) * (height as int),
            n * 4 <= u32::MAX,
            width > 0 && height > 0 ==> (height - 1) * (stride as int) + (width - 1) * 4
                <= u32::MAX,
            p@.len() == (row as int) * w * 4,
            forall|j: int|
                0 <= j < p@.len() ==> #[trigger] p@[j] == snapshot_byte(
                    data@,
                    stride as int,
                    (j / 4) / w,
                    (j / 4) % w,
                    j % 4,
                ),
        decreases height - row,
    {
        let mut col: u32 = 0;
        while col < width
            invariant
                row < height,
                col <= width,
                w == width as int,
                n == (width as int) * (height as int),
                n * 4 <= u32::MAX,
                width > 0 && height > 0 ==> (height - 1) * (stride as int) + (width - 1) * 4
                    <= u32::MAX,
                p@.len() == ((row as int) * w + col) * 4,
                forall|j: int|
                    0 <= j < p@.len() ==> #[trigger] p@[j] == snapshot_byte(
                        data@,
                        stride as int,
                        (j / 4) / w,
                        (j / 4) % w,
                        j % 4,
                    ),
            decreases width - col,
        {
            assert((row as int) * (stride as int) <= (height - 1) * (stride as int)) by (nonlinear_arith)
                requires
                    row < height,
            ;
            let s = (row * stride + col * 4) as usize;
            let ghost q = (row as int) * w + col;
            let ghost before = p@;
            if data.len() > 3 && s < data.len() - 3 {
                p.push(data[s]);
                p.push(data[s + 1]);
                p.push(data[s + 2]);
                p.push(data[s + 3]);
            } else {
                p.push(0);
                p.push(0);
                p.push(0);
                p.push(255);
            }
            proof {
                assert forall|j: int| 0 <= j < p@.len() implies #[trigger] p@[j] == snapshot_byte(
                    data@,
                    stride as int,
                    (j / 4) / w,
                    (j / 4) % w,
                    j % 4,
                ) by {
                    if j >= before.len() {
                        let k = j - q * 4;
                        lemma_pixel_index(q, w, row as int, col as int, k);
                        assert(j == q * 4 + k);
                    } else {
                        assert(p@[j] == before[j]);
                    }
                }
            }
            col = col + 1;
        }
        assert(p@.len() == ((row + 1) as int) * w * 4) by (nonlinear_arith)
            requires
                p@.len() == ((row as int) * w + w) * 4,
        ;
        row = row + 1;
    }
    assert(p@.len() == n * 4) by (nonlinear_arith)
        requires
            p@.len() == (height as int) * w * 4,
            n == w * (height as int),
    ;
    assert(p@ =~= spec_packed(data@, w, stride as int, n));
    p
}

// ── Tab suspension ───────────────────────────────────────────────────────────

/// A live tab as the suspension policy sees it: its id, whether it has a URL
/// to come back to, and how long (in nanoseconds) it has been inactive.
#[derive(Debug, Clone, Copy, PartialEq, Eq, Structural)]
pub struct LiveTab {
    pub id: u64,
    pub has_url: bool,
    pub idle_ns: u128,
}

/// Whether a tab may be suspended: not the active one, with a URL, and idle
/// long enough (or suspension is forced).
pub open spec fn suspendable(t: LiveTab, active: u64, force: bool, after_ns: u128) -> bool {
    t.id != active && t.has_url && (force || t.idle_ns >= after_ns)
}

/// The ids of the suspendable tabs among `tabs`, in order.
pub open spec fn suspendable_ids(tabs: Seq<LiveTab>, active: u64, force: bool, after_ns: u128) -> Seq<
    u64,
>
    decreases tabs.len(),
{
    if tabs.len() == 0 {
        seq![]
    } else {
        let rest = suspendable_ids(tabs.drop_last(), active, force, after_ns);
        if suspendable(tabs.last(), active, force, after_ns) {
            rest.push(tabs.last().id)
        } else {
            rest
        }
    }
}

/// The tabs to suspend: none while suspension is disabled (unless forced) or
/// a download is running; else every suspendable tab.
pub open spec fn spec_tabs_to_suspend(
    disabled: bool,
    force: bool,
    active_downloads: u64,
    active: u64,
    tabs: Seq<LiveTab>,
    after_ns: u128,
) -> Seq<u64> {
    if (disabled && !force) || active_downloads > 0 {
        seq![]
    } else {
        suspendable_ids(tabs, active, force, after_ns)
    }
}

/// Picks the inactive tabs whose web views to free, as `spec_tabs_to_suspend`
/// says.
pub fn tabs_to_suspend(
    disabled: bool,
    force: bool,
    active_downloads: u64,
    active: u64,
    tabs: &[LiveTab],
    after_ns: u128,
) -> (r: Vec<u64>)
    ensures
        r@ == spec_tabs_to_suspend(disabled, force, active_downloads, active, tabs@, after_ns),
{
    let mut r: Vec<u64> = Vec::new();
    if disabled && !force {
        return r;
    }
    if active_downloads > 0 {
        return r;
    }
    let mut i: usize = 0;
    while i < tabs.len()
        invariant
            i <= tabs@.len(),
            r@ == suspendable_ids(tabs@.take(i as int), active, force, after_ns),
        decreases tabs.len() - i,
    {
        let t = tabs[i];
        assert(tabs@.take(i + 1).drop_last() =~= tabs@.take(i as int));
        assert(tabs@.take(i + 1).last() == t);
        if t.id != active && t.has_url && (force || t.idle_ns >= after_ns) {
            r.push(t.id);
        }
        i = i + 1;
    }
    assert(tabs@.take(i as int) =~= tabs@);
    r
}

// ── Downloads ────────────────────────────────────────────────────────────────

/// Characters a download name keeps: ASCII letters and digits and `.-_`;
/// whitespace becomes `_`; anything else is dropped.
pub open spec fn sanitize_name(s: Seq<char>) -> Seq<char>
    decreases s.len(),
{
    if s.len() == 0 {
        Seq::empty()
    } else {
        let c = s.last();
        sanitize_name(s.drop_last()) + if is_ascii_alnum(c) || c == '.' || c == '-' || c == '_' {
            seq![c]
        } else if is_ws(c) {
            seq!['_']
        } else {
            Seq::empty()
        }
    }
}

/// `s` after its last `/`.
pub open spec fn after_last_slash(s: Seq<char>) -> Seq<char> {
    match last_where(s, eq_pred('/'), s.len() as int) {
        Some(k) => s.skip(k + 1),
        None => s,
    }
}

/// A safe file name for a download: the last path segment of the suggested
/// name, trimmed and sanitised, without surrounding dots; `download` when
/// nothing is left.
pub open spec fn spec_safe_download_filename(suggested: Seq<char>) -> Seq<char> {
    let out = trim_by(sanitize_name(trim(after_last_slash(suggested))), eq_pred('.'));
    if out.len() == 0 {
        "download"@
    } else {
        out
    }
}

pub fn safe_download_filename(suggested: &str) -> (r: String)
    ensures
        r@ == spec_safe_download_filename(suggested@),
{
    let v = chars_of(suggested);
    let seg = match last_char_before(&v, '/', v.len()) {
        Some(k) => {
            proof {
                lemma_last_where_bounds(v@, eq_pred('/'), v@.len() as int);
            }
            let s = slice_of(&v, k + 1, v.len());
            assert(s@ =~= v@.skip(k + 1));
            s
        },
        None => v,
    };
    let raw = trim_exec(&seg);
    let mut out: Vec<char> = Vec::new();
    let mut i: usize = 0;
    while i < raw.len()
        invariant
            i <= raw.len(),
            out@ == sanitize_name(raw@.take(i as int)),
        decreases raw.len() - i,
    {
        let ch = raw[i];
        assert(raw@.take(i + 1).drop_last() =~= raw@.take(i as int));
        if ('a' <= ch && ch <= 'z') || ('A' <= ch && ch <= 'Z') || ('0' <= ch && ch <= '9') || ch
            == '.' || ch == '-' || ch == '_' {
            out.push(ch);
        } else if is_ws_exec(ch) {
            out.push('_');
        }
        i = i + 1;
        assert(out@ =~= sanitize_name(raw@.take(i as int)));
    }
    assert(raw@.take(raw@.len() as int) =~= raw@);
    let t = trim_char_exec(&out, '.');
    if t.len() == 0 {
        "download".to_string()
    } else {
        string_of(&t)
    }
}

/// A file name's stem and extension as `Path` splits them: no extension
/// when there is no dot, or only a leading one; else around the last dot.
/// A name of its own (not empty, `.` or `..`) is assumed.
pub open spec fn stem_and_ext(name: Seq<char>) -> (Seq<char>, Seq<char>) {
    match last_where(name, eq_pred('.'), name.len() as int) {
        Some(k) => if k == 0 {
            (name, Seq::empty())
        } else {
            (name.take(k), name.skip(k + 1))
        },
        None => (name, Seq::empty()),
    }
}

/// Candidate `idx` for a download whose name is taken: `stem (idx).ext`,
/// or `stem (idx)` without an extension; a name with no stem of its own uses
/// `download`.
pub open spec fn spec_download_candidate(filename: Seq<char>, idx: nat) -> Seq<char> {
    let named = !(filename.len() == 0 || filename == "."@ || filename == ".."@);
    let (stem0, ext) = if named {
        stem_and_ext(filename)
    } else {
        ("download"@, Seq::empty())
    };
    let stem = if stem0.len() == 0 {
        "download"@
    } else {
        stem0
    };
    if ext.len() == 0 {
        stem + " ("@ + dec(idx) + ")"@
    } else {
        stem + " ("@ + dec(idx) + ")."@ + ext
    }
}

/// The name tried for the `idx`-th alternative when a download's file name
/// is already taken (the name has no `/`).
pub fn download_candidate_name(filename: &str, idx: u64) -> (r: String)
    requires
        !crate::text::has_char(filename@, '/'),
    ensures
        r@ == spec_download_candidate(filename@, idx as nat),
{
    let v = chars_of(filename);
    let named = !(v.len() == 0 || seq_eq(&v, &lit(".")) || seq_eq(&v, &lit("..")));
    let (stem0, ext) = if named {
        match last_char_before(&v, '.', v.len()) {
            Some(k) => {
                proof {
                    lemma_last_where_bounds(v@, eq_pred('.'), v@.len() as int);
                }
                if k == 0 {
                    (v.clone(), Vec::new())
                } else {
                    let a = slice_of(&v, 0, k);
                    let b = slice_of(&v, k + 1, v.len());
                    assert(a@ =~= v@.take(k as int));
                    assert(b@ =~= v@.skip(k + 1));
                    (a, b)
                }
            },
            None => (v.clone(), Vec::new()),
        }
    } else {
        (lit("download"), Vec::new())
    };
    assert(stem0@ == (if named {
        stem_and_ext(filename@)
    } else {
        ("download"@, Seq::empty())
    }).0) by {
        if named {
            assert(v@ == filename@);
        }
    }
    let stem = if stem0.len() == 0 {
        lit("download")
    } else {
        stem0
    };
    let mut out = stem;
    extend_chars(&mut out, &lit(" ("));
    extend_chars(&mut out, &dec_u64(idx));
    if ext.len() == 0 {
        extend_chars(&mut out, &lit(")"));
    } else {
        extend_chars(&mut out, &lit(")."));
        extend_chars(&mut out, &ext);
    }
    string_of(&out)
}

// ── Script literals and cursors ──────────────────────────────────────────────

/// A control character (general category Cc).
pub open spec fn is_control(c: char) -> bool {
    (c as int) <= 0x1F || (0x7F <= (c as int) <= 0x9F)
}

/// How one character is written inside a single-quoted script string.
pub open spec fn js_escape(c: char) -> Seq<char> {
    if c == '\\' {
        seq!['\\', '\\']
    } else if c == '\'' {
        seq!['\\', '\'']
    } else if c == '\n' {
        seq!['\\', 'n']
    } else if c == '\r' {
        seq!['\\', 'r']
    } else if c == '\t' {
        seq!['\\', 't']
    } else if is_control(c) {
        seq![
            '\\',
            'u',
            hex_lower(((c as nat) / 4096) % 16),
            hex_lower(((c as nat) / 256) % 16),
            hex_lower(((c as nat) / 16) % 16),
            hex_lower((c as nat) % 16),
        ]
    } else {
        seq![c]
    }
}

pub open spec fn js_escape_all(s: Seq<char>) -> Seq<char>
    decreases s.len(),
{
    if s.len() == 0 {
        Seq::empty()
    } else {
        js_escape_all(s.drop_last()) + js_escape(s.last())
    }
}

/// A single-quoted script string literal holding `s`.
pub open spec fn spec_js_string_literal(s: Seq<char>) -> Seq<char> {
    seq!['\''] + js_escape_all(s) + seq!['\'']
}

fn push_js_escaped(out: &mut Vec<char>, c: char)
    ensures
        final(out)@ == old(out)@ + js_escape(c),
{
    let v = c as u32;
    if c == '\\' {
        out.push('\\');
        out.push('\\');
    } else if c == '\'' {
        out.push('\\');
        out.push('\'');
    } else if c == '\n' {
        out.push('\\');
        out.push('n');
    } else if c == '\r' {
        out.push('\\');
        out.push('r');
    } else if c == '\t' {
        out.push('\\');
        out.push('t');
    } else if v <= 0x1F || (0x7F <= v && v <= 0x9F) {
        out.push('\\');
        out.push('u');
        out.push(crate::json::hex_lower_exec((v / 4096) % 16));
        out.push(crate::json::hex_lower_exec((v / 256) % 16));
        out.push(crate::json::hex_lower_exec((v / 16) % 16));
        out.push(crate::json::hex_lower_exec(v % 16));
    } else {
        out.push(c);
    }
    assert(out@ =~= old(out)@ + js_escape(c));
}

/// A single-quoted script string literal holding `value`.
pub fn js_string_literal(value: &str) -> (r: String)
    ensures
        r@ == spec_js_string_literal(value@),
{
    let v = chars_of(value);
    let mut out = vec!['\''];
    let mut i: usize = 0;
    while i < v.len()
        invariant
            i <= v.len(),
            out@ == seq!['\''] + js_escape_all(v@.take(i as int)),
        decreases v.len() - i,
    {
        push_js_escaped(&mut out, v[i]);
        i = i + 1;
        assert(v@.take(i as int).drop_last() =~= v@.take(i - 1));
        assert(out@ =~= seq!['\''] + js_escape_all(v@.take(i as int)));
    }
    out.push('\'');
    assert(v@.take(v@.len() as int) =~= v@);
    assert(out@ =~= spec_js_string_literal(value@));
    string_of(&out)
}

/// The cursor a page's computed `cursor` style names (quotes removed).
pub open spec fn spec_cursor_from_js(value: Seq<char>) -> CursorKind {
    let v = trim_by(trim_by(value, eq_pred('"')), eq_pred('\''));
    if v == "pointer"@ {
        CursorKind::Pointer
    } else if v == "text"@ {
        CursorKind::Text
    } else if v == "wait"@ {
        CursorKind::Wait
    } else {
        CursorKind::Default
    }
}

pub fn cursor_from_js(value: &str) -> (k: CursorKind)
    ensures
        k == spec_cursor_from_js(value@),
{
    let v = trim_char_exec(&trim_char_exec(&chars_of(value), '"'), '\'');
    if seq_eq(&v, &lit("pointer")) {
        CursorKind::Pointer
    } else if seq_eq(&v, &lit("text")) {
        CursorKind::Text
    } else if seq_eq(&v, &lit("wait")) {
        CursorKind::Wait
    } else {
        CursorKind::Default
    }
}

// ── The stub engine ──────────────────────────────────────────────────────────

/// A page title from a URL: scheme and `www.` prefixes stripped (each as
/// often as it repeats), up to the first `/`.
pub fn derive_title(url: &str) -> (t: String)
    ensures
        t@ == crate::ui_state::spec_title_host(url@),
{
    if url.is_empty() {
        proof {
            assert(crate::text::strip_prefix_rep(url@, "https://"@) == url@) by {
                reveal_strlit("https://");
            }
            assert(crate::text::strip_prefix_rep(url@, "http://"@) == url@) by {
                reveal_strlit("http://");
            }
            assert(crate::text::strip_prefix_rep(url@, "www."@) == url@) by {
                reveal_strlit("www.");
            }
        }
        return String::new();
    }
    crate::ui_state::derive_title(url).to_string()
}

/// Paints rows `y..y+h` of the content area white.
pub fn fill_content_bg(fb: &mut Framebuffer, y: u32, h: u32)
    requires
        old(fb).wf(),
    ensures
        final(fb).wf(),
        final(fb).width == old(fb).width,
        final(fb).height == old(fb).height,
        final(fb).stride == old(fb).stride,
        painted(
            old(fb).data@,
            final(fb).data@,
            old(fb).stride as int,
            old(fb).height as int,
            0,
            old(fb).width as int,
            min(y as int, old(fb).height as int),
            min(y + h, old(fb).height as int),
            Pixel::white_spec(),
        ),
{
    let w = fb.width;
    fb.fill_rect(0, y, w, h, Pixel::white());
}

} // verus!
