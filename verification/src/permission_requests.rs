//! How the engine answers a page's request for a powerful feature: from the
//! stored decision, or by asking the user through a prompt, of which at most
//! one is pending at a time.
use vstd::prelude::*;

use crate::permissions::{PermissionDecision, PermissionKind, PermissionStore};

verus! {

broadcast use vstd::string::group_string_axioms;

/// What a page asks for.
#[derive(Debug, Clone, Copy, PartialEq, Eq, Structural)]
pub enum PermissionRequestKind {
    Notification,
    Geolocation,
    /// Camera and/or microphone.
    UserMedia { video: bool, audio: bool },
    /// Anything else.
    Unsupported,
}

/// The answer to a request: grant it, refuse it, or ask about `kind`.
#[derive(Debug, Clone, Copy, PartialEq, Eq, Structural)]
pub enum RequestVerdict {
    Allow,
    Deny,
    Ask(PermissionKind),
}

/// The stored decision for `origin` and `kind` (`Ask` when there is none).
pub open spec fn stored_decision(
    store: PermissionStore,
    origin: Seq<char>,
    kind: PermissionKind,
    private: bool,
) -> PermissionDecision {
    let m = if private {
        store.session_map()
    } else {
        store.persisted_map()
    };
    if m.contains_key((origin, kind)) {
        m[(origin, kind)]
    } else {
        PermissionDecision::Ask
    }
}

pub open spec fn single_verdict(d: PermissionDecision, kind: PermissionKind) -> RequestVerdict {
    match d {
        PermissionDecision::Allow => RequestVerdict::Allow,
        PermissionDecision::Deny => RequestVerdict::Deny,
        PermissionDecision::Ask => RequestVerdict::Ask(kind),
    }
}

/// The verdict for a request from a page at `origin` (`None` when the page
/// has no origin): requests without an origin, unsupported ones and media
/// requests for no device are refused; a media request asks about the first
/// device (camera, then microphone) with no stored decision, and is granted
/// only when every device it names is allowed.
pub open spec fn spec_request_verdict(
    store: PermissionStore,
    origin: Option<Seq<char>>,
    request: PermissionRequestKind,
    private: bool,
) -> RequestVerdict {
    match origin {
        None => RequestVerdict::Deny,
        Some(o) => match request {
            PermissionRequestKind::Notification => single_verdict(
                stored_decision(store, o, PermissionKind::Notifications, private),
                PermissionKind::Notifications,
            ),
            PermissionRequestKind::Geolocation => single_verdict(
                stored_decision(store, o, PermissionKind::Geolocation, private),
                PermissionKind::Geolocation,
            ),
            PermissionRequestKind::UserMedia { video, audio } => {
                let cam = stored_decision(store, o, PermissionKind::Camera, private);
                let mic = stored_decision(store, o, PermissionKind::Microphone, private);
                if !video && !audio {
                    RequestVerdict::Deny
                } else if video && cam == PermissionDecision::Ask {
                    RequestVerdict::Ask(PermissionKind::Camera)
                } else if audio && mic == PermissionDecision::Ask {
                    RequestVerdict::Ask(PermissionKind::Microphone)
                } else if (!video || cam == PermissionDecision::Allow) && (!audio || mic
                    == PermissionDecision::Allow) {
                    RequestVerdict::Allow
                } else {
                    RequestVerdict::Deny
                }
            },
            PermissionRequestKind::Unsupported => RequestVerdict::Deny,
        },
    }
}

fn decision_of(store: &PermissionStore, origin: &str, kind: PermissionKind, private: bool) -> (d:
    PermissionDecision)
    requires
        store.wf(),
    ensures
        d == stored_decision(*store, origin@, kind, private),
{
    store.get(origin, kind, private).0
}

/// Answers a permission request from the stored decisions.
pub fn request_verdict(
    store: &PermissionStore,
    origin: Option<&str>,
    request: PermissionRequestKind,
    private: bool,
) -> (v: RequestVerdict)
    requires
        store.wf(),
    ensures
        v == spec_request_verdict(
            *store,
            match origin {
                Some(o) => Some(o@),
                None => None,
            },
            request,
            private,
        ),
{
    let o = match origin {
        Some(o) => o,
        None => return RequestVerdict::Deny,
    };
    match request {
        PermissionRequestKind::Notification => {
            match decision_of(store, o, PermissionKind::Notifications, private) {
                PermissionDecision::Allow => RequestVerdict::Allow,
                PermissionDecision::Deny => RequestVerdict::Deny,
                PermissionDecision::Ask => RequestVerdict::Ask(PermissionKind::Notifications),
            }
        },
        PermissionRequestKind::Geolocation => {
            match decision_of(store, o, PermissionKind::Geolocation, private) {
                PermissionDecision::Allow => RequestVerdict::Allow,
                PermissionDecision::Deny => RequestVerdict::Deny,
                PermissionDecision::Ask => RequestVerdict::Ask(PermissionKind::Geolocation),
            }
        },
        PermissionRequestKind::UserMedia { video, audio } => {
            if !video && !audio {
                return RequestVerdict::Deny;
            }
            let mut all_allowed = true;
            if video {
                let d = decision_of(store, o, PermissionKind::Camera, private);
                if d == PermissionDecision::Ask {
                    return RequestVerdict::Ask(PermissionKind::Camera);
                }
                all_allowed = all_allowed && d == PermissionDecision::Allow;
            }
            if audio {
                let d = decision_of(store, o, PermissionKind::Microphone, private);
                if d == PermissionDecision::Ask {
                    return RequestVerdict::Ask(PermissionKind::Microphone);
                }
                all_allowed = all_allowed && d == PermissionDecision::Allow;
            }
            if all_allowed {
                RequestVerdict::Allow
            } else {
                RequestVerdict::Deny
            }
        },
        PermissionRequestKind::Unsupported => RequestVerdict::Deny,
    }
}

// ── Prompts ──────────────────────────────────────────────────────────────────

/// A prompt waiting for the user's answer.
#[derive(Debug, Clone)]
pub struct PendingPrompt {
    pub id: u64,
    pub tab_id: u64,
    pub nav_id: u64,
    pub origin: String,
    pub kind: PermissionKind,
    pub private: bool,
}

/// A prompt that is no longer pending: the request it stood for is granted
/// or refused, and the tab is told that prompt `id` is settled.
#[derive(Debug, Clone, Copy, PartialEq, Eq, Structural)]
pub struct ClosedPrompt {
    pub tab_id: u64,
    pub id: u64,
    pub granted: bool,
}

/// The prompt that is pending, if any, and the last id handed out.
#[derive(Debug, Clone)]
pub struct PromptQueue {
    pub pending: Option<PendingPrompt>,
    pub seq: u64,
}

/// The id after `seq`: one more, wrapping past the largest to 1 (never 0).
pub open spec fn next_prompt_id(seq: u64) -> u64 {
    if seq == u64::MAX {
        1
    } else {
        (seq + 1) as u64
    }
}

/// A prompt refused without an answer (replaced, or its tab went away).
pub open spec fn refused(p: PendingPrompt) -> ClosedPrompt {
    ClosedPrompt { tab_id: p.tab_id, id: p.id, granted: false }
}

/// The current navigation of `tab_id` in `tabs`, a list of (tab, navigation)
/// pairs, taken from the first pair of that tab.
pub open spec fn tab_nav_from(tabs: Seq<(u64, u64)>, tab_id: u64, i: int) -> Option<u64>
    decreases tabs.len() - i,
{
    if i < 0 || i >= tabs.len() {
        None
    } else if tabs[i].0 == tab_id {
        Some(tabs[i].1)
    } else {
        tab_nav_from(tabs, tab_id, i + 1)
    }
}

pub open spec fn tab_nav(tabs: Seq<(u64, u64)>, tab_id: u64) -> Option<u64> {
    tab_nav_from(tabs, tab_id, 0)
}

/// The decision an answer records.
pub open spec fn answer_decision(allow: bool) -> PermissionDecision {
    if allow {
        PermissionDecision::Allow
    } else {
        PermissionDecision::Deny
    }
}

/// How the store changes when `p` is answered: an answer given while the
/// prompt's page is still the one that asked is recorded when the user asks
/// to remember it or the context is private; otherwise nothing changes.
pub open spec fn answer_recorded(
    s0: PermissionStore,
    s1: PermissionStore,
    origin: Seq<char>,
    kind: PermissionKind,
    private: bool,
    allow: bool,
    remember: bool,
    nav_current: bool,
) -> bool {
    if nav_current && (remember || private) {
        let d = answer_decision(allow);
        &&& s1.wf()
        &&& private ==> s1.session_map() == s0.session_map().insert((origin, kind), d)
            && s1.persisted_map() == s0.persisted_map()
        &&& !private ==> s1.persisted_map() == s0.persisted_map().insert((origin, kind), d)
            && s1.session_map() == s0.session_map()
    } else {
        s1 == s0
    }
}

fn find_tab_nav(tabs: &[(u64, u64)], tab_id: u64) -> (r: Option<u64>)
    ensures
        r == tab_nav(tabs@, tab_id),
{
    let mut i: usize = 0;
    while i < tabs.len()
        invariant
            i <= tabs@.len(),
            tab_nav(tabs@, tab_id) == tab_nav_from(tabs@, tab_id, i as int),
        decreases tabs.len() - i,
    {
        if tabs[i].0 == tab_id {
            return Some(tabs[i].1);
        }
        i = i + 1;
    }
    None
}

impl PromptQueue {
    /// No prompt pending, no id handed out yet.
    pub fn new() -> (q: Self)
        ensures
            q.pending.is_none(),
            q.seq == 0,
    {
        PromptQueue { pending: None, seq: 0 }
    }

    /// Puts up a prompt for `kind` at `origin`, asked by navigation `nav_id`
    /// of tab `tab_id`, under the next id. A prompt already pending is
    /// refused and handed back.
    pub fn queue(
        &mut self,
        tab_id: u64,
        nav_id: u64,
        origin: String,
        kind: PermissionKind,
        private: bool,
    ) -> (replaced: Option<ClosedPrompt>)
        ensures
            final(self).seq == next_prompt_id(old(self).seq),
            final(self).seq >= 1,
            final(self).pending matches Some(p) && p.id == final(self).seq && p.tab_id == tab_id
                && p.nav_id == nav_id && p.origin@ == origin@ && p.kind == kind && p.private
                == private,
            replaced == match old(self).pending {
                Some(p) => Some(refused(p)),
                None => None,
            },
    {
        let replaced = match &self.pending {
            Some(p) => Some(ClosedPrompt { tab_id: p.tab_id, id: p.id, granted: false }),
            None => None,
        };
        let id = if self.seq == u64::MAX {
            1
        } else {
            self.seq + 1
        };
        self.seq = id;
        self.pending = Some(PendingPrompt { id, tab_id, nav_id, origin, kind, private });
        replaced
    }

    /// Applies the user's answer to prompt `id`. Nothing happens when no
    /// prompt or another one is pending. Otherwise the prompt closes: it is
    /// refused when its tab has moved on from the navigation that asked
    /// (`tabs` gives each tab's current navigation), else it is granted when
    /// `allow`, and the answer is recorded in `store` as `answer_recorded`
    /// says.
    pub fn resolve(
        &mut self,
        store: &mut PermissionStore,
        tabs: &[(u64, u64)],
        id: u64,
        allow: bool,
        remember: bool,
    ) -> (r: Option<ClosedPrompt>)
        requires
            old(store).wf(),
        ensures
            final(store).wf(),
            final(self).seq == old(self).seq,
            match old(self).pending {
                Some(p) if p.id == id => {
                    let nav_current = tab_nav(tabs@, p.tab_id) == Some(p.nav_id);
                    &&& final(self).pending.is_none()
                    &&& r == Some(
                        ClosedPrompt { tab_id: p.tab_id, id: p.id, granted: nav_current && allow },
                    )
                    &&& answer_recorded(
                        *old(store),
                        *final(store),
                        p.origin@,
                        p.kind,
                        p.private,
                        allow,
                        remember,
                        nav_current,
                    )
                },
                _ => r.is_none() && final(self).pending == old(self).pending && *final(store)
                    == *old(store),
            },
    {
        let matches = match &self.pending {
            Some(p) => p.id == id,
            None => false,
        };
        if !matches {
            return None;
        }
        let p = match self.pending.take() {
            Some(p) => p,
            None => return None,
        };
        let nav_current = match find_tab_nav(tabs, p.tab_id) {
            Some(n) => n == p.nav_id,
            None => false,
        };
        if nav_current && (remember || p.private) {
            let d = if allow {
                PermissionDecision::Allow
            } else {
                PermissionDecision::Deny
            };
            store.set(p.origin.as_str(), p.kind, d, p.private);
        }
        Some(ClosedPrompt { tab_id: p.tab_id, id: p.id, granted: nav_current && allow })
    }

    /// Refuses the pending prompt when it belongs to tab `tab_id` (the tab
    /// navigated away or closed).
    pub fn deny_for_tab(&mut self, tab_id: u64) -> (r: Option<ClosedPrompt>)
        ensures
            final(self).seq == old(self).seq,
            match old(self).pending {
                Some(p) if p.tab_id == tab_id => final(self).pending.is_none() && r == Some(
                    refused(p),
                ),
                _ => r.is_none() && final(self).pending == old(self).pending,
            },
    {
        let should = match &self.pending {
            Some(p) => p.tab_id == tab_id,
            None => false,
        };
        if !should {
            return None;
        }
        match self.pending.take() {
            Some(p) => Some(ClosedPrompt { tab_id: p.tab_id, id: p.id, granted: false }),
            None => None,
        }
    }
}

// ── Laws ─────────────────────────────────────────────────────────────────────

/// The request a page makes for a single permission kind.
pub open spec fn request_for(kind: PermissionKind) -> PermissionRequestKind {
    match kind {
        PermissionKind::Notifications => PermissionRequestKind::Notification,
        PermissionKind::Geolocation => PermissionRequestKind::Geolocation,
        PermissionKind::Camera => PermissionRequestKind::UserMedia { video: true, audio: false },
        PermissionKind::Microphone => PermissionRequestKind::UserMedia { video: false, audio: true },
        PermissionKind::Clipboard => PermissionRequestKind::Unsupported,
    }
}

/// An answer given to a prompt while its page is current, and remembered (or
/// given in a private context), answers the same request from the same origin
/// in that context from then on: no new prompt is put up.
pub proof fn law_remembered_answer_is_reused(
    s0: PermissionStore,
    s1: PermissionStore,
    origin: Seq<char>,
    kind: PermissionKind,
    private: bool,
    allow: bool,
    remember: bool,
)
    requires
        s0.wf(),
        kind != PermissionKind::Clipboard,
        remember || private,
        answer_recorded(s0, s1, origin, kind, private, allow, remember, true),
    ensures
        spec_request_verdict(s1, Some(origin), request_for(kind), private) == if allow {
            RequestVerdict::Allow
        } else {
            RequestVerdict::Deny
        },
{
    let d = answer_decision(allow);
    if private {
        assert(s1.session_map().contains_key((origin, kind)));
        assert(s1.session_map()[(origin, kind)] == d);
    } else {
        assert(s1.persisted_map().contains_key((origin, kind)));
        assert(s1.persisted_map()[(origin, kind)] == d);
    }
    assert(stored_decision(s1, origin, kind, private) == d);
}

/// An answer that is not remembered, in a normal context, changes nothing: the
/// same request is answered afterwards as it was before (by a new prompt when
/// nothing was stored).
pub proof fn law_unremembered_answer_is_forgotten(
    s0: PermissionStore,
    s1: PermissionStore,
    origin: Seq<char>,
    kind: PermissionKind,
    allow: bool,
    nav_current: bool,
    request_origin: Option<Seq<char>>,
    request: PermissionRequestKind,
)
    requires
        answer_recorded(s0, s1, origin, kind, false, allow, false, nav_current),
    ensures
        spec_request_verdict(s1, request_origin, request, false) == spec_request_verdict(
            s0,
            request_origin,
            request,
            false,
        ),
{
}

} // verus!
