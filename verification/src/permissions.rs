//! Minimal site-scoped permission model: per-origin decisions for a few
//! powerful web features, persisted for normal browsing and kept in memory
//! only for private browsing.
use vstd::prelude::*;

use crate::json::{
    hex_lower, json_escape, json_escape_char, json_str_chars, lemma_json_escape_concat, lemma_json_escape_front,
    simply_escaped, spec_json_str, unescape_char,
};
use crate::text::{
    chars_of, eq_pred, extend_chars, find, find_exec, first_char_from, first_where, lemma_first_where_bounds,
    lemma_lex_irrefl, lemma_lex_total, lemma_lex_trans, lemma_lex_asym, lex_less, lex_lt, lit, lower,
    last_where, occurs_at, seq_eq, slice_of, string_of, to_lower, trim, trim_by, trim_exec, trim_start_by,
    trim_start_exec, ws_pred,
};

verus! {

broadcast use vstd::string::group_string_axioms;

// ── Permission kinds and decisions ───────────────────────────────────────────

#[derive(Debug, Clone, Copy, PartialEq, Eq, Hash, Structural)]
pub enum PermissionKind {
    Notifications,
    Clipboard,
    Geolocation,
    Camera,
    Microphone,
}

/// The kind a name stands for.
pub open spec fn kind_named(s: Seq<char>) -> Option<PermissionKind> {
    if s == "notifications"@ {
        Some(PermissionKind::Notifications)
    } else if s == "clipboard"@ {
        Some(PermissionKind::Clipboard)
    } else if s == "geolocation"@ {
        Some(PermissionKind::Geolocation)
    } else if s == "camera"@ {
        Some(PermissionKind::Camera)
    } else if s == "microphone"@ {
        Some(PermissionKind::Microphone)
    } else {
        None
    }
}

impl PermissionKind {
    /// The kind's name, as stored on disk.
    pub open spec fn name(self) -> Seq<char> {
        match self {
            PermissionKind::Notifications => "notifications"@,
            PermissionKind::Clipboard => "clipboard"@,
            PermissionKind::Geolocation => "geolocation"@,
            PermissionKind::Camera => "camera"@,
            PermissionKind::Microphone => "microphone"@,
        }
    }

    pub fn as_str(self) -> (s: &'static str)
        ensures
            s@ == self.name(),
    {
        match self {
            Self::Notifications => "notifications",
            Self::Clipboard => "clipboard",
            Self::Geolocation => "geolocation",
            Self::Camera => "camera",
            Self::Microphone => "microphone",
        }
    }

    pub fn from_str(s: &str) -> (r: Option<Self>)
        ensures
            r == kind_named(s@),
    {
        let v = chars_of(s);
        if seq_eq(&v, &lit("notifications")) {
            Some(Self::Notifications)
        } else if seq_eq(&v, &lit("clipboard")) {
            Some(Self::Clipboard)
        } else if seq_eq(&v, &lit("geolocation")) {
            Some(Self::Geolocation)
        } else if seq_eq(&v, &lit("camera")) {
            Some(Self::Camera)
        } else if seq_eq(&v, &lit("microphone")) {
            Some(Self::Microphone)
        } else {
            None
        }
    }
}

/// A kind's name reads back as that kind.
pub proof fn law_kind_name_roundtrip(k: PermissionKind)
    ensures
        kind_named(k.name()) == Some(k),
{
    reveal_strlit("notifications");
    reveal_strlit("clipboard");
    reveal_strlit("geolocation");
    reveal_strlit("camera");
    reveal_strlit("microphone");
    assert("notifications"@.len() == 13);
    assert("clipboard"@.len() == 9);
    assert("geolocation"@.len() == 11);
    assert("camera"@.len() == 6);
    assert("microphone"@.len() == 10);
}

/// Different kinds have different names.
pub proof fn lemma_kind_names_differ(a: PermissionKind, b: PermissionKind)
    requires
        a != b,
    ensures
        a.name() != b.name(),
{
    law_kind_name_roundtrip(a);
    law_kind_name_roundtrip(b);
}

#[derive(Debug, Clone, Copy, PartialEq, Eq, Structural)]
pub enum PermissionDecision {
    Allow,
    Deny,
    Ask,
}

/// The decision a name stands for.
pub open spec fn decision_named(s: Seq<char>) -> Option<PermissionDecision> {
    if s == "allow"@ {
        Some(PermissionDecision::Allow)
    } else if s == "deny"@ {
        Some(PermissionDecision::Deny)
    } else if s == "ask"@ {
        Some(PermissionDecision::Ask)
    } else {
        None
    }
}

impl PermissionDecision {
    /// The decision's name, as stored on disk.
    pub open spec fn name(self) -> Seq<char> {
        match self {
            PermissionDecision::Allow => "allow"@,
            PermissionDecision::Deny => "deny"@,
            PermissionDecision::Ask => "ask"@,
        }
    }

    pub fn as_str(self) -> (s: &'static str)
        ensures
            s@ == self.name(),
    {
        match self {
            Self::Allow => "allow",
            Self::Deny => "deny",
            Self::Ask => "ask",
        }
    }

    pub fn from_str(s: &str) -> (r: Option<Self>)
        ensures
            r == decision_named(s@),
    {
        let v = chars_of(s);
        if seq_eq(&v, &lit("allow")) {
            Some(Self::Allow)
        } else if seq_eq(&v, &lit("deny")) {
            Some(Self::Deny)
        } else if seq_eq(&v, &lit("ask")) {
            Some(Self::Ask)
        } else {
            None
        }
    }
}

/// A decision's name reads back as that decision.
pub proof fn law_decision_name_roundtrip(d: PermissionDecision)
    ensures
        decision_named(d.name()) == Some(d),
{
    reveal_strlit("allow");
    reveal_strlit("deny");
    reveal_strlit("ask");
    assert("allow"@.len() == 5);
    assert("deny"@.len() == 4);
    assert("ask"@.len() == 3);
}

/// Where a decision came from.
#[derive(Debug, Clone, Copy, PartialEq, Eq, Structural)]
pub enum DecisionSource {
    Persisted,
    Session,
    Default,
}

// ── Entries ──────────────────────────────────────────────────────────────────

#[derive(Debug, Clone)]
pub struct PermissionEntry {
    pub origin: String,
    pub kind: PermissionKind,
    pub decision: PermissionDecision,
}

/// An entry as plain values.
pub struct EntryView {
    pub origin: Seq<char>,
    pub kind: PermissionKind,
    pub decision: PermissionDecision,
}

impl View for PermissionEntry {
    type V = EntryView;

    open spec fn view(&self) -> EntryView {
        EntryView { origin: self.origin@, kind: self.kind, decision: self.decision }
    }
}

pub open spec fn entry_views(es: Seq<PermissionEntry>) -> Seq<EntryView> {
    es.map_values(|e: PermissionEntry| e@)
}

/// An entry's key: the origin and the kind.
pub open spec fn key_of(e: EntryView) -> (Seq<char>, PermissionKind) {
    (e.origin, e.kind)
}

/// Keys ordered by origin, then by the kind's name.
pub open spec fn key_lt(a: (Seq<char>, PermissionKind), b: (Seq<char>, PermissionKind)) -> bool {
    lex_lt(a.0, b.0) || (a.0 == b.0 && lex_lt(a.1.name(), b.1.name()))
}

/// Strictly increasing keys (so no key occurs twice).
pub open spec fn keys_sorted(es: Seq<EntryView>) -> bool {
    forall|i: int, j: int| 0 <= i < j < es.len() ==> key_lt(key_of(#[trigger] es[i]), key_of(#[trigger] es[j]))
}

/// The decisions recorded in a list, a later entry for a key overriding an
/// earlier one.
pub open spec fn list_map(es: Seq<EntryView>) -> Map<(Seq<char>, PermissionKind), PermissionDecision>
    decreases es.len(),
{
    if es.len() == 0 {
        Map::empty()
    } else {
        list_map(es.drop_last()).insert(key_of(es.last()), es.last().decision)
    }
}

proof fn lemma_key_lt_irrefl(a: (Seq<char>, PermissionKind))
    ensures
        !key_lt(a, a),
{
    lemma_lex_irrefl(a.0);
    lemma_lex_irrefl(a.1.name());
}

proof fn lemma_key_lt_trans(
    a: (Seq<char>, PermissionKind),
    b: (Seq<char>, PermissionKind),
    c: (Seq<char>, PermissionKind),
)
    requires
        key_lt(a, b),
        key_lt(b, c),
    ensures
        key_lt(a, c),
{
    if lex_lt(a.0, b.0) && lex_lt(b.0, c.0) {
        lemma_lex_trans(a.0, b.0, c.0);
    } else if lex_lt(a.1.name(), b.1.name()) && lex_lt(b.1.name(), c.1.name()) && a.0 == b.0
        && b.0 == c.0 {
        lemma_lex_trans(a.1.name(), b.1.name(), c.1.name());
    }
}

proof fn lemma_key_lt_total(a: (Seq<char>, PermissionKind), b: (Seq<char>, PermissionKind))
    requires
        a != b,
    ensures
        key_lt(a, b) || key_lt(b, a),
{
    if a.0 != b.0 {
        lemma_lex_total(a.0, b.0);
    } else {
        lemma_kind_names_differ(a.1, b.1);
        lemma_lex_total(a.1.name(), b.1.name());
    }
}

/// In a list without repeated keys, the map holds exactly the listed keys,
/// each with its decision.
proof fn lemma_list_map(es: Seq<EntryView>)
    requires
        keys_sorted(es),
    ensures
        forall|k: (Seq<char>, PermissionKind)|
            #[trigger] list_map(es).contains_key(k) <==> exists|i: int| 0 <= i < es.len() && key_of(es[i]) == k,
        forall|i: int| 0 <= i < es.len() ==> #[trigger] list_map(es)[key_of(es[i])] == es[i].decision,
    decreases es.len(),
{
    if es.len() > 0 {
        let d = es.drop_last();
        assert(keys_sorted(d));
        lemma_list_map(d);
        assert forall|k: (Seq<char>, PermissionKind)|
            #[trigger] list_map(es).contains_key(k) <==> exists|i: int| 0 <= i < es.len() && key_of(es[i]) == k by {
            if list_map(es).contains_key(k) && k != key_of(es.last()) {
                let i = choose|i: int| 0 <= i < d.len() && key_of(d[i]) == k;
                assert(key_of(es[i]) == k);
            }
            if exists|i: int| 0 <= i < es.len() && key_of(es[i]) == k {
                let i = choose|i: int| 0 <= i < es.len() && key_of(es[i]) == k;
                if i < d.len() {
                    assert(key_of(d[i]) == k);
                }
            }
        }
        assert forall|i: int| 0 <= i < es.len() implies #[trigger] list_map(es)[key_of(es[i])] == es[i].decision by {
            if i < d.len() {
                assert(key_lt(key_of(es[i]), key_of(es[es.len() - 1])));
                lemma_key_lt_irrefl(key_of(es[i]));
                assert(d[i] == es[i]);
            }
        }
    }
}

// ── The store ────────────────────────────────────────────────────────────────

/// Per-origin permission decisions: persisted ones for normal browsing and
/// session-only ones for private browsing, each kept sorted by key.
#[derive(Debug, Clone)]
pub struct PermissionStore {
    persisted: Vec<PermissionEntry>,
    session: Vec<PermissionEntry>,
    path: String,
}

impl PermissionStore {
    /// The persisted entries, sorted by key.
    pub closed spec fn persisted_entries(&self) -> Seq<EntryView> {
        entry_views(self.persisted@)
    }

    /// The session-only entries, sorted by key.
    pub closed spec fn session_entries(&self) -> Seq<EntryView> {
        entry_views(self.session@)
    }

    /// Where the persisted decisions are saved.
    pub closed spec fn spec_path(&self) -> Seq<char> {
        self.path@
    }

    pub open spec fn persisted_map(&self) -> Map<(Seq<char>, PermissionKind), PermissionDecision> {
        list_map(self.persisted_entries())
    }

    pub open spec fn session_map(&self) -> Map<(Seq<char>, PermissionKind), PermissionDecision> {
        list_map(self.session_entries())
    }

    pub open spec fn wf(&self) -> bool {
        keys_sorted(self.persisted_entries()) && keys_sorted(self.session_entries())
    }

    /// An empty store that saves to `path`.
    pub fn new(path: String) -> (s: Self)
        ensures
            s.wf(),
            s.persisted_entries().len() == 0,
            s.session_entries().len() == 0,
            s.persisted_map() == Map::<(Seq<char>, PermissionKind), PermissionDecision>::empty(),
            s.session_map() == Map::<(Seq<char>, PermissionKind), PermissionDecision>::empty(),
            s.spec_path() == path@,
    {
        let s = Self { persisted: Vec::new(), session: Vec::new(), path };
        assert(s.persisted_entries() =~= Seq::<EntryView>::empty());
        assert(s.session_entries() =~= Seq::<EntryView>::empty());
        s
    }

    /// Where the persisted decisions are saved.
    pub fn path(&self) -> (p: &str)
        ensures
            p@ == self.spec_path(),
    {
        self.path.as_str()
    }

    /// The decision for `origin` and `kind`: from the session-only entries for
    /// a private context, else from the persisted ones; `Ask` by default.
    pub fn get(&self, origin: &str, kind: PermissionKind, private: bool) -> (r: (
        PermissionDecision,
        DecisionSource,
    ))
        requires
            self.wf(),
        ensures
            ({
                let m = if private {
                    self.session_map()
                } else {
                    self.persisted_map()
                };
                let src = if private {
                    DecisionSource::Session
                } else {
                    DecisionSource::Persisted
                };
                r == if m.contains_key((origin@, kind)) {
                    (m[(origin@, kind)], src)
                } else {
                    (PermissionDecision::Ask, DecisionSource::Default)
                }
            }),
    {
        let o = chars_of(origin);
        if private {
            match find_entry(&self.session, &o, kind) {
                Some(i) => (self.session[i].decision, DecisionSource::Session),
                None => (PermissionDecision::Ask, DecisionSource::Default),
            }
        } else {
            match find_entry(&self.persisted, &o, kind) {
                Some(i) => (self.persisted[i].decision, DecisionSource::Persisted),
                None => (PermissionDecision::Ask, DecisionSource::Default),
            }
        }
    }

    /// Records a decision: session-only for a private context, else persisted
    /// (the caller then saves `persisted_json` to `path`).
    pub fn set(&mut self, origin: &str, kind: PermissionKind, decision: PermissionDecision, private: bool)
        requires
            old(self).wf(),
        ensures
            final(self).wf(),
            final(self).spec_path() == old(self).spec_path(),
            private ==> final(self).session_map() == old(self).session_map().insert(
                (origin@, kind),
                decision,
            ) && final(self).persisted_entries() == old(self).persisted_entries(),
            !private ==> final(self).persisted_map() == old(self).persisted_map().insert(
                (origin@, kind),
                decision,
            ) && final(self).session_entries() == old(self).session_entries(),
    {
        if private {
            upsert_entry(&mut self.session, origin, kind, decision);
        } else {
            upsert_entry(&mut self.persisted, origin, kind, decision);
        }
    }

    /// The persisted entries, sorted by origin and then by permission name.
    pub fn entries(&self) -> (r: Vec<PermissionEntry>)
        requires
            self.wf(),
        ensures
            keys_sorted(entry_views(r@)),
            list_map(entry_views(r@)) == self.persisted_map(),
            entry_views(r@) == self.persisted_entries(),
    {
        let mut out: Vec<PermissionEntry> = Vec::new();
        let mut i: usize = 0;
        while i < self.persisted.len()
            invariant
                i <= self.persisted@.len(),
                entry_views(out@) == entry_views(self.persisted@).take(i as int),
            decreases self.persisted.len() - i,
        {
            let e = &self.persisted[i];
            let ghost out0 = out@;
            let ne = PermissionEntry { origin: e.origin.clone(), kind: e.kind, decision: e.decision };
            assert(ne@ == self.persisted@[i as int]@);
            out.push(ne);
            proof {
                assert(entry_views(out0).len() == out0.len());
                assert(entry_views(self.persisted@)[i as int] == self.persisted@[i as int]@);
                assert forall|j: int| 0 <= j < out@.len() implies #[trigger] entry_views(out@)[j]
                    == entry_views(self.persisted@).take(i + 1)[j] by {
                    if j < out0.len() {
                        assert(out@[j] == out0[j]);
                        assert(entry_views(out0)[j] == out0[j]@);
                        assert(entry_views(out0)[j] == entry_views(self.persisted@).take(i as int)[j]);
                    } else {
                        assert(out@[j] == ne);
                    }
                }
            }
            i = i + 1;
            assert(entry_views(out@) =~= entry_views(self.persisted@).take(i as int));
        }
        assert(entry_views(self.persisted@).take(i as int) =~= entry_views(self.persisted@));
        out
    }
}

/// Whether `a`'s key sorts before `(origin, kind)`.
fn entry_key_less(e: &PermissionEntry, origin: &Vec<char>, kind: PermissionKind) -> (b: bool)
    ensures
        b == key_lt(key_of(e@), (origin@, kind)),
{
    let eo = chars_of(e.origin.as_str());
    if lex_less(&eo, origin) {
        return true;
    }
    if !seq_eq(&eo, origin) {
        return false;
    }
    lex_less(&lit(e.kind.as_str()), &lit(kind.as_str()))
}

/// The position of the entry for `(origin, kind)`, if there is one.
fn find_entry(es: &Vec<PermissionEntry>, origin: &Vec<char>, kind: PermissionKind) -> (r: Option<usize>)
    requires
        keys_sorted(entry_views(es@)),
    ensures
        r matches Some(i) ==> i < es@.len() && key_of(es@[i as int]@) == (origin@, kind)
            && list_map(entry_views(es@)).contains_key((origin@, kind))
            && list_map(entry_views(es@))[(origin@, kind)] == es@[i as int].decision,
        r is None ==> !list_map(entry_views(es@)).contains_key((origin@, kind)),
{
    proof {
        lemma_list_map(entry_views(es@));
    }
    let mut i: usize = 0;
    while i < es.len()
        invariant
            i <= es@.len(),
            keys_sorted(entry_views(es@)),
            forall|j: int| 0 <= j < i ==> key_of(#[trigger] es@[j]@) != (origin@, kind),
        decreases es.len() - i,
    {
        if es[i].kind == kind && seq_eq(&chars_of(es[i].origin.as_str()), origin) {
            proof {
                let v = entry_views(es@);
                lemma_list_map(v);
                assert(v[i as int] == es@[i as int]@);
                assert(list_map(v)[key_of(v[i as int])] == v[i as int].decision);
                assert(list_map(v).contains_key(key_of(v[i as int])));
            }
            return Some(i);
        }
        i = i + 1;
    }
    proof {
        if list_map(entry_views(es@)).contains_key((origin@, kind)) {
            let j = choose|j: int| 0 <= j < es@.len() && key_of(entry_views(es@)[j]) == (origin@, kind);
            assert(key_of(es@[j]@) == (origin@, kind));
        }
    }
    None
}

/// The first position whose key does not sort before `(origin, kind)`.
fn insertion_point(es: &Vec<PermissionEntry>, origin: &Vec<char>, kind: PermissionKind) -> (i: usize)
    ensures
        i <= es@.len(),
        forall|j: int| 0 <= j < i ==> key_lt(key_of(#[trigger] entry_views(es@)[j]), (origin@, kind)),
        i < es@.len() ==> !key_lt(key_of(entry_views(es@)[i as int]), (origin@, kind)),
{
    let mut i: usize = 0;
    while i < es.len()
        invariant
            i <= es@.len(),
            forall|j: int| 0 <= j < i ==> key_lt(key_of(#[trigger] entry_views(es@)[j]), (origin@, kind)),
        decreases es.len() - i,
    {
        assert(entry_views(es@)[i as int] == es@[i as int]@);
        if !entry_key_less(&es[i], origin, kind) {
            return i;
        }
        i = i + 1;
    }
    i
}

/// Sets the decision for `(origin, kind)`, keeping the list sorted.
fn upsert_entry(es: &mut Vec<PermissionEntry>, origin: &str, kind: PermissionKind, decision: PermissionDecision)
    requires
        keys_sorted(entry_views(old(es)@)),
    ensures
        keys_sorted(entry_views(final(es)@)),
        list_map(entry_views(final(es)@)) == list_map(entry_views(old(es)@)).insert((origin@, kind), decision),
{
    let o = chars_of(origin);
    let ghost k = (origin@, kind);
    let ghost v0 = entry_views(es@);
    let i = insertion_point(es, &o, kind);
    proof {
        lemma_list_map(v0);
    }
    let ghost old_es = es@;
    if i < es.len() && es[i].kind == kind && seq_eq(&chars_of(es[i].origin.as_str()), &o) {
        es[i].decision = decision;
        proof {
            let v1 = entry_views(es@);
            assert(v0[i as int] == old_es[i as int]@);
            assert(v1 =~= v0.update(i as int, EntryView { decision: decision, ..v0[i as int] }));
            assert(keys_sorted(v1)) by {
                assert forall|a: int, b: int| 0 <= a < b < v1.len() implies key_lt(
                    key_of(#[trigger] v1[a]),
                    key_of(#[trigger] v1[b]),
                ) by {
                    assert(key_of(v1[a]) == key_of(v0[a]));
                    assert(key_of(v1[b]) == key_of(v0[b]));
                }
            }
            lemma_list_map(v1);
            lemma_map_update(v0, v1, i as int, decision);
        }
    } else {
        es.insert(i, PermissionEntry { origin: origin.to_string(), kind, decision });
        proof {
            let v1 = entry_views(es@);
            let e = EntryView { origin: origin@, kind, decision };
            assert(v1 =~= v0.insert(i as int, e)) by {
                assert forall|j: int| 0 <= j < v1.len() implies v1[j] == v0.insert(i as int, e)[j] by {
                    if j < i {
                        assert(es@[j] == old_es[j]);
                    } else if j > i {
                        assert(es@[j] == old_es[j - 1]);
                    }
                }
            }
            if i < v0.len() {
                assert(key_of(v0[i as int]) != k) by {
                    if key_of(v0[i as int]) == k {
                        assert(v0[i as int] == old_es[i as int]@);
                    }
                }
                lemma_key_lt_total(key_of(v0[i as int]), k);
            }
            lemma_map_insert(v0, i as int, e);
        }
    }
}

/// Inserting an entry for a new key where it sorts keeps the list sorted and
/// adds the key to the map.
proof fn lemma_map_insert(v0: Seq<EntryView>, i: int, e: EntryView)
    requires
        keys_sorted(v0),
        0 <= i <= v0.len(),
        forall|j: int| 0 <= j < i ==> key_lt(key_of(#[trigger] v0[j]), key_of(e)),
        i < v0.len() ==> key_lt(key_of(e), key_of(v0[i])),
    ensures
        keys_sorted(v0.insert(i, e)),
        list_map(v0.insert(i, e)) == list_map(v0).insert(key_of(e), e.decision),
{
    let v1 = v0.insert(i, e);
    let k = key_of(e);
    assert(keys_sorted(v1)) by {
        assert forall|a: int, b: int| 0 <= a < b < v1.len() implies key_lt(
            key_of(#[trigger] v1[a]),
            key_of(#[trigger] v1[b]),
        ) by {
            if a < i && b < i {
            } else if a < i && b == i {
            } else if a < i {
                assert(key_lt(key_of(v0[a]), key_of(v0[b - 1])));
            } else if a == i {
                if b - 1 > i {
                    assert(key_lt(key_of(v0[i]), key_of(v0[b - 1])));
                    lemma_key_lt_trans(k, key_of(v0[i]), key_of(v0[b - 1]));
                }
            } else {
                assert(key_lt(key_of(v0[a - 1]), key_of(v0[b - 1])));
            }
        }
    }
    lemma_list_map(v0);
    lemma_list_map(v1);
    assert forall|k2: (Seq<char>, PermissionKind)| #[trigger] list_map(v1).contains_key(k2)
        <==> list_map(v0).insert(k, e.decision).contains_key(k2) by {
        if list_map(v1).contains_key(k2) && k2 != k {
            let j = choose|j: int| 0 <= j < v1.len() && key_of(v1[j]) == k2;
            if j < i {
                assert(key_of(v0[j]) == k2);
            } else {
                assert(key_of(v0[j - 1]) == k2);
            }
        }
        if list_map(v0).contains_key(k2) {
            let j = choose|j: int| 0 <= j < v0.len() && key_of(v0[j]) == k2;
            if j < i {
                assert(key_of(v1[j]) == k2);
            } else {
                assert(key_of(v1[j + 1]) == k2);
            }
        }
        if k2 == k {
            assert(key_of(v1[i]) == k2);
        }
    }
    assert forall|k2: (Seq<char>, PermissionKind)| #[trigger] list_map(v1).contains_key(k2)
        implies list_map(v1)[k2] == list_map(v0).insert(k, e.decision)[k2] by {
        let j = choose|j: int| 0 <= j < v1.len() && key_of(v1[j]) == k2;
        assert(list_map(v1)[key_of(v1[j])] == v1[j].decision);
        if j != i {
            assert(k2 != k) by {
                if j < i {
                    assert(key_lt(key_of(v1[j]), key_of(v1[i])));
                } else {
                    assert(key_lt(key_of(v1[i]), key_of(v1[j])));
                }
                lemma_key_lt_irrefl(k);
            }
            if j < i {
                assert(v1[j] == v0[j]);
                assert(list_map(v0)[key_of(v0[j])] == v0[j].decision);
            } else {
                assert(v1[j] == v0[j - 1]);
                assert(list_map(v0)[key_of(v0[j - 1])] == v0[j - 1].decision);
            }
        }
    }
    assert(list_map(v1) =~= list_map(v0).insert(k, e.decision));
}

/// Changing one entry's decision changes the map at that entry's key only.
proof fn lemma_map_update(v0: Seq<EntryView>, v1: Seq<EntryView>, i: int, d: PermissionDecision)
    requires
        0 <= i < v0.len(),
        keys_sorted(v0),
        keys_sorted(v1),
        v1 == v0.update(i, EntryView { decision: d, ..v0[i] }),
    ensures
        list_map(v1) == list_map(v0).insert(key_of(v0[i]), d),
{
    lemma_list_map(v0);
    lemma_list_map(v1);
    let k = key_of(v0[i]);
    assert forall|k2: (Seq<char>, PermissionKind)| #[trigger] list_map(v1).contains_key(k2)
        <==> list_map(v0).insert(k, d).contains_key(k2) by {
        if list_map(v1).contains_key(k2) {
            let j = choose|j: int| 0 <= j < v1.len() && key_of(v1[j]) == k2;
            assert(key_of(v0[j]) == k2);
        }
        if list_map(v0).contains_key(k2) {
            let j = choose|j: int| 0 <= j < v0.len() && key_of(v0[j]) == k2;
            assert(key_of(v1[j]) == k2);
        }
        if k2 == k {
            assert(key_of(v1[i]) == k2);
        }
    }
    assert forall|k2: (Seq<char>, PermissionKind)| #[trigger] list_map(v1).contains_key(k2)
        implies list_map(v1)[k2] == list_map(v0).insert(k, d)[k2] by {
        let j = choose|j: int| 0 <= j < v1.len() && key_of(v1[j]) == k2;
        if j != i {
            assert(v1[j] == v0[j]);
            if k2 == k {
                if j < i {
                    assert(key_lt(key_of(v0[j]), key_of(v0[i])));
                } else {
                    assert(key_lt(key_of(v0[i]), key_of(v0[j])));
                }
                lemma_key_lt_irrefl(k);
            }
        }
    }
    assert(list_map(v1) =~= list_map(v0).insert(k, d));
}

/// What a get right after a set answers: the decision just set, from the
/// context it was set for; the other context is unaffected.
pub proof fn law_get_after_set(
    s0: PermissionStore,
    s1: PermissionStore,
    origin: Seq<char>,
    kind: PermissionKind,
    decision: PermissionDecision,
    private: bool,
)
    requires
        s0.wf(),
        private ==> s1.session_map() == s0.session_map().insert((origin, kind), decision)
            && s1.persisted_entries() == s0.persisted_entries(),
        !private ==> s1.persisted_map() == s0.persisted_map().insert((origin, kind), decision)
            && s1.session_entries() == s0.session_entries(),
    ensures
        private ==> s1.session_map()[(origin, kind)] == decision && s1.session_map().contains_key(
            (origin, kind),
        ) && s1.persisted_map() == s0.persisted_map(),
        !private ==> s1.persisted_map()[(origin, kind)] == decision
            && s1.persisted_map().contains_key((origin, kind)) && s1.session_map() == s0.session_map(),
{
}


// ── Origins ──────────────────────────────────────────────────────────────────

/// Where a URL's host and port end.
pub open spec fn is_host_end(c: char) -> bool {
    c == '/' || c == '?' || c == '#'
}

pub open spec fn host_end_pred() -> spec_fn(char) -> bool {
    |c: char| is_host_end(c)
}

/// The origin of an `http` or `https` URL: the lowercased scheme, `://`, and
/// the lowercased host and port (after any user info, before any path, query
/// or fragment, with surrounding dots removed). `None` for any other scheme,
/// a URL without `://`, or an empty host.
pub open spec fn spec_origin_from_url(url: Seq<char>) -> Option<Seq<char>> {
    let t = trim(url);
    match find(t, "://"@) {
        None => None,
        Some(p) => {
            let scheme = lower(t.take(p));
            let rest = t.skip(p + 3);
            if scheme != "http"@ && scheme != "https"@ {
                None
            } else {
                let after_user = match last_where(rest, eq_pred('@'), rest.len() as int) {
                    Some(a) => rest.skip(a + 1),
                    None => rest,
                };
                let host_port = lower(
                    match first_where(after_user, host_end_pred(), 0) {
                        Some(e) => after_user.take(e),
                        None => after_user,
                    },
                );
                let hp = trim_by(host_port, eq_pred('.'));
                if hp.len() == 0 {
                    None
                } else {
                    Some(scheme + "://"@ + hp)
                }
            }
        }
    }
}

fn first_host_end(v: &Vec<char>) -> (r: Option<usize>)
    ensures
        r matches Some(k) ==> first_where(v@, host_end_pred(), 0) == Some(k as int),
        r is None ==> first_where(v@, host_end_pred(), 0) is None,
{
    let mut i: usize = 0;
    while i < v.len()
        invariant
            i <= v.len(),
            first_where(v@, host_end_pred(), 0) == first_where(v@, host_end_pred(), i as int),
        decreases v.len() - i,
    {
        if v[i] == '/' || v[i] == '?' || v[i] == '#' {
            return Some(i);
        }
        i = i + 1;
    }
    None
}

pub fn origin_from_url(url: &str) -> (r: Option<String>)
    ensures
        match r {
            Some(o) => spec_origin_from_url(url@) == Some(o@),
            None => spec_origin_from_url(url@) is None,
        },
{
    let t = trim_exec(&chars_of(url));
    let sep = lit("://");
    let p = match find_exec(&t, &sep) {
        Some(p) => p,
        None => return None,
    };
    proof {
        crate::text::lemma_find_from_bounds(t@, sep@, 0);
    }
    let scheme = to_lower(&slice_of(&t, 0, p));
    assert(t@.take(p as int) =~= t@.subrange(0, p as int));
    if !seq_eq(&scheme, &lit("http")) && !seq_eq(&scheme, &lit("https")) {
        return None;
    }
    proof {
        reveal_strlit("://");
    }
    let rest = slice_of(&t, p + 3, t.len());
    assert(rest@ =~= t@.skip(p + 3));
    let after_user = match crate::text::last_char_before(&rest, '@', rest.len()) {
        Some(a) => {
            proof {
                crate::text::lemma_last_where_bounds(rest@, eq_pred('@'), rest@.len() as int);
            }
            let v = slice_of(&rest, a + 1, rest.len());
            assert(v@ =~= rest@.skip(a + 1));
            v
        },
        None => rest,
    };
    let host_part = match first_host_end(&after_user) {
        Some(e) => {
            proof {
                lemma_first_where_bounds(after_user@, host_end_pred(), 0);
            }
            let v = slice_of(&after_user, 0, e);
            assert(v@ =~= after_user@.take(e as int));
            v
        },
        None => after_user,
    };
    let hp = crate::text::trim_char_exec(&to_lower(&host_part), '.');
    if hp.len() == 0 {
        return None;
    }
    let mut out = scheme;
    extend_chars(&mut out, &sep);
    extend_chars(&mut out, &hp);
    Some(string_of(&out))
}

// ── Reading the saved decisions ──────────────────────────────────────────────

/// Reads the rest of a JSON string literal from position `i`: `out` holds
/// what was read so far, `esc` whether a backslash is pending. `None` when
/// the literal is not closed.
pub open spec fn json_string_from(s: Seq<char>, i: int, out: Seq<char>, esc: bool) -> Option<Seq<char>>
    decreases s.len() - i,
{
    if i < 0 || i >= s.len() {
        None
    } else if esc {
        json_string_from(s, i + 1, out.push(unescape_char(s[i])), false)
    } else if s[i] == '\\' {
        json_string_from(s, i + 1, out, true)
    } else if s[i] == '"' {
        Some(out)
    } else {
        json_string_from(s, i + 1, out.push(s[i]), false)
    }
}

/// The JSON string literal at the start of `s`, decoded.
pub open spec fn spec_parse_json_string(s: Seq<char>) -> Option<Seq<char>> {
    if s.len() > 0 && s[0] == '"' {
        json_string_from(s, 1, Seq::empty(), false)
    } else {
        None
    }
}

fn parse_json_string(s: &Vec<char>) -> (r: Option<Vec<char>>)
    ensures
        match r {
            Some(v) => spec_parse_json_string(s@) == Some(v@),
            None => spec_parse_json_string(s@) is None,
        },
{
    if s.len() == 0 || s[0] != '"' {
        return None;
    }
    let mut out: Vec<char> = Vec::new();
    let mut esc = false;
    let mut i: usize = 1;
    while i < s.len()
        invariant
            1 <= i <= s.len(),
            s@.len() > 0 && s@[0] == '"',
            spec_parse_json_string(s@) == json_string_from(s@, i as int, out@, esc),
        decreases s.len() - i,
    {
        let ch = s[i];
        if esc {
            let u = if ch == 'n' {
                '\n'
            } else if ch == 'r' {
                '\r'
            } else if ch == 't' {
                '\t'
            } else {
                ch
            };
            out.push(u);
            esc = false;
        } else if ch == '\\' {
            esc = true;
        } else if ch == '"' {
            return Some(out);
        } else {
            out.push(ch);
        }
        i = i + 1;
    }
    None
}

/// The decoded string value that follows `"key"` and a colon in `obj`.
pub open spec fn spec_find_json_string(obj: Seq<char>, key: Seq<char>) -> Option<Seq<char>> {
    let needle = seq!['"'] + key + seq!['"'];
    match find(obj, needle) {
        None => None,
        Some(pos) => {
            let after = obj.skip(pos + needle.len());
            match first_where(after, eq_pred(':'), 0) {
                None => None,
                Some(c) => spec_parse_json_string(trim_start_by(after.skip(c + 1), ws_pred())),
            }
        },
    }
}

fn find_json_string(obj: &Vec<char>, key: &str) -> (r: Option<Vec<char>>)
    ensures
        match r {
            Some(v) => spec_find_json_string(obj@, key@) == Some(v@),
            None => spec_find_json_string(obj@, key@) is None,
        },
{
    let mut needle = vec!['"'];
    extend_chars(&mut needle, &chars_of(key));
    needle.push('"');
    assert(needle@ =~= seq!['"'] + key@ + seq!['"']);
    let pos = match find_exec(obj, &needle) {
        Some(p) => p,
        None => return None,
    };
    proof {
        crate::text::lemma_find_from_bounds(obj@, needle@, 0);
    }
    let olen = obj.len();
    let after = slice_of(obj, pos + needle.len(), olen);
    assert(after@ =~= obj@.skip(pos + needle@.len()));
    let colon = match first_char_from(&after, ':', 0) {
        Some(c) => c,
        None => return None,
    };
    proof {
        lemma_first_where_bounds(after@, eq_pred(':'), 0);
    }
    let value = slice_of(&after, colon + 1, after.len());
    assert(value@ =~= after@.skip(colon + 1));
    parse_json_string(&trim_start_exec(&value))
}

/// Scanner state while cutting the top-level `{...}` objects out of a text.
pub struct SliceScan {
    pub depth: nat,
    pub start: Option<int>,
    pub in_str: bool,
    pub esc: bool,
    pub out: Seq<Seq<char>>,
}

/// One step of the object scanner over character `i` of `text`: strings
/// (with escapes) are skipped, braces are counted, and each top-level object
/// is cut out when its closing brace comes.
pub open spec fn slice_step(text: Seq<char>, st: SliceScan, i: int) -> SliceScan {
    let ch = text[i];
    if st.in_str {
        if st.esc {
            SliceScan { esc: false, ..st }
        } else if ch == '\\' {
            SliceScan { esc: true, ..st }
        } else if ch == '"' {
            SliceScan { in_str: false, ..st }
        } else {
            st
        }
    } else if ch == '"' {
        SliceScan { in_str: true, ..st }
    } else if ch == '{' {
        SliceScan {
            start: if st.depth == 0 {
                Some(i)
            } else {
                st.start
            },
            depth: st.depth + 1,
            ..st
        }
    } else if ch == '}' {
        let d: nat = if st.depth > 0 {
            (st.depth - 1) as nat
        } else {
            0
        };
        if d == 0 {
            match st.start {
                Some(s) => SliceScan {
                    depth: d,
                    start: None,
                    out: st.out.push(text.subrange(s, i + 1)),
                    ..st
                },
                None => SliceScan { depth: d, ..st },
            }
        } else {
            SliceScan { depth: d, ..st }
        }
    } else {
        st
    }
}

/// The scanner state after the first `n` characters.
pub open spec fn slice_scan(text: Seq<char>, n: nat) -> SliceScan
    decreases n,
{
    if n == 0 {
        SliceScan { depth: 0, start: None, in_str: false, esc: false, out: Seq::empty() }
    } else {
        slice_step(text, slice_scan(text, (n - 1) as nat), n - 1)
    }
}

/// The top-level objects of a text, in order.
pub open spec fn spec_object_slices(text: Seq<char>) -> Seq<Seq<char>> {
    slice_scan(text, text.len()).out
}

fn parse_object_slices(text: &Vec<char>) -> (r: Vec<Vec<char>>)
    ensures
        r@.map_values(|v: Vec<char>| v@) == spec_object_slices(text@),
{
    let mut out: Vec<Vec<char>> = Vec::new();
    let mut depth: usize = 0;
    let mut start: Option<usize> = None;
    let mut in_str = false;
    let mut esc = false;
    let mut i: usize = 0;
    while i < text.len()
        invariant
            i <= text.len(),
            depth <= i,
            ({
                let st = slice_scan(text@, i as nat);
                &&& st.depth == depth
                &&& st.start == (match start {
                    Some(s) => Some(s as int),
                    None => None,
                })
                &&& st.in_str == in_str
                &&& st.esc == esc
                &&& st.out == out@.map_values(|v: Vec<char>| v@)
            }),
            start matches Some(s) ==> s < i,
        decreases text.len() - i,
    {
        let ch = text[i];
        let ghost prev = slice_scan(text@, i as nat);
        let ghost out0 = out@;
        if in_str {
            if esc {
                esc = false;
            } else if ch == '\\' {
                esc = true;
            } else if ch == '"' {
                in_str = false;
            }
        } else if ch == '"' {
            in_str = true;
        } else if ch == '{' {
            if depth == 0 {
                start = Some(i);
            }
            depth = depth + 1;
        } else if ch == '}' {
            depth = if depth > 0 {
                depth - 1
            } else {
                0
            };
            if depth == 0 {
                match start {
                    Some(s) => {
                        out.push(slice_of(text, s, i + 1));
                        start = None;
                        assert(out@.map_values(|v: Vec<char>| v@) =~= out0.map_values(
                            |v: Vec<char>| v@,
                        ).push(text@.subrange(s as int, i + 1)));
                    },
                    None => {},
                }
            }
        }
        i = i + 1;
        assert(slice_scan(text@, i as nat) == slice_step(text@, prev, i - 1));
    }
    out
}

/// The entry an object describes, when it names an origin, a known
/// permission and a known decision.
pub open spec fn entry_of_object(obj: Seq<char>) -> Option<EntryView> {
    match spec_find_json_string(obj, "origin"@) {
        None => None,
        Some(origin) => match spec_find_json_string(obj, "permission"@) {
            None => None,
            Some(p) => match kind_named(p) {
                None => None,
                Some(kind) => match spec_find_json_string(obj, "decision"@) {
                    None => None,
                    Some(d) => match decision_named(d) {
                        None => None,
                        Some(decision) => Some(EntryView { origin, kind, decision }),
                    },
                },
            },
        },
    }
}

/// The entries that the objects describe, in order.
pub open spec fn entries_of_objects(objs: Seq<Seq<char>>) -> Seq<EntryView>
    decreases objs.len(),
{
    if objs.len() == 0 {
        Seq::empty()
    } else {
        entries_of_objects(objs.drop_last()) + match entry_of_object(objs.last()) {
            Some(e) => seq![e],
            None => Seq::empty(),
        }
    }
}

/// The entries a saved permissions file holds, in file order.
pub open spec fn spec_parse_permissions(text: Seq<char>) -> Seq<EntryView> {
    entries_of_objects(spec_object_slices(text))
}

fn entry_from_object(obj: &Vec<char>) -> (r: Option<PermissionEntry>)
    ensures
        match r {
            Some(e) => entry_of_object(obj@) == Some(e@),
            None => entry_of_object(obj@) is None,
        },
{
    let origin = match find_json_string(obj, "origin") {
        Some(o) => o,
        None => return None,
    };
    let perm = match find_json_string(obj, "permission") {
        Some(p) => p,
        None => return None,
    };
    let kind = match PermissionKind::from_str(string_of(&perm).as_str()) {
        Some(k) => k,
        None => return None,
    };
    let dec = match find_json_string(obj, "decision") {
        Some(d) => d,
        None => return None,
    };
    let decision = match PermissionDecision::from_str(string_of(&dec).as_str()) {
        Some(d) => d,
        None => return None,
    };
    Some(PermissionEntry { origin: string_of(&origin), kind, decision })
}

fn parse_permissions_json(text: &str) -> (r: Vec<PermissionEntry>)
    ensures
        entry_views(r@) == spec_parse_permissions(text@),
{
    let objs = parse_object_slices(&chars_of(text));
    let ghost views = objs@.map_values(|v: Vec<char>| v@);
    let mut out: Vec<PermissionEntry> = Vec::new();
    let mut i: usize = 0;
    assert(views.take(0) =~= Seq::<Seq<char>>::empty());
    while i < objs.len()
        invariant
            i <= objs@.len(),
            views == objs@.map_values(|v: Vec<char>| v@),
            entry_views(out@) == entries_of_objects(views.take(i as int)),
        decreases objs.len() - i,
    {
        let ghost out0 = out@;
        let e = entry_from_object(&objs[i]);
        assert(views.take(i + 1).drop_last() =~= views.take(i as int));
        assert(views.take(i + 1).last() == objs@[i as int]@);
        match e {
            Some(e) => {
                out.push(e);
                assert(entry_views(out@) =~= entry_views(out0) + seq![e@]);
            },
            None => {},
        }
        i = i + 1;
        assert(entry_views(out@) =~= entries_of_objects(views.take(i as int)));
    }
    assert(views.take(objs@.len() as int) =~= views);
    out
}

impl PermissionStore {
    /// A store whose persisted decisions are those saved in `text` (a later
    /// entry for the same origin and permission wins), saving to `path`.
    /// Unreadable or malformed text gives an empty store.
    pub fn load_from_text(path: String, text: &str) -> (s: Self)
        ensures
            s.wf(),
            s.persisted_map() == list_map(spec_parse_permissions(text@)),
            s.session_entries().len() == 0,
            s.spec_path() == path@,
    {
        let parsed = parse_permissions_json(text);
        let mut store = Self::new(path);
        let ghost es = entry_views(parsed@);
        let mut i: usize = 0;
        assert(es.take(0) =~= Seq::<EntryView>::empty());
        while i < parsed.len()
            invariant
                i <= parsed@.len(),
                es == entry_views(parsed@),
                store.wf(),
                store.session_entries().len() == 0,
                store.spec_path() == path@,
                store.persisted_map() == list_map(es.take(i as int)),
            decreases parsed.len() - i,
        {
            let e = &parsed[i];
            store.set(e.origin.as_str(), e.kind, e.decision, false);
            assert(es.take(i + 1).drop_last() =~= es.take(i as int));
            assert(es.take(i + 1).last() == e@);
            i = i + 1;
        }
        assert(es.take(parsed@.len() as int) =~= es);
        store
    }
}

// ── Writing the saved decisions ──────────────────────────────────────────────

/// Line `k` of the saved file, for entry `e` of `n`.
pub open spec fn perm_line(e: EntryView, k: int, n: int) -> Seq<char> {
    "  {\"origin\": "@ + spec_json_str(e.origin) + ", \"permission\": "@ + spec_json_str(e.kind.name())
        + ", \"decision\": "@ + spec_json_str(e.decision.name()) + "}"@ + (if k + 1 < n {
        ","@
    } else {
        Seq::empty()
    }) + "\n"@
}

pub open spec fn perm_lines(es: Seq<EntryView>, i: int) -> Seq<char>
    decreases i,
{
    if i <= 0 || i > es.len() {
        Seq::empty()
    } else {
        perm_lines(es, i - 1) + perm_line(es[i - 1], i - 1, es.len() as int)
    }
}

/// The saved file: a JSON array with one object per entry, one per line.
pub open spec fn spec_permissions_json(es: Seq<EntryView>) -> Seq<char> {
    "[\n"@ + perm_lines(es, es.len() as int) + "]\n"@
}

impl PermissionStore {
    /// The text to save: the persisted entries, sorted, as a JSON array.
    #[verifier::rlimit(40)]
    pub fn persisted_json(&self) -> (s: String)
        requires
            self.wf(),
        ensures
            s@ == spec_permissions_json(self.persisted_entries()),
    {
        let entries = self.entries();
        let ghost es = entry_views(entries@);
        let n = entries.len();
        let mut out = lit("[\n");
        let mut i: usize = 0;
        while i < n
            invariant
                i <= n,
                n == entries@.len(),
                es == entry_views(entries@),
                out@ == "[\n"@ + perm_lines(es, i as int),
            decreases n - i,
        {
            let e = &entries[i];
            assert(es[i as int] == e@);
            let ghost out0 = out@;
            extend_chars(&mut out, &lit("  {\"origin\": "));
            extend_chars(&mut out, &json_str_chars(&chars_of(e.origin.as_str())));
            extend_chars(&mut out, &lit(", \"permission\": "));
            extend_chars(&mut out, &json_str_chars(&lit(e.kind.as_str())));
            extend_chars(&mut out, &lit(", \"decision\": "));
            extend_chars(&mut out, &json_str_chars(&lit(e.decision.as_str())));
            extend_chars(&mut out, &lit("}"));
            if i + 1 < n {
                extend_chars(&mut out, &lit(","));
            }
            extend_chars(&mut out, &lit("\n"));
            i = i + 1;
            assert(out@ =~= out0 + perm_line(es[i - 1], i - 1, n as int));
        }
        extend_chars(&mut out, &lit("]\n"));
        string_of(&out)
    }
}


// ── Reading back saved decisions ─────────────────────────────────────────────

/// `s` holds `piece` at `i`.
pub open spec fn holds_at(s: Seq<char>, i: int, piece: Seq<char>) -> bool {
    0 <= i && i + piece.len() <= s.len() && s.subrange(i, i + piece.len()) == piece
}

proof fn lemma_holds_part(s: Seq<char>, i: int, whole: Seq<char>, off: int, piece: Seq<char>)
    requires
        holds_at(s, i, whole),
        0 <= off,
        off + piece.len() <= whole.len(),
        whole.subrange(off, off + piece.len()) == piece,
    ensures
        holds_at(s, i + off, piece),
{
    assert forall|k: int| 0 <= k < piece.len() implies #[trigger] s.subrange(i + off, i + off + piece.len())[k]
        == piece[k] by {
        assert(s.subrange(i, i + whole.len())[off + k] == whole[off + k]);
        assert(whole.subrange(off, off + piece.len())[k] == whole[off + k]);
    }
    assert(s.subrange(i + off, i + off + piece.len()) =~= piece);
}

proof fn lemma_holds_char(s: Seq<char>, i: int, whole: Seq<char>, off: int)
    requires
        holds_at(s, i, whole),
        0 <= off < whole.len(),
    ensures
        s[i + off] == whole[off],
{
    assert(s.subrange(i, i + whole.len())[off] == s[i + off]);
}

proof fn lemma_scan_step(t: Seq<char>, n: nat)
    ensures
        slice_scan(t, n + 1) == slice_step(t, slice_scan(t, n), n as int),
{
    assert((n + 1) as nat - 1 == n);
}

/// Characters other than quotes and braces, outside a string, change nothing.
proof fn lemma_scan_plain(t: Seq<char>, p: nat, q: nat)
    requires
        p <= q <= t.len(),
        !slice_scan(t, p).in_str,
        forall|i: int| p <= i < q ==> t[i] != '"' && t[i] != '{' && t[i] != '}',
    ensures
        slice_scan(t, q) == slice_scan(t, p),
    decreases q - p,
{
    if p < q {
        lemma_scan_plain(t, p, (q - 1) as nat);
        lemma_scan_step(t, (q - 1) as nat);
    }
}

proof fn lemma_hex_lower_plain(d: nat)
    requires
        d < 16,
    ensures
        hex_lower(d) != '"',
        hex_lower(d) != '\\',
        hex_lower(d) != '{',
        hex_lower(d) != '}',
{
    if d < 10 {
        assert((hex_lower(d) as int) == d + 48);
    } else {
        assert((hex_lower(d) as int) == d + 87);
    }
}

proof fn lemma_ctrl_escape(c: char)
    requires
        !(c == '"' || c == '\\' || c == '\n' || c == '\r' || c == '\t'),
        (c as int) < 0x20,
    ensures
        json_escape_char(c).len() == 6,
        json_escape_char(c)[0] == '\\',
        json_escape_char(c)[1] == 'u',
        forall|k: int| 2 <= k < 6 ==> #[trigger] json_escape_char(c)[k] != '"' && json_escape_char(c)[k] != '\\',
{
    let hi = (c as nat) / 16;
    let lo = (c as nat) % 16;
    assert(hi < 16);
    lemma_hex_lower_plain(hi);
    lemma_hex_lower_plain(lo);
}

/// Inside a string, an escaped text leaves the scanner where it was.
proof fn lemma_scan_escaped(t: Seq<char>, p: nat, v: Seq<char>)
    requires
        holds_at(t, p as int, json_escape(v)),
        slice_scan(t, p).in_str,
        !slice_scan(t, p).esc,
    ensures
        slice_scan(t, p + json_escape(v).len()) == slice_scan(t, p),
    decreases v.len(),
{
    if v.len() > 0 {
        let w = v.drop_last();
        let c = v.last();
        let jw = json_escape(w);
        let e = json_escape_char(c);
        assert(json_escape(v) == jw + e);
        assert(json_escape(v).subrange(0, jw.len() as int) =~= jw);
        lemma_holds_part(t, p as int, json_escape(v), 0, jw);
        lemma_scan_escaped(t, p, w);
        let q = (p + jw.len()) as nat;
        assert(json_escape(v).subrange(jw.len() as int, (jw.len() + e.len()) as int) =~= e);
        lemma_holds_part(t, p as int, json_escape(v), jw.len() as int, e);
        let st = slice_scan(t, p);
        assert forall|k: int| 0 <= k < e.len() implies t[q + k] == #[trigger] e[k] by {
            lemma_holds_char(t, q as int, e, k);
        }
        lemma_scan_step(t, q);
        assert(slice_scan(t, q) == st);
        if c == '"' || c == '\\' || c == '\n' || c == '\r' || c == '\t' {
            assert(e[0] == '\\');
            let st1 = SliceScan { esc: true, ..st };
            assert(slice_scan(t, q + 1) == st1);
            lemma_scan_step(t, q + 1);
            assert(slice_scan(t, q + 2) == st);
        } else if (c as int) < 0x20 {
            lemma_ctrl_escape(c);
            let st1 = SliceScan { esc: true, ..st };
            assert(slice_scan(t, q + 1) == st1);
            lemma_scan_step(t, q + 1);
            assert(slice_scan(t, q + 2) == st);
            lemma_scan_step(t, q + 2);
            lemma_scan_step(t, q + 3);
            lemma_scan_step(t, q + 4);
            lemma_scan_step(t, q + 5);
            assert(slice_scan(t, q + 6) == st);
        } else {
            assert(e[0] == c);
            assert(slice_scan(t, q + 1) == st);
        }
    }
}

/// A string literal read from outside any string leaves the scanner where it
/// was.
proof fn lemma_scan_string(t: Seq<char>, p: nat, v: Seq<char>)
    requires
        holds_at(t, p as int, spec_json_str(v)),
        !slice_scan(t, p).in_str,
        !slice_scan(t, p).esc,
    ensures
        slice_scan(t, p + spec_json_str(v).len()) == slice_scan(t, p),
{
    let j = spec_json_str(v);
    let n = json_escape(v).len() as int;
    lemma_holds_char(t, p as int, j, 0);
    lemma_scan_step(t, p);
    assert(j.subrange(1, 1 + n) =~= json_escape(v));
    lemma_holds_part(t, p as int, j, 1, json_escape(v));
    lemma_scan_escaped(t, p + 1, v);
    lemma_holds_char(t, p as int, j, 1 + n);
    lemma_scan_step(t, (p + 1 + n) as nat);
}


proof fn lemma_split_back(t: Seq<char>, b: int, x: Seq<char>, y: Seq<char>)
    requires
        holds_at(t, b, x + y),
    ensures
        holds_at(t, b, x),
        holds_at(t, b + x.len(), y),
{
    assert((x + y).subrange(0, x.len() as int) =~= x);
    lemma_holds_part(t, b, x + y, 0, x);
    assert((x + y).subrange(x.len() as int, (x.len() + y.len()) as int) =~= y);
    lemma_holds_part(t, b, x + y, x.len() as int, y);
}

/// A saved entry as the JSON object written for it.
#[verifier::opaque]
pub open spec fn perm_obj(e: EntryView) -> Seq<char> {
    "{"@ + spec_json_str("origin"@) + ": "@ + spec_json_str(e.origin) + ", "@ + spec_json_str("permission"@)
        + ": "@ + spec_json_str(e.kind.name()) + ", "@ + spec_json_str("decision"@) + ": "@ + spec_json_str(
        e.decision.name(),
    ) + "}"@
}

/// A two-character separator outside strings changes nothing.
proof fn lemma_scan_sep(t: Seq<char>, p: nat, sep: Seq<char>)
    requires
        holds_at(t, p as int, sep),
        sep.len() == 2,
        sep[0] == ':' || sep[0] == ',',
        sep[1] == ' ',
        !slice_scan(t, p).in_str,
    ensures
        slice_scan(t, p + 2) == slice_scan(t, p),
{
    lemma_holds_char(t, p as int, sep, 0);
    lemma_holds_char(t, p as int, sep, 1);
    lemma_scan_plain(t, p, p + 2);
}

/// Scanning a saved entry's object from outside any object cuts it out.
proof fn lemma_scan_obj(t: Seq<char>, b: nat, e: EntryView)
    requires
        holds_at(t, b as int, perm_obj(e)),
        slice_scan(t, b).depth == 0,
        !slice_scan(t, b).in_str,
        !slice_scan(t, b).esc,
    ensures
        slice_scan(t, b + perm_obj(e).len()) == (SliceScan {
            depth: 0,
            start: None,
            out: slice_scan(t, b).out.push(t.subrange(b as int, (b + perm_obj(e).len()) as int)),
            ..slice_scan(t, b)
        }),
{
    reveal(perm_obj);
    reveal_strlit("{");
    reveal_strlit("}");
    reveal_strlit(": ");
    reveal_strlit(", ");
    let st0 = slice_scan(t, b);
    let c = ": "@;
    let m = ", "@;
    let p0 = "{"@;
    let p1 = p0 + spec_json_str("origin"@);
    let p2 = p1 + c;
    let p3 = p2 + spec_json_str(e.origin);
    let p4 = p3 + m;
    let p5 = p4 + spec_json_str("permission"@);
    let p6 = p5 + c;
    let p7 = p6 + spec_json_str(e.kind.name());
    let p8 = p7 + m;
    let p9 = p8 + spec_json_str("decision"@);
    let p10 = p9 + c;
    let p11 = p10 + spec_json_str(e.decision.name());
    let o = p11 + "}"@;
    assert(o == perm_obj(e));
    let bi = b as int;
    lemma_split_back(t, bi, p11, "}"@);
    lemma_split_back(t, bi, p10, spec_json_str(e.decision.name()));
    lemma_split_back(t, bi, p9, c);
    lemma_split_back(t, bi, p8, spec_json_str("decision"@));
    lemma_split_back(t, bi, p7, m);
    lemma_split_back(t, bi, p6, spec_json_str(e.kind.name()));
    lemma_split_back(t, bi, p5, c);
    lemma_split_back(t, bi, p4, spec_json_str("permission"@));
    lemma_split_back(t, bi, p3, m);
    lemma_split_back(t, bi, p2, spec_json_str(e.origin));
    lemma_split_back(t, bi, p1, c);
    lemma_split_back(t, bi, p0, spec_json_str("origin"@));
    lemma_holds_char(t, bi, p0, 0);
    lemma_scan_step(t, b);
    let st1 = slice_scan(t, b + 1);
    assert(st1 == SliceScan { start: Some(bi), depth: 1, ..st0 });
    lemma_scan_string(t, (b + p0.len()) as nat, "origin"@);
    lemma_scan_sep(t, (b + p1.len()) as nat, c);
    lemma_scan_string(t, (b + p2.len()) as nat, e.origin);
    lemma_scan_sep(t, (b + p3.len()) as nat, m);
    lemma_scan_string(t, (b + p4.len()) as nat, "permission"@);
    lemma_scan_sep(t, (b + p5.len()) as nat, c);
    lemma_scan_string(t, (b + p6.len()) as nat, e.kind.name());
    lemma_scan_sep(t, (b + p7.len()) as nat, m);
    lemma_scan_string(t, (b + p8.len()) as nat, "decision"@);
    lemma_scan_sep(t, (b + p9.len()) as nat, c);
    lemma_scan_string(t, (b + p10.len()) as nat, e.decision.name());
    assert(slice_scan(t, (b + p11.len()) as nat) == st1);
    lemma_holds_char(t, bi + p11.len(), "}"@, 0);
    lemma_scan_step(t, (b + p11.len()) as nat);
}


/// Text without quotes, backslashes or control characters is written as is.
proof fn lemma_json_escape_plain(v: Seq<char>)
    requires
        forall|k: int| 0 <= k < v.len() ==> (#[trigger] v[k] as int) >= 0x20 && v[k] != '"' && v[k] != '\\',
    ensures
        json_escape(v) == v,
    decreases v.len(),
{
    if v.len() > 0 {
        lemma_json_escape_plain(v.drop_last());
        assert(json_escape_char(v.last()) =~= seq![v.last()]);
        assert(v.drop_last().push(v.last()) =~= v);
    }
}

proof fn lemma_key_literals()
    ensures
        spec_json_str("origin"@) == "\"origin\""@,
        spec_json_str("permission"@) == "\"permission\""@,
        spec_json_str("decision"@) == "\"decision\""@,
{
    reveal_strlit("origin");
    reveal_strlit("permission");
    reveal_strlit("decision");
    reveal_strlit("\"origin\"");
    reveal_strlit("\"permission\"");
    reveal_strlit("\"decision\"");
    lemma_json_escape_plain("origin"@);
    lemma_json_escape_plain("permission"@);
    lemma_json_escape_plain("decision"@);
    assert(spec_json_str("origin"@) =~= "\"origin\""@);
    assert(spec_json_str("permission"@) =~= "\"permission\""@);
    assert(spec_json_str("decision"@) =~= "\"decision\""@);
}

proof fn lemma_perm_line_shape(e: EntryView, k: int, n: int)
    ensures
        perm_line(e, k, n) == "  "@ + perm_obj(e) + (if k + 1 < n {
            ","@
        } else {
            Seq::empty()
        }) + "\n"@,
{
    reveal(perm_obj);
    lemma_key_literals();
    reveal_strlit("  {\"origin\": ");
    reveal_strlit(", \"permission\": ");
    reveal_strlit(", \"decision\": ");
    reveal_strlit("  ");
    reveal_strlit("{");
    reveal_strlit(": ");
    reveal_strlit(", ");
    reveal_strlit("\"origin\"");
    reveal_strlit("\"permission\"");
    reveal_strlit("\"decision\"");
    assert("  {\"origin\": "@ =~= "  "@ + "{"@ + spec_json_str("origin"@) + ": "@);
    assert(", \"permission\": "@ =~= ", "@ + spec_json_str("permission"@) + ": "@);
    assert(", \"decision\": "@ =~= ", "@ + spec_json_str("decision"@) + ": "@);
    assert(perm_line(e, k, n) =~= "  "@ + perm_obj(e) + (if k + 1 < n {
        ","@
    } else {
        Seq::empty()
    }) + "\n"@);
}

proof fn lemma_perm_lines_prefix(es: Seq<EntryView>, k: int, m: int)
    requires
        0 <= k <= m <= es.len(),
    ensures
        perm_lines(es, k).len() <= perm_lines(es, m).len(),
        perm_lines(es, m).subrange(0, perm_lines(es, k).len() as int) == perm_lines(es, k),
    decreases m - k,
{
    if k < m {
        lemma_perm_lines_prefix(es, k, m - 1);
        let a = perm_lines(es, m - 1);
        let b = perm_lines(es, m);
        assert(b == a + perm_line(es[m - 1], m - 1, es.len() as int));
        assert(b.subrange(0, perm_lines(es, k).len() as int) =~= a.subrange(0, perm_lines(es, k).len() as int));
    } else {
        assert(perm_lines(es, m).subrange(0, perm_lines(es, m).len() as int) =~= perm_lines(es, m));
    }
}

pub open spec fn perm_line_start(es: Seq<EntryView>, k: int) -> int {
    2 + perm_lines(es, k).len() as int
}

proof fn lemma_perm_line_in_file(es: Seq<EntryView>, k: int)
    requires
        0 <= k < es.len(),
    ensures
        holds_at(spec_permissions_json(es), perm_line_start(es, k), perm_line(es[k], k, es.len() as int)),
        perm_line_start(es, k + 1) == perm_line_start(es, k) + perm_line(es[k], k, es.len() as int).len(),
{
    reveal_strlit("[\n");
    let t = spec_permissions_json(es);
    let n = es.len() as int;
    let all = perm_lines(es, n);
    let line = perm_line(es[k], k, n);
    lemma_perm_lines_prefix(es, k + 1, n);
    let pre = perm_lines(es, k + 1);
    assert(pre == perm_lines(es, k) + line);
    let st = perm_lines(es, k).len() as int;
    assert forall|j: int| 0 <= j < line.len() implies #[trigger] t.subrange(2 + st, 2 + st + line.len())[j] == line[j] by {
        assert(t[2 + st + j] == all[st + j]);
        assert(all.subrange(0, pre.len() as int)[st + j] == pre[st + j]);
        assert(pre[st + j] == line[j]);
    }
    assert(t.subrange(2 + st, 2 + st + line.len()) =~= line);
}

pub open spec fn scan_idle(out: Seq<Seq<char>>) -> SliceScan {
    SliceScan { depth: 0, start: None, in_str: false, esc: false, out }
}

proof fn lemma_perm_line_parts(es: Seq<EntryView>, k: int)
    requires
        0 <= k < es.len(),
    ensures
        ({
            let t = spec_permissions_json(es);
            let st = perm_line_start(es, k);
            let o = perm_obj(es[k]);
            &&& t[st] == ' ' && t[st + 1] == ' '
            &&& perm_line_start(es, k + 1) <= t.len()
            &&& holds_at(t, st + 2, o)
            &&& k + 1 < es.len() ==> t[st + 2 + o.len()] == ',' && t[st + 3 + o.len()] == '\n'
                && perm_line_start(es, k + 1) == st + 4 + o.len()
            &&& k + 1 == es.len() ==> t[st + 2 + o.len()] == '\n' && perm_line_start(es, k + 1) == st + 3
                + o.len()
        }),
{
    reveal_strlit("  ");
    reveal_strlit(",");
    reveal_strlit("\n");
    let t = spec_permissions_json(es);
    let n = es.len() as int;
    let e = es[k];
    let line = perm_line(e, k, n);
    let st = perm_line_start(es, k);
    lemma_perm_line_in_file(es, k);
    lemma_perm_line_shape(e, k, n);
    let o = perm_obj(e);
    let sep: Seq<char> = if k + 1 < n {
        ","@
    } else {
        Seq::empty()
    };
    lemma_split_back(t, st, "  "@ + o + sep, "\n"@);
    lemma_split_back(t, st, "  "@ + o, sep);
    lemma_split_back(t, st, "  "@, o);
    lemma_holds_char(t, st, "  "@, 0);
    lemma_holds_char(t, st, "  "@, 1);
    lemma_holds_char(t, st + 2 + o.len() + sep.len(), "\n"@, 0);
    if k + 1 < n {
        lemma_holds_char(t, st + 2 + o.len(), sep, 0);
    }
}

proof fn lemma_scan_line(es: Seq<EntryView>, k: int, out: Seq<Seq<char>>)
    requires
        0 <= k < es.len(),
        slice_scan(spec_permissions_json(es), perm_line_start(es, k) as nat) == scan_idle(out),
    ensures
        slice_scan(spec_permissions_json(es), perm_line_start(es, k + 1) as nat) == scan_idle(
            out.push(perm_obj(es[k])),
        ),
{
    let t = spec_permissions_json(es);
    let st = perm_line_start(es, k);
    let o = perm_obj(es[k]);
    lemma_perm_line_parts(es, k);
    lemma_scan_plain(t, st as nat, (st + 2) as nat);
    lemma_scan_obj(t, (st + 2) as nat, es[k]);
    let after = (st + 2 + o.len()) as nat;
    lemma_scan_plain(t, after, perm_line_start(es, k + 1) as nat);
}

/// Before line `k` the scanner has cut out the objects of the lines before it.
proof fn lemma_scan_lines(es: Seq<EntryView>, k: int)
    requires
        0 <= k <= es.len(),
    ensures
        slice_scan(spec_permissions_json(es), perm_line_start(es, k) as nat) == scan_idle(
            es.take(k).map_values(|e: EntryView| perm_obj(e)),
        ),
    decreases k,
{
    let t = spec_permissions_json(es);
    let f = |e: EntryView| perm_obj(e);
    if k == 0 {
        reveal_strlit("[\n");
        assert(t[0] == '[' && t[1] == '\n');
        lemma_scan_plain(t, 0, 2);
        assert(es.take(0).map_values(f) =~= Seq::<Seq<char>>::empty());
        assert(slice_scan(t, 0) == scan_idle(Seq::empty()));
    } else {
        lemma_scan_lines(es, k - 1);
        lemma_scan_line(es, k - 1, es.take(k - 1).map_values(f));
        assert(es.take(k - 1).map_values(f).push(perm_obj(es[k - 1])) =~= es.take(k).map_values(f));
    }
}

proof fn lemma_perm_tail(es: Seq<EntryView>)
    ensures
        ({
            let t = spec_permissions_json(es);
            let st = perm_line_start(es, es.len() as int);
            &&& t.len() == st + 2
            &&& t[st] == ']'
            &&& t[st + 1] == '\n'
        }),
{
    reveal_strlit("[\n");
    reveal_strlit("]\n");
}

/// The objects cut out of a saved permissions file are those written.
proof fn lemma_slices_of_saved(es: Seq<EntryView>)
    ensures
        spec_object_slices(spec_permissions_json(es)) == es.map_values(|e: EntryView| perm_obj(e)),
{
    let t = spec_permissions_json(es);
    let n = es.len() as int;
    lemma_scan_lines(es, n);
    assert(es.take(n) =~= es);
    lemma_perm_tail(es);
    let st = perm_line_start(es, n);
    lemma_scan_plain(t, st as nat, t.len());
}


/// Reading an escaped text inside a string literal decodes it, when every
/// character was written plainly or with a one-letter escape.
proof fn lemma_json_string_from_escaped(x: Seq<char>, i: int, out: Seq<char>, v: Seq<char>)
    requires
        holds_at(x, i, json_escape(v)),
        i + json_escape(v).len() < x.len(),
        x[i + json_escape(v).len()] == '"',
        forall|k: int| 0 <= k < v.len() ==> simply_escaped(#[trigger] v[k]),
    ensures
        json_string_from(x, i, out, false) == Some(out + v),
    decreases v.len(),
{
    if v.len() == 0 {
        assert(out + v =~= out);
    } else {
        let c = v[0];
        let rest = v.skip(1);
        let e = json_escape_char(c);
        let je = json_escape(v);
        lemma_json_escape_front(v);
        assert(je.subrange(0, e.len() as int) =~= e);
        lemma_holds_part(x, i, je, 0, e);
        assert(je.subrange(e.len() as int, (e.len() + json_escape(rest).len()) as int) =~= json_escape(rest));
        lemma_holds_part(x, i, je, e.len() as int, json_escape(rest));
        assert(simply_escaped(v[0]));
        assert forall|k: int| 0 <= k < rest.len() implies simply_escaped(#[trigger] rest[k]) by {
            assert(rest[k] == v[k + 1]);
        }
        lemma_holds_char(x, i, e, 0);
        if c == '"' || c == '\\' || c == '\n' || c == '\r' || c == '\t' {
            lemma_holds_char(x, i, e, 1);
            assert(unescape_char(e[1]) == c);
            assert(x[i] == '\\');
            assert(json_string_from(x, i + 1, out, true) == json_string_from(x, i + 2, out.push(c), false));
            assert(json_string_from(x, i, out, false) == json_string_from(x, i + 1, out, true));
        } else {
            assert((c as int) >= 0x20);
            assert(e[0] == c);
            assert(json_string_from(x, i, out, false) == json_string_from(x, i + 1, out.push(c), false));
        }
        lemma_json_string_from_escaped(x, i + e.len(), out.push(c), rest);
        assert(out.push(c) + rest =~= out + v);
    }
}

/// A string literal at the start of a text reads back as its value.
proof fn lemma_parse_json_str_at(x: Seq<char>, v: Seq<char>)
    requires
        holds_at(x, 0, spec_json_str(v)),
        forall|k: int| 0 <= k < v.len() ==> simply_escaped(#[trigger] v[k]),
    ensures
        spec_parse_json_string(x) == Some(v),
{
    let j = spec_json_str(v);
    let n = json_escape(v).len() as int;
    lemma_holds_char(x, 0, j, 0);
    assert(j.subrange(1, 1 + n) =~= json_escape(v));
    lemma_holds_part(x, 0, j, 1, json_escape(v));
    lemma_holds_char(x, 0, j, 1 + n);
    lemma_json_string_from_escaped(x, 1, Seq::empty(), v);
    assert(Seq::<char>::empty() + v =~= v);
}

/// The value after a key: `: ` and then a string literal.
proof fn lemma_value_after_colon(after: Seq<char>, v: Seq<char>)
    requires
        after.len() >= 2,
        after[0] == ':',
        after[1] == ' ',
        holds_at(after, 2, spec_json_str(v)),
        forall|k: int| 0 <= k < v.len() ==> simply_escaped(#[trigger] v[k]),
    ensures
        first_where(after, eq_pred(':'), 0) == Some(0int),
        spec_parse_json_string(trim_start_by(after.skip(1), ws_pred())) == Some(v),
{
    let a1 = after.skip(1);
    assert(a1[0] == ' ');
    assert(a1[1] == spec_json_str(v)[0]) by {
        assert(after.subrange(2, 2 + spec_json_str(v).len() as int)[0] == after[2]);
    }
    assert(crate::text::skip_while(a1, ws_pred(), 1) == 1);
    assert(crate::text::skip_while(a1, ws_pred(), 0) == 1);
    let x = a1.skip(1);
    assert(x =~= after.skip(2));
    assert forall|k: int| 0 <= k < spec_json_str(v).len() implies #[trigger] x.subrange(
        0,
        spec_json_str(v).len() as int,
    )[k] == spec_json_str(v)[k] by {
        assert(after.subrange(2, 2 + spec_json_str(v).len() as int)[k] == after[2 + k]);
    }
    assert(x.subrange(0, spec_json_str(v).len() as int) =~= spec_json_str(v));
    lemma_parse_json_str_at(x, v);
}

/// In escaped text every quote comes right after a backslash.
proof fn lemma_escaped_quotes(v: Seq<char>)
    ensures
        forall|j: int|
            0 <= j < json_escape(v).len() && #[trigger] json_escape(v)[j] == '"' ==> j > 0 && json_escape(v)[j
                - 1] == '\\',
    decreases v.len(),
{
    if v.len() > 0 {
        let w = v.drop_last();
        let c = v.last();
        lemma_escaped_quotes(w);
        let jw = json_escape(w);
        let e = json_escape_char(c);
        assert(json_escape(v) == jw + e);
        assert forall|j: int| 0 <= j < json_escape(v).len() && #[trigger] json_escape(v)[j] == '"' implies j > 0
            && json_escape(v)[j - 1] == '\\' by {
            if j >= jw.len() {
                let k = j - jw.len();
                if (c as int) < 0x20 && !(c == '\n' || c == '\r' || c == '\t') {
                    lemma_ctrl_escape(c);
                }
                assert(e[k] == '"');
                assert(k == 1);
                assert(json_escape(v)[j - 1] == e[0]);
            } else {
                assert(json_escape(v)[j] == jw[j]);
                assert(json_escape(v)[j - 1] == jw[j - 1]);
            }
        }
    }
}


proof fn lemma_find_at(s: Seq<char>, pat: Seq<char>, k: int, i: int)
    requires
        0 <= i <= k,
        occurs_at(s, pat, k),
        forall|q: int| i <= q < k ==> !occurs_at(s, pat, q),
    ensures
        crate::text::find_from(s, pat, i) == Some(k),
    decreases k - i,
{
    if i < k {
        lemma_find_at(s, pat, k, i + 1);
    }
}

proof fn lemma_occurs_contains(s: Seq<char>, pat: Seq<char>, q: int, i: int)
    requires
        0 <= i <= q,
        occurs_at(s, pat, q),
    ensures
        crate::text::find_from(s, pat, i) is Some,
    decreases q - i,
{
    if i < q && !occurs_at(s, pat, i) {
        lemma_occurs_contains(s, pat, q, i + 1);
    }
}

proof fn lemma_occurs_char(s: Seq<char>, pat: Seq<char>, q: int, j: int)
    requires
        occurs_at(s, pat, q),
        0 <= j < pat.len(),
    ensures
        s[q + j] == pat[j],
{
    assert(s.subrange(q, q + pat.len())[j] == s[q + j]);
}

proof fn lemma_first_where_skip(s: Seq<char>, p: spec_fn(char) -> bool, i: int, k: int)
    requires
        0 <= i <= k <= s.len(),
        forall|j: int| i <= j < k ==> !p(#[trigger] s[j]),
    ensures
        first_where(s, p, i) == first_where(s, p, k),
    decreases k - i,
{
    if i < k {
        lemma_first_where_skip(s, p, i + 1, k);
    }
}

proof fn lemma_name_plain(n: Seq<char>)
    requires
        forall|k: int| 0 <= k < n.len() ==> 'a' <= #[trigger] n[k] <= 'z',
    ensures
        spec_json_str(n) == seq!['"'] + n + seq!['"'],
        forall|k: int| 0 <= k < n.len() ==> simply_escaped(#[trigger] n[k]),
{
    lemma_json_escape_plain(n);
}

proof fn lemma_kind_name_letters(k: PermissionKind)
    ensures
        k.name().len() > 0,
        forall|j: int| 0 <= j < k.name().len() ==> 'a' <= #[trigger] k.name()[j] <= 'z',
        k.name()[0] != 'd' && k.name()[0] != 'p',
{
    reveal_strlit("notifications");
    reveal_strlit("clipboard");
    reveal_strlit("geolocation");
    reveal_strlit("camera");
    reveal_strlit("microphone");
}

proof fn lemma_decision_name_letters(d: PermissionDecision)
    ensures
        d.name().len() > 0,
        forall|j: int| 0 <= j < d.name().len() ==> 'a' <= #[trigger] d.name()[j] <= 'z',
{
    reveal_strlit("allow");
    reveal_strlit("deny");
    reveal_strlit("ask");
}

/// Where the parts of a saved entry's object sit.
#[verifier::rlimit(40)]
proof fn lemma_obj_layout(e: EntryView)
    ensures
        ({
            let o = perm_obj(e);
            let lo = spec_json_str(e.origin).len() as int;
            let lk = spec_json_str(e.kind.name()).len() as int;
            let ld = spec_json_str(e.decision.name()).len() as int;
            &&& o.len() == 42 + lo + lk + ld
            &&& o[0] == '{'
            &&& holds_at(o, 1, "\"origin\""@)
            &&& o[9] == ':' && o[10] == ' '
            &&& holds_at(o, 11, spec_json_str(e.origin))
            &&& o[11 + lo] == ',' && o[12 + lo] == ' '
            &&& holds_at(o, 13 + lo, "\"permission\""@)
            &&& o[25 + lo] == ':' && o[26 + lo] == ' '
            &&& holds_at(o, 27 + lo, spec_json_str(e.kind.name()))
            &&& o[27 + lo + lk] == ',' && o[28 + lo + lk] == ' '
            &&& holds_at(o, 29 + lo + lk, "\"decision\""@)
            &&& o[39 + lo + lk] == ':' && o[40 + lo + lk] == ' '
            &&& holds_at(o, 41 + lo + lk, spec_json_str(e.decision.name()))
            &&& o[41 + lo + lk + ld] == '}'
        }),
{
    reveal(perm_obj);
    reveal_strlit("{");
    reveal_strlit("}");
    reveal_strlit(": ");
    reveal_strlit(", ");
    reveal_strlit("\"origin\"");
    reveal_strlit("\"permission\"");
    reveal_strlit("\"decision\"");
    lemma_key_literals();
    let o = perm_obj(e);
    let c = ": "@;
    let m = ", "@;
    let p0 = "{"@;
    let p1 = p0 + spec_json_str("origin"@);
    let p2 = p1 + c;
    let p3 = p2 + spec_json_str(e.origin);
    let p4 = p3 + m;
    let p5 = p4 + spec_json_str("permission"@);
    let p6 = p5 + c;
    let p7 = p6 + spec_json_str(e.kind.name());
    let p8 = p7 + m;
    let p9 = p8 + spec_json_str("decision"@);
    let p10 = p9 + c;
    let p11 = p10 + spec_json_str(e.decision.name());
    assert(o == p11 + "}"@);
    assert(o.subrange(0, o.len() as int) =~= o);
    lemma_split_back(o, 0, p11, "}"@);
    lemma_split_back(o, 0, p10, spec_json_str(e.decision.name()));
    lemma_split_back(o, 0, p9, c);
    lemma_split_back(o, 0, p8, spec_json_str("decision"@));
    lemma_split_back(o, 0, p7, m);
    lemma_split_back(o, 0, p6, spec_json_str(e.kind.name()));
    lemma_split_back(o, 0, p5, c);
    lemma_split_back(o, 0, p4, spec_json_str("permission"@));
    lemma_split_back(o, 0, p3, m);
    lemma_split_back(o, 0, p2, spec_json_str(e.origin));
    lemma_split_back(o, 0, p1, c);
    lemma_split_back(o, 0, p0, spec_json_str("origin"@));
    lemma_holds_char(o, 0, p0, 0);
    lemma_holds_char(o, p1.len() as int, c, 0);
    lemma_holds_char(o, p1.len() as int, c, 1);
    lemma_holds_char(o, p3.len() as int, m, 0);
    lemma_holds_char(o, p3.len() as int, m, 1);
    lemma_holds_char(o, p5.len() as int, c, 0);
    lemma_holds_char(o, p5.len() as int, c, 1);
    lemma_holds_char(o, p7.len() as int, m, 0);
    lemma_holds_char(o, p7.len() as int, m, 1);
    lemma_holds_char(o, p9.len() as int, c, 0);
    lemma_holds_char(o, p9.len() as int, c, 1);
    lemma_holds_char(o, p11.len() as int, "}"@, 0);
}


proof fn lemma_no_occ(s: Seq<char>, pat: Seq<char>, q: int, j: int)
    requires
        0 <= j < pat.len(),
        0 <= q,
        q + pat.len() > s.len() || s[q + j] != pat[j],
    ensures
        !occurs_at(s, pat, q),
{
    if occurs_at(s, pat, q) {
        lemma_occurs_char(s, pat, q, j);
    }
}

/// The object's characters up to the value of the origin, and around the
/// permission key.
proof fn lemma_obj_fixed_chars(e: EntryView)
    ensures
        ({
            let o = perm_obj(e);
            let lo = spec_json_str(e.origin).len() as int;
            &&& o[0] == '{'
            &&& o[1] == '"' && o[2] == 'o' && o[3] == 'r' && o[4] == 'i' && o[5] == 'g' && o[6] == 'i'
                && o[7] == 'n' && o[8] == '"'
            &&& o[9] == ':' && o[10] == ' '
            &&& o[11 + lo] == ',' && o[12 + lo] == ' '
            &&& o[13 + lo] == '"' && o[14 + lo] == 'p' && o[15 + lo] == 'e' && o[16 + lo] == 'r' && o[17
                + lo] == 'm' && o[18 + lo] == 'i' && o[19 + lo] == 's' && o[20 + lo] == 's' && o[21 + lo]
                == 'i' && o[22 + lo] == 'o' && o[23 + lo] == 'n' && o[24 + lo] == '"'
            &&& o[25 + lo] == ':' && o[26 + lo] == ' '
            &&& o[11] == '"'
            &&& forall|k: int| 1 <= k < lo - 1 ==> #[trigger] o[11 + k] == json_escape(e.origin)[k - 1]
            &&& o[10 + lo] == '"'
        }),
{
    reveal_strlit("\"origin\"");
    reveal_strlit("\"permission\"");
    lemma_obj_layout(e);
    let o = perm_obj(e);
    let lo = spec_json_str(e.origin).len() as int;
    let jo = spec_json_str(e.origin);
    assert forall|k: int| 0 <= k < 8 implies o[1 + k] == #[trigger] "\"origin\""@[k] by {
        lemma_holds_char(o, 1, "\"origin\""@, k);
    }
    assert(o[1] == "\"origin\""@[0] && o[2] == "\"origin\""@[1] && o[3] == "\"origin\""@[2] && o[4]
        == "\"origin\""@[3] && o[5] == "\"origin\""@[4] && o[6] == "\"origin\""@[5] && o[7]
        == "\"origin\""@[6] && o[8] == "\"origin\""@[7]);
    assert forall|k: int| 0 <= k < 12 implies o[13 + lo + k] == #[trigger] "\"permission\""@[k] by {
        lemma_holds_char(o, 13 + lo, "\"permission\""@, k);
    }
    assert(o[13 + lo] == "\"permission\""@[0] && o[14 + lo] == "\"permission\""@[1] && o[15 + lo]
        == "\"permission\""@[2] && o[16 + lo] == "\"permission\""@[3] && o[17 + lo] == "\"permission\""@[4]
        && o[18 + lo] == "\"permission\""@[5] && o[19 + lo] == "\"permission\""@[6] && o[20 + lo]
        == "\"permission\""@[7] && o[21 + lo] == "\"permission\""@[8] && o[22 + lo] == "\"permission\""@[9]
        && o[23 + lo] == "\"permission\""@[10] && o[24 + lo] == "\"permission\""@[11]);
    lemma_holds_char(o, 11, jo, 0);
    lemma_holds_char(o, 11, jo, lo - 1);
    assert forall|k: int| 1 <= k < lo - 1 implies #[trigger] o[11 + k] == json_escape(e.origin)[k - 1] by {
        lemma_holds_char(o, 11, jo, k);
    }
}

/// The origin key is found right after the opening brace.
proof fn lemma_find_origin_key(e: EntryView)
    ensures
        find(perm_obj(e), "\"origin\""@) == Some(1int),
{
    reveal_strlit("\"origin\"");
    lemma_obj_layout(e);
    let o = perm_obj(e);
    assert(occurs_at(o, "\"origin\""@, 1));
    lemma_no_occ(o, "\"origin\""@, 0, 0);
    lemma_find_at(o, "\"origin\""@, 1, 0);
}


proof fn lemma_perm_key_not_at(e: EntryView, q: int)
    requires
        0 <= q < 13 + spec_json_str(e.origin).len(),
        q != spec_json_str(e.origin).len() - 1 || q < 11,
    ensures
        !occurs_at(perm_obj(e), "\"permission\""@, q),
{
    reveal_strlit("\"permission\"");
    let n2 = "\"permission\""@;
    lemma_obj_fixed_chars(e);
    let o = perm_obj(e);
    let lo = spec_json_str(e.origin).len() as int;
    let je = json_escape(e.origin);
    assert(lo == je.len() + 2);
    assert(n2 =~= seq!['"', 'p', 'e', 'r', 'm', 'i', 's', 's', 'i', 'o', 'n', '"']);
    if q == 0 || (2 <= q <= 7) || q == 9 || q == 10 || q == 11 + lo || q == 12 + lo {
        lemma_no_occ(o, n2, q, 0);
    } else if q == 1 || q == 8 {
        lemma_no_occ(o, n2, q, 1);
    } else {
        assert(11 <= q < 11 + lo);
        if q + 12 > 11 + lo {
            let j = 11 + lo - q;
            assert(o[q + j] == ',');
            lemma_no_occ(o, n2, q, j);
        } else {
            assert(o[11 + q] == je[q - 1]);
            if je[q - 1] != '"' {
                lemma_no_occ(o, n2, q, 11);
            } else {
                lemma_escaped_quotes(e.origin);
                assert(je[q - 2] == '\\');
                assert(o[11 + (q - 1)] == je[q - 2]);
                lemma_no_occ(o, n2, q, 10);
            }
        }
    }
}

/// The first `"permission"` in a saved object: the end of an origin that
/// itself ends with that text, or else the key.
proof fn lemma_find_permission_key(e: EntryView)
    ensures
        ({
            let o = perm_obj(e);
            let lo = spec_json_str(e.origin).len() as int;
            let n2 = "\"permission\""@;
            &&& occurs_at(o, n2, lo - 1) ==> find(o, n2) == Some(lo - 1) && lo >= 12
            &&& !occurs_at(o, n2, lo - 1) ==> find(o, n2) == Some(13 + lo)
        }),
{
    reveal_strlit("\"permission\"");
    let n2 = "\"permission\""@;
    let o = perm_obj(e);
    let lo = spec_json_str(e.origin).len() as int;
    assert forall|q: int| 0 <= q < 13 + lo && q != lo - 1 implies !occurs_at(o, n2, q) by {
        lemma_perm_key_not_at(e, q);
    }
    if occurs_at(o, n2, lo - 1) {
        if lo < 12 {
            lemma_perm_key_not_at(e, lo - 1);
        }
        lemma_find_at(o, n2, lo - 1, 0);
    } else {
        lemma_obj_layout(e);
        lemma_find_at(o, n2, 13 + lo, 0);
    }
}


proof fn lemma_obj_kind_chars(e: EntryView)
    ensures
        ({
            let o = perm_obj(e);
            let lo = spec_json_str(e.origin).len() as int;
            let kn = e.kind.name();
            let lk = spec_json_str(kn).len() as int;
            &&& lk == kn.len() + 2
            &&& o[27 + lo] == '"'
            &&& o[28 + lo] != 'd' && o[28 + lo] != '"'
            &&& forall|k: int| 1 <= k < lk - 1 ==> 'a' <= #[trigger] o[27 + lo + k] <= 'z'
            &&& o[26 + lo + lk] == '"'
            &&& o[27 + lo + lk] == ',' && o[28 + lo + lk] == ' '
            &&& holds_at(o, 29 + lo + lk, "\"decision\""@)
            &&& o[39 + lo + lk] == ':' && o[40 + lo + lk] == ' '
            &&& holds_at(o, 41 + lo + lk, spec_json_str(e.decision.name()))
        }),
{
    lemma_obj_layout(e);
    let o = perm_obj(e);
    let lo = spec_json_str(e.origin).len() as int;
    let kn = e.kind.name();
    let jk = spec_json_str(kn);
    lemma_kind_name_letters(e.kind);
    lemma_name_plain(kn);
    assert(jk == seq!['"'] + kn + seq!['"']);
    let lk = jk.len() as int;
    lemma_holds_char(o, 27 + lo, jk, 0);
    lemma_holds_char(o, 27 + lo, jk, 1);
    lemma_holds_char(o, 27 + lo, jk, lk - 1);
    assert forall|k: int| 1 <= k < lk - 1 implies 'a' <= #[trigger] o[27 + lo + k] <= 'z' by {
        lemma_holds_char(o, 27 + lo, jk, k);
        assert(jk[k] == kn[k - 1]);
    }
}

proof fn lemma_dec_key_not_at(e: EntryView, q: int)
    requires
        0 <= q < 29 + spec_json_str(e.origin).len() + spec_json_str(e.kind.name()).len(),
        !crate::text::contains(spec_json_str(e.origin), "\"decision\""@),
    ensures
        !occurs_at(perm_obj(e), "\"decision\""@, q),
{
    reveal_strlit("\"decision\"");
    let n3 = "\"decision\""@;
    lemma_obj_fixed_chars(e);
    lemma_obj_kind_chars(e);
    let o = perm_obj(e);
    let lo = spec_json_str(e.origin).len() as int;
    let lk = spec_json_str(e.kind.name()).len() as int;
    assert(n3 =~= seq!['"', 'd', 'e', 'c', 'i', 's', 'i', 'o', 'n', '"']);
    if q == 0 || (2 <= q <= 7) || q == 9 || q == 10 || q == 11 + lo || q == 12 + lo || (14 + lo <= q <= 23
        + lo) || q == 25 + lo || q == 26 + lo || q == 27 + lo + lk || q == 28 + lo + lk {
        lemma_no_occ(o, n3, q, 0);
    } else if q == 1 || q == 8 || q == 13 + lo || q == 24 + lo || q == 27 + lo || q == 26 + lo + lk {
        lemma_no_occ(o, n3, q, 1);
    } else if 27 + lo < q < 26 + lo + lk {
        assert('a' <= o[27 + lo + (q - 27 - lo)] <= 'z');
        lemma_no_occ(o, n3, q, 0);
    } else {
        assert(11 <= q < 11 + lo);
        if q + 10 > 11 + lo {
            let j = 11 + lo - q;
            assert(o[q + j] == ',');
            lemma_no_occ(o, n3, q, j);
        } else if occurs_at(o, n3, q) {
            lemma_obj_layout(e);
            let jo = spec_json_str(e.origin);
            assert forall|k: int| 0 <= k < 10 implies #[trigger] jo.subrange(q - 11, q - 1)[k] == n3[k] by {
                lemma_occurs_char(o, n3, q, k);
                lemma_holds_char(o, 11, jo, q - 11 + k);
            }
            assert(jo.subrange(q - 11, q - 1) =~= n3);
            lemma_occurs_contains(jo, n3, q - 11, 0);
        }
    }
}

/// The first `"decision"` in a saved object is its key, when the origin's
/// literal does not hold that text.
proof fn lemma_find_decision_key(e: EntryView)
    requires
        !crate::text::contains(spec_json_str(e.origin), "\"decision\""@),
    ensures
        find(perm_obj(e), "\"decision\""@) == Some(
            (29 + spec_json_str(e.origin).len() + spec_json_str(e.kind.name()).len()) as int,
        ),
{
    let o = perm_obj(e);
    let n3 = "\"decision\""@;
    let kd = (29 + spec_json_str(e.origin).len() + spec_json_str(e.kind.name()).len()) as int;
    assert forall|q: int| 0 <= q < kd implies !occurs_at(o, n3, q) by {
        lemma_dec_key_not_at(e, q);
    }
    lemma_obj_kind_chars(e);
    lemma_obj_layout(e);
    lemma_find_at(o, n3, kd, 0);
}


proof fn lemma_holds_skip(o: Seq<char>, p: int, off: int, piece: Seq<char>)
    requires
        0 <= p,
        0 <= off,
        holds_at(o, p + off, piece),
    ensures
        holds_at(o.skip(p), off, piece),
{
    assert(o.skip(p).subrange(off, off + piece.len()) =~= o.subrange(p + off, p + off + piece.len()));
}

proof fn lemma_needle(key: Seq<char>)
    requires
        forall|k: int| 0 <= k < key.len() ==> (#[trigger] key[k] as int) >= 0x20 && key[k] != '"' && key[k] != '\\',
    ensures
        seq!['"'] + key + seq!['"'] == spec_json_str(key),
{
    lemma_json_escape_plain(key);
}

/// A saved entry's object reads back as that entry, when its origin was
/// written without `\u` escapes and its literal does not hold `"decision"`.
proof fn lemma_entry_of_saved_obj(e: EntryView)
    requires
        forall|k: int| 0 <= k < e.origin.len() ==> simply_escaped(#[trigger] e.origin[k]),
        !crate::text::contains(spec_json_str(e.origin), "\"decision\""@),
    ensures
        entry_of_object(perm_obj(e)) == Some(e),
{
    reveal_strlit("origin");
    reveal_strlit("permission");
    reveal_strlit("decision");
    lemma_key_literals();
    lemma_needle("origin"@);
    lemma_needle("permission"@);
    lemma_needle("decision"@);
    lemma_obj_layout(e);
    lemma_obj_fixed_chars(e);
    lemma_obj_kind_chars(e);
    let o = perm_obj(e);
    let lo = spec_json_str(e.origin).len() as int;
    let kn = e.kind.name();
    let dn = e.decision.name();
    let lk = spec_json_str(kn).len() as int;
    lemma_kind_name_letters(e.kind);
    lemma_name_plain(kn);
    lemma_decision_name_letters(e.decision);
    lemma_name_plain(dn);
    // origin
    lemma_find_origin_key(e);
    let a1 = o.skip(9);
    lemma_holds_skip(o, 9, 2, spec_json_str(e.origin));
    lemma_value_after_colon(a1, e.origin);
    assert(spec_find_json_string(o, "origin"@) == Some(e.origin));
    // permission
    lemma_find_permission_key(e);
    let a2 = o.skip(25 + lo);
    lemma_holds_skip(o, 25 + lo, 2, spec_json_str(kn));
    lemma_value_after_colon(a2, kn);
    if occurs_at(o, "\"permission\""@, lo - 1) {
        let a2b = o.skip(11 + lo);
        assert forall|j: int| 0 <= j < 14 implies !eq_pred(':')(#[trigger] a2b[j]) by {
            assert(a2b[j] == o[11 + lo + j]);
        }
        lemma_first_where_skip(a2b, eq_pred(':'), 0, 14);
        assert(a2b[14] == ':');
        assert(a2b.skip(15) =~= a2.skip(1));
    }
    assert(spec_find_json_string(o, "permission"@) == Some(kn));
    law_kind_name_roundtrip(e.kind);
    // decision
    lemma_find_decision_key(e);
    let a3 = o.skip(39 + lo + lk);
    lemma_holds_skip(o, 39 + lo + lk, 2, spec_json_str(dn));
    lemma_value_after_colon(a3, dn);
    assert(spec_find_json_string(o, "decision"@) == Some(dn));
    law_decision_name_roundtrip(e.decision);
}


/// An entry that reads back as itself from the saved file: its origin is
/// written without `\u` escapes, and its literal does not hold `"decision"`.
pub open spec fn entry_keeps_when_saved(e: EntryView) -> bool {
    &&& forall|k: int| 0 <= k < e.origin.len() ==> simply_escaped(#[trigger] e.origin[k])
    &&& !crate::text::contains(spec_json_str(e.origin), "\"decision\""@)
}

proof fn lemma_entries_of_saved(es: Seq<EntryView>)
    requires
        forall|i: int| 0 <= i < es.len() ==> entry_keeps_when_saved(#[trigger] es[i]),
    ensures
        entries_of_objects(es.map_values(|e: EntryView| perm_obj(e))) == es,
    decreases es.len(),
{
    let f = |e: EntryView| perm_obj(e);
    let objs = es.map_values(f);
    if es.len() == 0 {
        assert(objs =~= Seq::<Seq<char>>::empty());
        assert(es =~= Seq::<EntryView>::empty());
    } else {
        let p = es.drop_last();
        assert(objs.drop_last() =~= p.map_values(f));
        assert forall|i: int| 0 <= i < p.len() implies entry_keeps_when_saved(#[trigger] p[i]) by {
            assert(p[i] == es[i]);
        }
        lemma_entries_of_saved(p);
        assert(entry_keeps_when_saved(es[es.len() - 1]));
        lemma_entry_of_saved_obj(es.last());
        assert(objs.last() == perm_obj(es.last()));
        assert(p.push(es.last()) =~= es);
    }
}

/// Saving the persisted decisions and loading the saved text gives the same
/// decisions back, when every saved entry reads back as itself.
pub proof fn law_permissions_roundtrip(store: PermissionStore)
    requires
        store.wf(),
        forall|i: int|
            0 <= i < store.persisted_entries().len() ==> entry_keeps_when_saved(
                #[trigger] store.persisted_entries()[i],
            ),
    ensures
        spec_parse_permissions(spec_permissions_json(store.persisted_entries())) == store.persisted_entries(),
        list_map(spec_parse_permissions(spec_permissions_json(store.persisted_entries()))) == store.persisted_map(),
{
    let es = store.persisted_entries();
    lemma_slices_of_saved(es);
    lemma_entries_of_saved(es);
}

} // verus!
