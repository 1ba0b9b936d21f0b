//! Minimal built-in ad/tracker blocking engine.
//!
//! The engine supports fast domain matching, per-domain allowlisting (with a
//! separate session-only allowlist for private tabs), and simple URL substring
//! rules for patterns that include a path.
use vstd::prelude::*;

use crate::json::{json_escape, json_escape_char, json_str_chars, simply_escaped, spec_json_str, unescape_char};
use crate::sorted::{
    clone_strings, lemma_sorted_list, lists_set, sorted_list, sorted_contains, sorted_insert, sorted_remove, sorted_union, views,
};
use crate::text::{
    is_ws, lower_char, skip_while, back_while, ws_pred,
    all_digits, chars_of, contains, contains_exec, dec, dec_u64, has_char, has_char_exec, lit,
    starts_with, starts_with_exec, string_of, string_push, strip_prefix_rep, strip_prefix_rep_exec,
    sorted_strict, all_digits_exec, ends_with, ends_with_exec, eq_pred, extend_chars, find, find_exec,
    first_char_from, first_where, find_from, occurs_at, last_char_before, last_where, lemma_find_from_bounds,
    lemma_first_where_bounds, lemma_last_where_bounds, lower, seq_eq, slice_of, to_lower, trim,
    trim_by, trim_char_exec, trim_exec, trim_start_by, trim_start_char_exec,
};

verus! {

broadcast use vstd::string::group_string_axioms;

pub const ADBLOCK_RULE_PAYLOAD_VERSION: u32 = 1;

// ── Host extraction and domain normalisation (specification) ─────────────────

pub open spec fn scheme_sep() -> Seq<char> {
    seq![':', '/', '/']
}

/// `/`, `?` or `#`: the characters that end the authority part of a URL.
pub open spec fn is_authority_end(c: char) -> bool {
    c == '/' || c == '?' || c == '#'
}

pub open spec fn authority_end_pred() -> spec_fn(char) -> bool {
    |c: char| is_authority_end(c)
}

/// What follows the first `://`, or the whole input when there is none.
pub open spec fn after_scheme(s: Seq<char>) -> Seq<char> {
    match find(s, scheme_sep()) {
        Some(i) => s.skip(i + 3),
        None => s,
    }
}

/// What follows the last `@`, or the whole input when there is none.
pub open spec fn after_userinfo(s: Seq<char>) -> Seq<char> {
    match last_where(s, eq_pred('@'), s.len() as int) {
        Some(j) => s.skip(j + 1),
        None => s,
    }
}

/// Everything before the first `/`, `?` or `#`.
pub open spec fn before_path(s: Seq<char>) -> Seq<char> {
    match first_where(s, authority_end_pred(), 0) {
        Some(k) => s.take(k),
        None => s,
    }
}

/// Drops a trailing `:port` when everything after the last `:` is decimal digits.
pub open spec fn strip_port(s: Seq<char>) -> Seq<char> {
    match last_where(s, eq_pred(':'), s.len() as int) {
        Some(m) => if all_digits(s.skip(m + 1)) {
            s.take(m)
        } else {
            s
        },
        None => s,
    }
}

/// The lower-cased host of a URL-ish string, if it has a non-empty one.
pub open spec fn spec_extract_host(input: Seq<char>) -> Option<Seq<char>> {
    let t = lower(trim(input));
    if t.len() == 0 {
        None
    } else {
        let host = trim_by(strip_port(before_path(after_userinfo(after_scheme(t)))), eq_pred('.'));
        if host.len() == 0 {
            None
        } else {
            Some(host)
        }
    }
}

/// The canonical domain for a rule or allowlist entry.
pub open spec fn spec_normalize_domain(input: Seq<char>) -> Seq<char> {
    let h0 = match spec_extract_host(input) {
        Some(h) => h,
        None => lower(input),
    };
    let h1 = match first_where(h0, eq_pred('/'), 0) {
        Some(k) => h0.take(k),
        None => h0,
    };
    trim_start_by(strip_port(h1), eq_pred('.'))
}

/// The host is the domain itself or one of its subdomains.
pub open spec fn spec_host_matches_domain(host: Option<Seq<char>>, domain: Seq<char>) -> bool {
    match host {
        Some(h) => h == domain || ends_with(h, seq!['.'] + domain),
        None => false,
    }
}

// ── Host extraction and domain normalisation (code) ──────────────────────────

fn after_scheme_exec(s: &Vec<char>) -> (r: Vec<char>)
    ensures
        r@ == after_scheme(s@),
{
    let sep = vec![':', '/', '/'];
    assert(sep@ == scheme_sep());
    assert(sep@.len() == 3);
    let n = s.len();
    match find_exec(s, &sep) {
        Some(i) => {
            proof {
                lemma_find_from_bounds(s@, sep@, 0);
                assert(find_from(s@, sep@, 0) == Some(i as int));
                assert(occurs_at(s@, sep@, i as int));
            }
            slice_of(s, i + 3, n)
        },
        None => s.clone(),
    }
}

fn after_userinfo_exec(s: &Vec<char>) -> (r: Vec<char>)
    ensures
        r@ == after_userinfo(s@),
{
    match last_char_before(s, '@', s.len()) {
        Some(j) => {
            proof {
                lemma_last_where_bounds(s@, eq_pred('@'), s@.len() as int);
            }
            slice_of(s, j + 1, s.len())
        },
        None => s.clone(),
    }
}

fn before_path_exec(s: &Vec<char>) -> (r: Vec<char>)
    ensures
        r@ == before_path(s@),
{
    let mut i: usize = 0;
    while i < s.len()
        invariant
            i <= s.len(),
            first_where(s@, authority_end_pred(), 0) == first_where(
                s@,
                authority_end_pred(),
                i as int,
            ),
        decreases s.len() - i,
    {
        let c = s[i];
        if c == '/' || c == '?' || c == '#' {
            return slice_of(s, 0, i);
        }
        i = i + 1;
    }
    s.clone()
}

fn strip_port_exec(s: &Vec<char>) -> (r: Vec<char>)
    ensures
        r@ == strip_port(s@),
{
    match last_char_before(s, ':', s.len()) {
        Some(m) => {
            proof {
                lemma_last_where_bounds(s@, eq_pred(':'), s@.len() as int);
            }
            let port = slice_of(s, m + 1, s.len());
            if all_digits_exec(&port) {
                slice_of(s, 0, m)
            } else {
                s.clone()
            }
        },
        None => s.clone(),
    }
}

/// The lower-cased host of a URL-ish string, if it has a non-empty one.
fn extract_host(input: &Vec<char>) -> (r: Option<Vec<char>>)
    ensures
        opt_chars(r) == spec_extract_host(input@),
{
    let t = to_lower(&trim_exec(input));
    if t.len() == 0 {
        return None;
    }
    let a = after_scheme_exec(&t);
    let b = after_userinfo_exec(&a);
    let c = before_path_exec(&b);
    let d = strip_port_exec(&c);
    let host = trim_char_exec(&d, '.');
    if host.len() == 0 {
        None
    } else {
        Some(host)
    }
}

/// The canonical domain for a rule or allowlist entry.
fn normalize_domain(input: &Vec<char>) -> (r: Vec<char>)
    ensures
        r@ == spec_normalize_domain(input@),
{
    let h0 = match extract_host(input) {
        Some(h) => h,
        None => to_lower(input),
    };
    let h1 = match first_char_from(&h0, '/', 0) {
        Some(k) => {
            proof {
                lemma_first_where_bounds(h0@, eq_pred('/'), 0);
            }
            slice_of(&h0, 0, k)
        },
        None => h0,
    };
    let h2 = strip_port_exec(&h1);
    trim_start_char_exec(&h2, '.')
}

fn host_matches_domain(host: &Option<Vec<char>>, domain: &Vec<char>) -> (b: bool)
    ensures
        b == spec_host_matches_domain(opt_chars(*host), domain@),
{
    match host {
        Some(h) => {
            if seq_eq(h, domain) {
                true
            } else {
                let mut dotted = vec!['.'];
                assert(dotted@ == seq!['.']);
                extend_chars(&mut dotted, domain);
                assert(dotted@ == seq!['.'] + domain@);
                ends_with_exec(h, &dotted)
            }
        },
        None => false,
    }
}



// ── Rules and the engine's abstract state ─────────────────────────────────────

/// A single adblock rule.
#[derive(Debug, Clone)]
pub struct Rule {
    /// The raw filter text.
    pub text: String,
    /// Whether this is a third-party rule.
    pub third_party: bool,
    /// Match type.
    pub kind: RuleKind,
}

#[derive(Debug, Clone)]
pub enum RuleKind {
    /// Host equals the domain, or is a subdomain of it.
    Domain(String),
    /// URL substring match, used for path-sensitive starter rules.
    Substring(String),
}

pub enum RuleKindModel {
    Domain(Seq<char>),
    Substring(Seq<char>),
}

pub struct RuleModel {
    pub text: Seq<char>,
    pub third_party: bool,
    pub kind: RuleKindModel,
}

impl View for RuleKind {
    type V = RuleKindModel;

    open spec fn view(&self) -> RuleKindModel {
        match self {
            RuleKind::Domain(d) => RuleKindModel::Domain(d@),
            RuleKind::Substring(p) => RuleKindModel::Substring(p@),
        }
    }
}

impl View for Rule {
    type V = RuleModel;

    open spec fn view(&self) -> RuleModel {
        RuleModel { text: self.text@, third_party: self.third_party, kind: self.kind@ }
    }
}

/// The engine's state: its rules in order, the persistent and session-only
/// allowlists, the on/off switch and the request counters.
pub struct AdblockModel {
    pub rules: Seq<RuleModel>,
    pub allow: Set<Seq<char>>,
    pub session: Set<Seq<char>>,
    pub enabled: bool,
    pub blocked: u64,
    pub total: u64,
}

pub open spec fn rules_view(rules: Seq<Rule>) -> Seq<RuleModel> {
    rules.map_values(|r: Rule| r@)
}

/// The rule that `add_block_rule(raw)` appends, if any.
pub open spec fn spec_rule_for(raw: Seq<char>) -> Option<RuleModel> {
    let text = lower(trim(raw));
    if text.len() == 0 {
        None
    } else {
        Some(
            RuleModel {
                text: text,
                third_party: true,
                kind: if has_char(text, '/') {
                    RuleKindModel::Substring(text)
                } else {
                    RuleKindModel::Domain(spec_normalize_domain(text))
                },
            },
        )
    }
}

pub open spec fn spec_add_block_rule(m: AdblockModel, raw: Seq<char>) -> AdblockModel {
    match spec_rule_for(raw) {
        Some(r) => AdblockModel { rules: m.rules.push(r), ..m },
        None => m,
    }
}

pub open spec fn spec_allowlist_domain(m: AdblockModel, raw: Seq<char>, private: bool) -> AdblockModel {
    let d = spec_normalize_domain(raw);
    if d.len() == 0 {
        m
    } else if private {
        AdblockModel { session: m.session.insert(d), ..m }
    } else {
        AdblockModel { allow: m.allow.insert(d), ..m }
    }
}

pub open spec fn spec_remove_allowlist_domain(
    m: AdblockModel,
    raw: Seq<char>,
    private: bool,
) -> AdblockModel {
    let d = spec_normalize_domain(raw);
    if private {
        AdblockModel { session: m.session.remove(d), ..m }
    } else {
        AdblockModel { allow: m.allow.remove(d), ..m }
    }
}

pub open spec fn spec_is_allowlisted(m: AdblockModel, raw: Seq<char>, private: bool) -> bool {
    let d = spec_normalize_domain(raw);
    m.allow.contains(d) || (private && m.session.contains(d))
}

/// The first rule at or after `i` whose text is `text`.
pub open spec fn rule_with_text_from(rules: Seq<RuleModel>, text: Seq<char>, i: int) -> Option<int>
    decreases rules.len() - i,
{
    if i < 0 || i >= rules.len() {
        None
    } else if rules[i].text == text {
        Some(i)
    } else {
        rule_with_text_from(rules, text, i + 1)
    }
}

pub open spec fn spec_toggle_rule(m: AdblockModel, raw: Seq<char>) -> AdblockModel {
    let n = lower(trim(raw));
    match rule_with_text_from(m.rules, n, 0) {
        Some(i) => AdblockModel { rules: m.rules.remove(i), ..m },
        None => spec_add_block_rule(m, n),
    }
}

/// One line of rule text: blank lines and `!` comments are ignored, `@@domain`
/// allowlists a domain, anything else becomes a block rule.
pub open spec fn spec_apply_rule_line(m: AdblockModel, line: Seq<char>) -> AdblockModel {
    let l = trim(line);
    if l.len() == 0 || l[0] == '!' {
        m
    } else if starts_with(l, seq!['@', '@']) {
        spec_allowlist_domain(m, strip_prefix_rep(l, seq!['@', '@']), false)
    } else {
        spec_add_block_rule(m, l)
    }
}

pub open spec fn load_step(st: (AdblockModel, Seq<char>), c: char) -> (AdblockModel, Seq<char>) {
    if c == '\n' {
        (spec_apply_rule_line(st.0, st.1), Seq::empty())
    } else {
        (st.0, st.1.push(c))
    }
}

pub open spec fn load_step_fn() -> spec_fn((AdblockModel, Seq<char>), char) -> (AdblockModel, Seq<char>) {
    |st: (AdblockModel, Seq<char>), c: char| load_step(st, c)
}

/// The state after loading rule text line by line.
pub open spec fn spec_load_rules(m: AdblockModel, text: Seq<char>) -> AdblockModel {
    let st = text.fold_left((m, Seq::<char>::empty()), load_step_fn());
    spec_apply_rule_line(st.0, st.1)
}

/// The built-in rule set applied to an engine with no rules.
pub open spec fn spec_default_engine() -> AdblockModel {
    let m0 = AdblockModel {
        rules: Seq::empty(),
        allow: Set::empty(),
        session: Set::empty(),
        enabled: true,
        blocked: 0,
        total: 0,
    };
    let m1 = spec_add_block_rule(m0, "doubleclick.net"@);
    let m2 = spec_add_block_rule(m1, "googlesyndication.com"@);
    let m3 = spec_add_block_rule(m2, "google-analytics.com"@);
    let m4 = spec_add_block_rule(m3, "googletagmanager.com"@);
    let m5 = spec_add_block_rule(m4, "facebook.net"@);
    let m6 = spec_add_block_rule(m5, "facebook.com/tr"@);
    let m7 = spec_add_block_rule(m6, "adsystem.com"@);
    let m8 = spec_add_block_rule(m7, "adservice.google.com"@);
    let m9 = spec_add_block_rule(m8, "scorecardresearch.com"@);
    let m10 = spec_add_block_rule(m9, "adnxs.com"@);
    let m11 = spec_add_block_rule(m10, "criteo.com"@);
    let m12 = spec_add_block_rule(m11, "taboola.com"@);
    let m13 = spec_add_block_rule(m12, "outbrain.com"@);
    let m14 = spec_add_block_rule(m13, "moatads.com"@);
    let m15 = spec_add_block_rule(m14, "quantserve.com"@);
    let m16 = spec_add_block_rule(m15, "hotjar.com"@);
    let m17 = spec_add_block_rule(m16, "pubmatic.com"@);
    let m18 = spec_add_block_rule(m17, "rubiconproject.com"@);
    let m19 = spec_add_block_rule(m18, "openx.net"@);
    let m20 = spec_add_block_rule(m19, "casalemedia.com"@);
    let m21 = spec_add_block_rule(m20, "advertising.com"@);
    let m22 = spec_add_block_rule(m21, "chartbeat.com"@);
    spec_add_block_rule(m22, "mixpanel.com"@)
}

// ── Request decisions (specification) ────────────────────────────────────────

/// Some domain of the set matches the request's host or its origin's host.
pub open spec fn allowed_by(
    set: Set<Seq<char>>,
    url_host: Option<Seq<char>>,
    origin_host: Option<Seq<char>>,
) -> bool {
    exists|d: Seq<char>|
        #![trigger set.contains(d)]
        set.contains(d) && (spec_host_matches_domain(url_host, d) || spec_host_matches_domain(
            origin_host,
            d,
        ))
}

pub open spec fn spec_rule_matches(r: RuleModel, url_lc: Seq<char>, url_host: Option<Seq<char>>) -> bool {
    match r.kind {
        RuleKindModel::Domain(d) => spec_host_matches_domain(url_host, d),
        RuleKindModel::Substring(p) => contains(url_lc, p),
    }
}

/// The first rule at or after `i` that matches the request.
pub open spec fn first_matching_rule(
    rules: Seq<RuleModel>,
    url_lc: Seq<char>,
    url_host: Option<Seq<char>>,
    i: int,
) -> Option<int>
    decreases rules.len() - i,
{
    if i < 0 || i >= rules.len() {
        None
    } else if spec_rule_matches(rules[i], url_lc, url_host) {
        Some(i)
    } else {
        first_matching_rule(rules, url_lc, url_host, i + 1)
    }
}

/// Whether a request for `url` from `origin` is blocked, and the text of the
/// rule that blocked it.
pub open spec fn spec_block_decision(
    m: AdblockModel,
    url: Seq<char>,
    origin: Seq<char>,
    private: bool,
) -> (bool, Option<Seq<char>>) {
    if !m.enabled {
        (false, None)
    } else {
        let url_lc = lower(url);
        let url_host = spec_extract_host(url_lc);
        let origin_host = spec_extract_host(lower(origin));
        if allowed_by(m.allow, url_host, origin_host) || (private && allowed_by(
            m.session,
            url_host,
            origin_host,
        )) {
            (false, None)
        } else {
            match first_matching_rule(m.rules, url_lc, url_host, 0) {
                Some(i) => (true, Some(m.rules[i].text)),
                None => (false, None),
            }
        }
    }
}

/// The state after a request has been checked: every request is counted, and
/// blocked ones are counted again.
pub open spec fn spec_after_request(
    m: AdblockModel,
    url: Seq<char>,
    origin: Seq<char>,
    private: bool,
) -> AdblockModel {
    AdblockModel {
        total: (m.total + 1) as u64,
        blocked: if spec_block_decision(m, url, origin, private).0 {
            (m.blocked + 1) as u64
        } else {
            m.blocked
        },
        ..m
    }
}

pub open spec fn opt_chars(o: Option<Vec<char>>) -> Option<Seq<char>> {
    match o {
        Some(v) => Some(v@),
        None => None,
    }
}

pub open spec fn opt_view(o: Option<String>) -> Option<Seq<char>> {
    match o {
        Some(s) => Some(s@),
        None => None,
    }
}

// ── Exported rule payload ─────────────────────────────────────────────────────

/// Compact export model used to sync the current effective rules to the
/// WebExtension path.
#[derive(Debug, Clone, PartialEq, Eq)]
pub struct AdblockRulePayload {
    pub version: u32,
    pub enabled: bool,
    pub blocked_domains: Vec<String>,
    pub blocked_substrings: Vec<String>,
    pub allowlist_domains: Vec<String>,
}

/// The domains of the domain rules, in rule order.
pub open spec fn rule_domains(rules: Seq<RuleModel>) -> Seq<Seq<char>>
    decreases rules.len(),
{
    if rules.len() == 0 {
        Seq::empty()
    } else {
        let rest = rule_domains(rules.drop_last());
        match rules.last().kind {
            RuleKindModel::Domain(d) => rest.push(d),
            RuleKindModel::Substring(_) => rest,
        }
    }
}

/// The patterns of the substring rules, in rule order.
pub open spec fn rule_substrings(rules: Seq<RuleModel>) -> Seq<Seq<char>>
    decreases rules.len(),
{
    if rules.len() == 0 {
        Seq::empty()
    } else {
        let rest = rule_substrings(rules.drop_last());
        match rules.last().kind {
            RuleKindModel::Substring(p) => rest.push(p),
            RuleKindModel::Domain(_) => rest,
        }
    }
}

/// One `key=value` line; values that are blank or span lines are left out.
pub open spec fn spec_payload_line(key: Seq<char>, value: Seq<char>) -> Seq<char> {
    let v = trim(value);
    if v.len() == 0 || has_char(v, '\n') || has_char(v, '\r') {
        Seq::empty()
    } else {
        key + seq!['='] + v + seq!['\n']
    }
}

pub open spec fn spec_payload_lines(key: Seq<char>, values: Seq<Seq<char>>) -> Seq<char>
    decreases values.len(),
{
    if values.len() == 0 {
        Seq::empty()
    } else {
        spec_payload_lines(key, values.drop_last()) + spec_payload_line(key, values.last())
    }
}

/// The line-oriented text form of a payload.
pub open spec fn spec_sync_text(
    version: u32,
    enabled: bool,
    domains: Seq<Seq<char>>,
    substrings: Seq<Seq<char>>,
    allow: Seq<Seq<char>>,
) -> Seq<char> {
    "version="@ + dec(version as nat) + seq!['\n'] + (if enabled {
        "enabled=1\n"@
    } else {
        "enabled=0\n"@
    }) + spec_payload_lines("block-domain"@, domains) + spec_payload_lines(
        "block-substring"@,
        substrings,
    ) + spec_payload_lines("allow-domain"@, allow)
}

fn push_payload_line(out: &mut Vec<char>, key: &Vec<char>, value: &Vec<char>)
    ensures
        final(out)@ == old(out)@ + spec_payload_line(key@, value@),
{
    let v = trim_exec(value);
    if v.len() == 0 || has_char_exec(&v, '\n') || has_char_exec(&v, '\r') {
        assert(old(out)@ + Seq::<char>::empty() =~= old(out)@);
        return ;
    }
    extend_chars(out, key);
    out.push('=');
    extend_chars(out, &v);
    out.push('\n');
    assert(out@ =~= old(out)@ + (key@ + seq!['='] + v@ + seq!['\n']));
}

fn push_payload_lines(out: &mut Vec<char>, key: &Vec<char>, values: &Vec<String>)
    ensures
        final(out)@ == old(out)@ + spec_payload_lines(key@, views(values@)),
{
    let mut i: usize = 0;
    while i < values.len()
        invariant
            i <= values.len(),
            out@ == old(out)@ + spec_payload_lines(key@, views(values@).take(i as int)),
        decreases values.len() - i,
    {
        let v = chars_of(values[i].as_str());
        let ghost before = out@;
        push_payload_line(out, key, &v);
        i = i + 1;
        proof {
            let t = views(values@).take(i as int);
            assert(t.drop_last() =~= views(values@).take(i - 1));
            assert(t.last() == v@);
            assert(out@ =~= old(out)@ + spec_payload_lines(key@, t));
        }
    }
    assert(views(values@).take(values.len() as int) =~= views(values@));
}

impl AdblockRulePayload {
    /// The line-oriented text form used to hand the rules to the extension.
    pub fn to_sync_text(&self) -> (s: String)
        ensures
            s@ == spec_sync_text(
                self.version,
                self.enabled,
                views(self.blocked_domains@),
                views(self.blocked_substrings@),
                views(self.allowlist_domains@),
            ),
    {
        let mut out = lit("version=");
        let num = dec_u64(self.version as u64);
        extend_chars(&mut out, &num);
        out.push('\n');
        if self.enabled {
            extend_chars(&mut out, &lit("enabled=1\n"));
        } else {
            extend_chars(&mut out, &lit("enabled=0\n"));
        }
        let ghost head = out@;
        push_payload_lines(&mut out, &lit("block-domain"), &self.blocked_domains);
        push_payload_lines(&mut out, &lit("block-substring"), &self.blocked_substrings);
        push_payload_lines(&mut out, &lit("allow-domain"), &self.allowlist_domains);
        let r = string_of(&out);
        assert(r@ =~= spec_sync_text(
            self.version,
            self.enabled,
            views(self.blocked_domains@),
            views(self.blocked_substrings@),
            views(self.allowlist_domains@),
        ));
        r
    }
}


// ── The engine ────────────────────────────────────────────────────────────────

/// The adblock engine — holds all rules and evaluates requests.
pub struct AdblockEngine {
    rules: Vec<Rule>,
    /// Domains that are always allowed (kept sorted).
    allowlist: Vec<String>,
    /// Session-only allowlist used by private tabs (kept sorted).
    session_allowlist: Vec<String>,
    enabled: bool,
    blocked_count: u64,
    total_count: u64,
}

impl View for AdblockEngine {
    type V = AdblockModel;

    closed spec fn view(&self) -> AdblockModel {
        AdblockModel {
            rules: rules_view(self.rules@),
            allow: views(self.allowlist@).to_set(),
            session: views(self.session_allowlist@).to_set(),
            enabled: self.enabled,
            blocked: self.blocked_count,
            total: self.total_count,
        }
    }
}

fn find_rule_with_text(rules: &Vec<Rule>, text: &Vec<char>) -> (r: Option<usize>)
    ensures
        match r {
            Some(i) => i < rules@.len() && rule_with_text_from(rules_view(rules@), text@, 0) == Some(
                i as int,
            ),
            None => rule_with_text_from(rules_view(rules@), text@, 0) is None,
        },
{
    let ghost rv = rules_view(rules@);
    let mut i: usize = 0;
    while i < rules.len()
        invariant
            i <= rules.len(),
            rv == rules_view(rules@),
            rule_with_text_from(rv, text@, 0) == rule_with_text_from(rv, text@, i as int),
        decreases rules.len() - i,
    {
        if seq_eq(&chars_of(rules[i].text.as_str()), text) {
            return Some(i);
        }
        i = i + 1;
    }
    None
}

fn rule_for(raw: &Vec<char>) -> (r: Option<Rule>)
    ensures
        match r {
            Some(rule) => spec_rule_for(raw@) == Some(rule@),
            None => spec_rule_for(raw@) is None,
        },
{
    let text = to_lower(&trim_exec(raw));
    if text.len() == 0 {
        return None;
    }
    let kind = if has_char_exec(&text, '/') {
        RuleKind::Substring(string_of(&text))
    } else {
        RuleKind::Domain(string_of(&normalize_domain(&text)))
    };
    Some(Rule { text: string_of(&text), third_party: true, kind })
}

impl AdblockEngine {
    /// The allowlists are kept sorted, and no more requests have been blocked
    /// than checked.
    pub closed spec fn wf(&self) -> bool {
        &&& sorted_strict(views(self.allowlist@))
        &&& sorted_strict(views(self.session_allowlist@))
        &&& self.blocked_count <= self.total_count
    }

    /// The persistent allowlist, sorted.
    pub closed spec fn allow_list(&self) -> Seq<Seq<char>> {
        views(self.allowlist@)
    }

    /// Blocked requests never outnumber the requests seen: this holds of every
    /// well-formed engine, and every method keeps it.
    pub proof fn law_blocked_within_total(&self)
        requires
            self.wf(),
        ensures
            self@.blocked <= self@.total,
    {
    }

    pub proof fn lemma_allow_list(&self)
        requires
            self.wf(),
        ensures
            lists_set(self.allow_list(), self@.allow),
    {
    }

    /// An engine holding the built-in ad/tracker domains.
    pub fn new() -> (e: Self)
        ensures
            e.wf(),
            e@ == spec_default_engine(),
    {
        let mut engine = Self {
            rules: Vec::new(),
            allowlist: Vec::new(),
            session_allowlist: Vec::new(),
            enabled: true,
            blocked_count: 0,
            total_count: 0,
        };
        assert(views(engine.allowlist@).to_set() =~= Set::empty());
        assert(views(engine.session_allowlist@).to_set() =~= Set::empty());
        assert(rules_view(engine.rules@) =~= Seq::empty());
        engine.load_default_rules();
        engine
    }

    /// Load built-in default rules (common ad/tracker domains).
    fn load_default_rules(&mut self)
        requires
            old(self).wf(),
            old(self)@ == (AdblockModel {
                rules: Seq::empty(),
                allow: Set::empty(),
                session: Set::empty(),
                enabled: true,
                blocked: 0,
                total: 0,
            }),
        ensures
            final(self).wf(),
            final(self)@ == spec_default_engine(),
    {
        self.add_block_rule("doubleclick.net");
        self.add_block_rule("googlesyndication.com");
        self.add_block_rule("google-analytics.com");
        self.add_block_rule("googletagmanager.com");
        self.add_block_rule("facebook.net");
        self.add_block_rule("facebook.com/tr");
        self.add_block_rule("adsystem.com");
        self.add_block_rule("adservice.google.com");
        self.add_block_rule("scorecardresearch.com");
        self.add_block_rule("adnxs.com");
        self.add_block_rule("criteo.com");
        self.add_block_rule("taboola.com");
        self.add_block_rule("outbrain.com");
        self.add_block_rule("moatads.com");
        self.add_block_rule("quantserve.com");
        self.add_block_rule("hotjar.com");
        self.add_block_rule("pubmatic.com");
        self.add_block_rule("rubiconproject.com");
        self.add_block_rule("openx.net");
        self.add_block_rule("casalemedia.com");
        self.add_block_rule("advertising.com");
        self.add_block_rule("chartbeat.com");
        self.add_block_rule("mixpanel.com");
    }

    fn add_rule_chars(&mut self, raw: &Vec<char>)
        requires
            old(self).wf(),
        ensures
            final(self).wf(),
            final(self)@ == spec_add_block_rule(old(self)@, raw@),
    {
        match rule_for(raw) {
            Some(rule) => {
                self.rules.push(rule);
                assert(rules_view(self.rules@) =~= rules_view(old(self).rules@).push(rule@));
            },
            None => {},
        }
    }

    /// Adds a block rule: text containing `/` matches URLs by substring, other
    /// text matches a domain and its subdomains.
    pub fn add_block_rule(&mut self, rule_text: &str)
        requires
            old(self).wf(),
        ensures
            final(self).wf(),
            final(self)@ == spec_add_block_rule(old(self)@, rule_text@),
    {
        let raw = chars_of(rule_text);
        self.add_rule_chars(&raw);
    }

    fn allowlist_chars(&mut self, raw: &Vec<char>, private: bool)
        requires
            old(self).wf(),
        ensures
            final(self).wf(),
            final(self)@ == spec_allowlist_domain(old(self)@, raw@, private),
    {
        let domain = normalize_domain(raw);
        if domain.len() != 0 {
            if private {
                sorted_insert(&mut self.session_allowlist, string_of(&domain));
            } else {
                sorted_insert(&mut self.allowlist, string_of(&domain));
            }
        }
    }

    pub fn allowlist_domain(&mut self, domain: &str)
        requires
            old(self).wf(),
        ensures
            final(self).wf(),
            final(self)@ == spec_allowlist_domain(old(self)@, domain@, false),
    {
        self.allowlist_domain_for_context(domain, false);
    }

    /// Allowlists a domain; for a private context only for the session.
    pub fn allowlist_domain_for_context(&mut self, domain: &str, private: bool)
        requires
            old(self).wf(),
        ensures
            final(self).wf(),
            final(self)@ == spec_allowlist_domain(old(self)@, domain@, private),
    {
        let raw = chars_of(domain);
        self.allowlist_chars(&raw, private);
    }

    pub fn remove_allowlist_domain(&mut self, domain: &str)
        requires
            old(self).wf(),
        ensures
            final(self).wf(),
            final(self)@ == spec_remove_allowlist_domain(old(self)@, domain@, false),
    {
        self.remove_allowlist_domain_for_context(domain, false);
    }

    pub fn remove_allowlist_domain_for_context(&mut self, domain: &str, private: bool)
        requires
            old(self).wf(),
        ensures
            final(self).wf(),
            final(self)@ == spec_remove_allowlist_domain(old(self)@, domain@, private),
    {
        let d = normalize_domain(&chars_of(domain));
        if private {
            sorted_remove(&mut self.session_allowlist, &d);
        } else {
            sorted_remove(&mut self.allowlist, &d);
        }
    }

    pub fn is_allowlisted_domain(&self, domain: &str, private: bool) -> (b: bool)
        requires
            self.wf(),
        ensures
            b == spec_is_allowlisted(self@, domain@, private),
    {
        let d = normalize_domain(&chars_of(domain));
        sorted_contains(&self.allowlist, &d) || (private && sorted_contains(
            &self.session_allowlist,
            &d,
        ))
    }

    pub fn is_enabled(&self) -> (b: bool)
        ensures
            b == self@.enabled,
    {
        self.enabled
    }

    pub fn set_enabled(&mut self, enabled: bool)
        requires
            old(self).wf(),
        ensures
            final(self).wf(),
            final(self)@ == (AdblockModel { enabled, ..old(self)@ }),
    {
        self.enabled = enabled;
    }

    pub fn blocked_count(&self) -> (n: u64)
        ensures
            n == self@.blocked,
    {
        self.blocked_count
    }

    pub fn total_count(&self) -> (n: u64)
        ensures
            n == self@.total,
    {
        self.total_count
    }

    /// The persistent allowlist, sorted.
    pub fn allowlist_entries(&self) -> (v: Vec<String>)
        requires
            self.wf(),
        ensures
            lists_set(views(v@), self@.allow),
    {
        clone_strings(&self.allowlist)
    }
}


impl AdblockEngine {
    fn allowed_by_exec(list: &Vec<String>, url_host: &Option<Vec<char>>, origin_host: &Option<Vec<char>>) -> (b: bool)
        ensures
            b == allowed_by(views(list@).to_set(), opt_chars(*url_host), opt_chars(*origin_host)),
    {
        let mut i: usize = 0;
        while i < list.len()
            invariant
                i <= list.len(),
                forall|k: int|
                    0 <= k < i ==> !(spec_host_matches_domain(
                        opt_chars(*url_host),
                        #[trigger] views(list@)[k],
                    ) || spec_host_matches_domain(opt_chars(*origin_host), views(list@)[k])),
            decreases list.len() - i,
        {
            let d = chars_of(list[i].as_str());
            assert(d@ == views(list@)[i as int]);
            if host_matches_domain(url_host, &d) || host_matches_domain(origin_host, &d) {
                assert(views(list@).to_set().contains(d@));
                return true;
            }
            i = i + 1;
        }
        proof {
            let set = views(list@).to_set();
            assert forall|d: Seq<char>| #[trigger] set.contains(d) implies !(spec_host_matches_domain(
                opt_chars(*url_host),
                d,
            ) || spec_host_matches_domain(opt_chars(*origin_host), d)) by {
                let k = choose|k: int| 0 <= k < views(list@).len() && views(list@)[k] == d;
                assert(views(list@)[k] == d);
            }
        }
        false
    }

    fn rule_matches_exec(rule: &Rule, url_lc: &Vec<char>, url_host: &Option<Vec<char>>) -> (b: bool)
        ensures
            b == spec_rule_matches(rule@, url_lc@, opt_chars(*url_host)),
    {
        match &rule.kind {
            RuleKind::Domain(d) => host_matches_domain(url_host, &chars_of(d.as_str())),
            RuleKind::Substring(p) => contains_exec(url_lc, &chars_of(p.as_str())),
        }
    }

    /// Check if a request should be blocked.
    pub fn should_block(&mut self, url: &str, origin: &str) -> (r: (bool, Option<String>))
        requires
            old(self).wf(),
            old(self)@.total < u64::MAX,
        ensures
            final(self).wf(),
            (r.0, opt_view(r.1)) == spec_block_decision(old(self)@, url@, origin@, false),
            final(self)@ == spec_after_request(old(self)@, url@, origin@, false),
    {
        self.should_block_for_context(url, origin, false)
    }

    /// Check a request; private contexts also honour the session allowlist.
    pub fn should_block_for_context(&mut self, url: &str, origin: &str, private: bool) -> (r: (
        bool,
        Option<String>,
    ))
        requires
            old(self).wf(),
            old(self)@.total < u64::MAX,
        ensures
            final(self).wf(),
            (r.0, opt_view(r.1)) == spec_block_decision(old(self)@, url@, origin@, private),
            final(self)@ == spec_after_request(old(self)@, url@, origin@, private),
    {
        self.total_count = self.total_count + 1;
        if !self.enabled {
            return (false, None);
        }
        let url_lc = to_lower(&chars_of(url));
        let origin_lc = to_lower(&chars_of(origin));
        let url_host = extract_host(&url_lc);
        let origin_host = extract_host(&origin_lc);
        if Self::allowed_by_exec(&self.allowlist, &url_host, &origin_host) {
            return (false, None);
        }
        if private && Self::allowed_by_exec(&self.session_allowlist, &url_host, &origin_host) {
            return (false, None);
        }
        let ghost rules = rules_view(self.rules@);
        let mut i: usize = 0;
        while i < self.rules.len()
            invariant
                i <= self.rules.len(),
                rules == rules_view(self.rules@),
                self.rules == old(self).rules,
                self.allowlist == old(self).allowlist,
                self.session_allowlist == old(self).session_allowlist,
                self.enabled == old(self).enabled,
                self.enabled,
                self.total_count == old(self).total_count + 1,
                self.blocked_count == old(self).blocked_count,
                old(self).wf(),
                !allowed_by(old(self)@.allow, opt_chars(url_host), opt_chars(origin_host)),
                !(private && allowed_by(old(self)@.session, opt_chars(url_host), opt_chars(origin_host))),
                url_lc@ == lower(url@),
                opt_chars(url_host) == spec_extract_host(lower(url@)),
                opt_chars(origin_host) == spec_extract_host(lower(origin@)),
                first_matching_rule(rules, url_lc@, opt_chars(url_host), 0) == first_matching_rule(
                    rules,
                    url_lc@,
                    opt_chars(url_host),
                    i as int,
                ),
            decreases self.rules.len() - i,
        {
            if Self::rule_matches_exec(&self.rules[i], &url_lc, &url_host) {
                self.blocked_count = self.blocked_count + 1;
                return (true, Some(self.rules[i].text.clone()));
            }
            i = i + 1;
        }
        (false, None)
    }

    /// Backward-compatible helper for the text fallback client: removes the
    /// first rule with this (normalised) text, or adds it when there is none.
    pub fn toggle_rule(&mut self, rule_text: &str)
        requires
            old(self).wf(),
        ensures
            final(self).wf(),
            final(self)@ == spec_toggle_rule(old(self)@, rule_text@),
    {
        let normalized = to_lower(&trim_exec(&chars_of(rule_text)));
        match find_rule_with_text(&self.rules, &normalized) {
            Some(i) => {
                let ghost rules = rules_view(self.rules@);
                self.rules.remove(i);
                assert(rules_view(self.rules@) =~= rules.remove(i as int));
            },
            None => {
                self.add_rule_chars(&normalized);
            },
        }
    }


    /// Load additional lightweight rules from text.
    ///
    /// Supported syntax:
    /// - blank lines and `!` comments are ignored
    /// - `@@domain.tld` adds a domain allowlist rule
    /// - lines without `/` are domain rules
    /// - lines with `/` are URL substring rules
    pub fn load_rules_from_text(&mut self, text: &str)
        requires
            old(self).wf(),
        ensures
            final(self).wf(),
            final(self)@ == spec_load_rules(old(self)@, text@),
    {
        let t = chars_of(text);
        let mut cur: Vec<char> = Vec::new();
        let mut i: usize = 0;
        while i < t.len()
            invariant
                i <= t.len(),
                self.wf(),
                (self@, cur@) == t@.take(i as int).fold_left(
                    (old(self)@, Seq::<char>::empty()),
                    load_step_fn(),
                ),
            decreases t.len() - i,
        {
            let c = t[i];
            if c == '\n' {
                self.apply_rule_line(&cur);
                cur = Vec::new();
            } else {
                cur.push(c);
            }
            i = i + 1;
            assert(t@.take(i as int).drop_last() =~= t@.take(i - 1));
        }
        assert(t@.take(t.len() as int) =~= t@);
        self.apply_rule_line(&cur);
    }

    fn apply_rule_line(&mut self, line: &Vec<char>)
        requires
            old(self).wf(),
        ensures
            final(self).wf(),
            final(self)@ == spec_apply_rule_line(old(self)@, line@),
    {
        let l = trim_exec(line);
        if l.len() == 0 || l[0] == '!' {
            return ;
        }
        let at = vec!['@', '@'];
        assert(at@ == seq!['@', '@']);
        if starts_with_exec(&l, &at) {
            let d = strip_prefix_rep_exec(&l, &at);
            self.allowlist_chars(&d, false);
        } else {
            self.add_rule_chars(&l);
        }
    }
}


// ── Export ────────────────────────────────────────────────────────────────────

/// The allowlist a context sees: private contexts add the session entries.
pub open spec fn spec_effective_allow(m: AdblockModel, private: bool) -> Set<Seq<char>> {
    if private {
        m.allow.union(m.session)
    } else {
        m.allow
    }
}

impl AdblockEngine {
    /// The current effective rules as a structured payload.
    pub fn export_rule_payload_for_context(&self, private: bool) -> (p: AdblockRulePayload)
        requires
            self.wf(),
        ensures
            p.version == ADBLOCK_RULE_PAYLOAD_VERSION,
            p.enabled == self@.enabled,
            views(p.blocked_domains@) == rule_domains(self@.rules),
            views(p.blocked_substrings@) == rule_substrings(self@.rules),
            lists_set(views(p.allowlist_domains@), spec_effective_allow(self@, private)),
    {
        let mut blocked_domains: Vec<String> = Vec::new();
        let mut blocked_substrings: Vec<String> = Vec::new();
        let ghost rules = rules_view(self.rules@);
        let mut i: usize = 0;
        while i < self.rules.len()
            invariant
                i <= self.rules.len(),
                rules == rules_view(self.rules@),
                views(blocked_domains@) == rule_domains(rules.take(i as int)),
                views(blocked_substrings@) == rule_substrings(rules.take(i as int)),
            decreases self.rules.len() - i,
        {
            let ghost bd = blocked_domains@;
            let ghost bs = blocked_substrings@;
            match &self.rules[i].kind {
                RuleKind::Domain(domain) => blocked_domains.push(domain.clone()),
                RuleKind::Substring(pattern) => blocked_substrings.push(pattern.clone()),
            }
            i = i + 1;
            proof {
                assert(rules.take(i as int).drop_last() =~= rules.take(i - 1));
                assert(views(blocked_domains@) =~= rule_domains(rules.take(i as int)));
                assert(views(blocked_substrings@) =~= rule_substrings(rules.take(i as int)));
            }
        }
        assert(rules.take(self.rules.len() as int) =~= rules);
        let allowlist_domains = if private {
            sorted_union(&self.allowlist, &self.session_allowlist)
        } else {
            clone_strings(&self.allowlist)
        };
        AdblockRulePayload {
            version: ADBLOCK_RULE_PAYLOAD_VERSION,
            enabled: self.enabled,
            blocked_domains,
            blocked_substrings,
            allowlist_domains,
        }
    }

    /// The current effective rules in their line-oriented text form.
    pub fn export_rule_sync_text_for_context(&self, private: bool) -> (s: String)
        requires
            self.wf(),
        ensures
            s@ == spec_sync_text(
                ADBLOCK_RULE_PAYLOAD_VERSION,
                self@.enabled,
                rule_domains(self@.rules),
                rule_substrings(self@.rules),
                sorted_list(spec_effective_allow(self@, private)),
            ),
    {
        let p = self.export_rule_payload_for_context(private);
        proof {
            lemma_sorted_list(views(p.allowlist_domains@), spec_effective_allow(self@, private));
        }
        p.to_sync_text()
    }
}

// ── Allowlist persistence format ─────────────────────────────────────────────

/// Line `k` of an `n`-element JSON array written one element per line.
pub open spec fn json_item_line(e: Seq<char>, k: int, n: int) -> Seq<char> {
    seq![' ', ' '] + spec_json_str(e) + (if k + 1 < n {
        seq![',']
    } else {
        Seq::empty()
    }) + seq!['\n']
}

pub open spec fn json_items(es: Seq<Seq<char>>, i: int) -> Seq<char>
    decreases i,
{
    if i <= 0 || i > es.len() {
        Seq::empty()
    } else {
        json_items(es, i - 1) + json_item_line(es[i - 1], i - 1, es.len() as int)
    }
}

/// The allowlist file contents: a JSON array of strings, one per line.
pub open spec fn spec_json_array_text(es: Seq<Seq<char>>) -> Seq<char> {
    seq!['[', '\n'] + json_items(es, es.len() as int) + seq![']', '\n']
}

/// Scanner state while reading the strings of a JSON array.
pub struct ArrayScan {
    pub in_str: bool,
    pub esc: bool,
    pub cur: Seq<char>,
    pub out: Seq<Seq<char>>,
}

pub open spec fn array_step(st: ArrayScan, ch: char) -> ArrayScan {
    if st.in_str {
        if st.esc {
            ArrayScan { cur: st.cur.push(unescape_char(ch)), esc: false, ..st }
        } else if ch == '\\' {
            ArrayScan { esc: true, ..st }
        } else if ch == '"' {
            let t = trim(st.cur);
            ArrayScan {
                in_str: false,
                esc: false,
                cur: Seq::empty(),
                out: if t.len() == 0 {
                    st.out
                } else {
                    st.out.push(lower(t))
                },
            }
        } else {
            ArrayScan { cur: st.cur.push(ch), ..st }
        }
    } else if ch == '"' {
        ArrayScan { in_str: true, ..st }
    } else {
        st
    }
}

pub open spec fn array_step_fn() -> spec_fn(ArrayScan, char) -> ArrayScan {
    |st: ArrayScan, ch: char| array_step(st, ch)
}

pub open spec fn array_scan_init() -> ArrayScan {
    ArrayScan { in_str: false, esc: false, cur: Seq::empty(), out: Seq::empty() }
}

/// The non-blank strings of a JSON array, trimmed and lower-cased; anything
/// that is not inside a string is skipped.
pub open spec fn spec_parse_string_array(text: Seq<char>) -> Seq<Seq<char>> {
    text.fold_left(array_scan_init(), array_step_fn()).out
}

fn parse_string_array(text: &Vec<char>) -> (r: Vec<Vec<char>>)
    ensures
        r@.map_values(|v: Vec<char>| v@) == spec_parse_string_array(text@),
{
    let mut out: Vec<Vec<char>> = Vec::new();
    let mut in_str = false;
    let mut esc = false;
    let mut cur: Vec<char> = Vec::new();
    let mut i: usize = 0;
    assert(out@.map_values(|v: Vec<char>| v@) =~= Seq::<Seq<char>>::empty());
    assert(text@.take(0) =~= Seq::<char>::empty());
    while i < text.len()
        invariant
            i <= text.len(),
            (ArrayScan {
                in_str,
                esc,
                cur: cur@,
                out: out@.map_values(|v: Vec<char>| v@),
            }) == text@.take(i as int).fold_left(array_scan_init(), array_step_fn()),
        decreases text.len() - i,
    {
        let ch = text[i];
        let ghost before = out@.map_values(|v: Vec<char>| v@);
        if in_str {
            if esc {
                let u = if ch == 'n' {
                    '\n'
                } else if ch == 'r' {
                    '\r'
                } else if ch == 't' {
                    '\t'
                } else {
                    ch
                };
                cur.push(u);
                esc = false;
            } else if ch == '\\' {
                esc = true;
            } else if ch == '"' {
                let t = trim_exec(&cur);
                if t.len() != 0 {
                    out.push(to_lower(&t));
                }
                cur = Vec::new();
                in_str = false;
            } else {
                cur.push(ch);
            }
        } else if ch == '"' {
            in_str = true;
        }
        i = i + 1;
        proof {
            assert(text@.take(i as int).drop_last() =~= text@.take(i - 1));
            assert(out@.map_values(|v: Vec<char>| v@) =~= array_step(
                text@.take(i - 1).fold_left(array_scan_init(), array_step_fn()),
                ch,
            ).out);
        }
    }
    assert(text@.take(text.len() as int) =~= text@);
    out
}

/// The allowed domains that loading `entries` into an empty allowlist yields.
pub open spec fn allow_from_entries(es: Seq<Seq<char>>) -> Set<Seq<char>>
    decreases es.len(),
{
    if es.len() == 0 {
        Set::empty()
    } else {
        let rest = allow_from_entries(es.drop_last());
        let d = spec_normalize_domain(es.last());
        if d.len() == 0 {
            rest
        } else {
            rest.insert(d)
        }
    }
}

impl AdblockEngine {
    /// Replaces the persistent allowlist with the domains listed in `text`
    /// (the allowlist file's contents).
    pub fn load_allowlist_from_text(&mut self, text: &str)
        requires
            old(self).wf(),
        ensures
            final(self).wf(),
            final(self)@ == (AdblockModel {
                allow: allow_from_entries(spec_parse_string_array(text@)),
                ..old(self)@
            }),
    {
        let entries = parse_string_array(&chars_of(text));
        let ghost es = entries@.map_values(|v: Vec<char>| v@);
        self.allowlist = Vec::new();
        assert(views(self.allowlist@).to_set() =~= Set::empty());
        let mut i: usize = 0;
        while i < entries.len()
            invariant
                i <= entries.len(),
                es == entries@.map_values(|v: Vec<char>| v@),
                self.wf(),
                self@ == (AdblockModel { allow: allow_from_entries(es.take(i as int)), ..old(self)@ }),
            decreases entries.len() - i,
        {
            self.allowlist_chars(&entries[i], false);
            i = i + 1;
            assert(es.take(i as int).drop_last() =~= es.take(i - 1));
        }
        assert(es.take(entries.len() as int) =~= es);
    }

    /// The allowlist file contents for the current persistent allowlist.
    pub fn allowlist_json(&self) -> (s: String)
        requires
            self.wf(),
        ensures
            s@ == spec_json_array_text(sorted_list(self@.allow)),
    {
        let ghost es = views(self.allowlist@);
        proof {
            lemma_sorted_list(es, self@.allow);
        }
        let n = self.allowlist.len();
        let mut out = vec!['[', '\n'];
        let mut i: usize = 0;
        while i < n
            invariant
                i <= n,
                n == self.allowlist.len(),
                es == views(self.allowlist@),
                out@ == seq!['[', '\n'] + json_items(es, i as int),
            decreases n - i,
        {
            out.push(' ');
            out.push(' ');
            let j = json_str_chars(&chars_of(self.allowlist[i].as_str()));
            extend_chars(&mut out, &j);
            if i + 1 < n {
                out.push(',');
            }
            out.push('\n');
            i = i + 1;
            assert(out@ =~= seq!['[', '\n'] + json_items(es, i as int));
        }
        out.push(']');
        out.push('\n');
        assert(out@ =~= spec_json_array_text(es));
        string_of(&out)
    }
}


// ── Laws ──────────────────────────────────────────────────────────────────────

proof fn lemma_first_rule_upto(
    rules: Seq<RuleModel>,
    url_lc: Seq<char>,
    url_host: Option<Seq<char>>,
    i: int,
    t: int,
)
    requires
        0 <= i <= t < rules.len(),
        spec_rule_matches(rules[t], url_lc, url_host),
    ensures
        first_matching_rule(rules, url_lc, url_host, i) matches Some(j) && i <= j <= t,
    decreases t - i,
{
    if !spec_rule_matches(rules[i], url_lc, url_host) {
        lemma_first_rule_upto(rules, url_lc, url_host, i + 1, t);
    }
}

/// A domain rule blocks requests to its domain itself and to every
/// subdomain of it (a host ending in "." and the domain), unless an
/// allowlist lets the request through; the reason given is the text of the
/// first rule that matches, which is this rule or one before it.
pub proof fn law_domain_rule_blocks_its_hosts(
    m: AdblockModel,
    url: Seq<char>,
    origin: Seq<char>,
    private: bool,
    t: int,
    d: Seq<char>,
)
    requires
        m.enabled,
        0 <= t < m.rules.len(),
        m.rules[t].kind == RuleKindModel::Domain(d),
        spec_extract_host(lower(url)) matches Some(h) && (h == d || ends_with(h, seq!['.'] + d)),
        !allowed_by(m.allow, spec_extract_host(lower(url)), spec_extract_host(lower(origin))),
        !(private && allowed_by(m.session, spec_extract_host(lower(url)), spec_extract_host(lower(origin)))),
    ensures
        spec_block_decision(m, url, origin, private).0,
        exists|j: int|
            0 <= j <= t && spec_block_decision(m, url, origin, private).1 == Some(
                #[trigger] m.rules[j].text,
            ),
{
    let url_lc = lower(url);
    lemma_first_rule_upto(m.rules, url_lc, spec_extract_host(url_lc), 0, t);
    let j = first_matching_rule(m.rules, url_lc, spec_extract_host(url_lc), 0)->0;
    assert(m.rules[j].text == m.rules[j].text);
}

/// A switched-off engine blocks nothing.
pub proof fn law_disabled_never_blocks(m: AdblockModel, url: Seq<char>, origin: Seq<char>, private: bool)
    requires
        !m.enabled,
    ensures
        spec_block_decision(m, url, origin, private) == (false, None::<Seq<char>>),
{
}

/// Allowlisting a domain lets every request to that domain or its subdomains
/// through, whatever the block rules say.
pub proof fn law_allowlist_overrides_block_rules(
    m: AdblockModel,
    domain: Seq<char>,
    url: Seq<char>,
    origin: Seq<char>,
    private: bool,
)
    requires
        spec_normalize_domain(domain).len() > 0,
        spec_host_matches_domain(spec_extract_host(lower(url)), spec_normalize_domain(domain)),
    ensures
        !spec_block_decision(spec_allowlist_domain(m, domain, false), url, origin, private).0,
{
    let d = spec_normalize_domain(domain);
    let m2 = spec_allowlist_domain(m, domain, false);
    assert(m2.allow.contains(d));
    assert(allowed_by(m2.allow, spec_extract_host(lower(url)), spec_extract_host(lower(origin))));
}

/// A session-only allowlist entry lets requests through in private contexts
/// only: ordinary contexts decide as before.
pub proof fn law_private_allowlist_is_session_only(
    m: AdblockModel,
    domain: Seq<char>,
    url: Seq<char>,
    origin: Seq<char>,
)
    ensures
        spec_block_decision(spec_allowlist_domain(m, domain, true), url, origin, false)
            == spec_block_decision(m, url, origin, false),
        spec_is_allowlisted(spec_allowlist_domain(m, domain, true), domain, false)
            == spec_is_allowlisted(m, domain, false),
        spec_normalize_domain(domain).len() > 0 ==> spec_is_allowlisted(
            spec_allowlist_domain(m, domain, true),
            domain,
            true,
        ),
{
}

/// Allowlisting a domain and then removing it again restores the allowlists,
/// when the domain was not allowlisted before.
pub proof fn law_remove_undoes_allowlist(m: AdblockModel, domain: Seq<char>, private: bool)
    requires
        !m.allow.contains(spec_normalize_domain(domain)),
        !m.session.contains(spec_normalize_domain(domain)),
    ensures
        spec_remove_allowlist_domain(spec_allowlist_domain(m, domain, private), domain, private) == m,
{
    let d = spec_normalize_domain(domain);
    assert(m.allow.insert(d).remove(d) =~= m.allow);
    assert(m.session.insert(d).remove(d) =~= m.session);
    assert(m.allow.remove(d) =~= m.allow);
    assert(m.session.remove(d) =~= m.session);
}

proof fn lemma_lower_char_keeps_non_ws(c: char)
    ensures
        !is_ws(c) ==> !is_ws(lower_char(c)),
        lower_char(lower_char(c)) == lower_char(c),
{
}

proof fn lemma_skip_while_stops(s: Seq<char>, p: spec_fn(char) -> bool)
    requires
        s.len() > 0,
        !p(s[0]),
    ensures
        skip_while(s, p, 0) == 0,
{
}

proof fn lemma_back_while_stops(s: Seq<char>, p: spec_fn(char) -> bool)
    requires
        s.len() > 0,
        !p(s[s.len() - 1]),
    ensures
        back_while(s, p, s.len() as int) == s.len(),
{
}

proof fn lemma_skip_while_bounds(s: Seq<char>, p: spec_fn(char) -> bool, i: int)
    requires
        0 <= i <= s.len(),
    ensures
        i <= skip_while(s, p, i) <= s.len(),
        skip_while(s, p, i) < s.len() ==> !p(s[skip_while(s, p, i)]),
    decreases s.len() - i,
{
    if 0 <= i < s.len() && p(s[i]) {
        lemma_skip_while_bounds(s, p, i + 1);
    }
}

proof fn lemma_back_while_bounds(s: Seq<char>, p: spec_fn(char) -> bool, j: int)
    requires
        0 <= j <= s.len(),
    ensures
        0 <= back_while(s, p, j) <= j,
        back_while(s, p, j) > 0 ==> !p(s[back_while(s, p, j) - 1]),
    decreases j,
{
    if 0 < j <= s.len() && p(s[j - 1]) {
        lemma_back_while_bounds(s, p, j - 1);
    }
}

/// Trimmed text starts and ends with a non-blank character.
proof fn lemma_trim_ends(s: Seq<char>)
    ensures
        trim(s).len() > 0 ==> !is_ws(trim(s)[0]) && !is_ws(trim(s)[trim(s).len() - 1]),
{
    let p = ws_pred();
    lemma_skip_while_bounds(s, p, 0);
    let a = trim_start_by(s, p);
    lemma_back_while_bounds(a, p, a.len() as int);
    let k = back_while(a, p, a.len() as int);
    if k > 0 {
        assert(trim(s) =~= a.take(k));
        let i0 = skip_while(s, p, 0);
        assert(a[0] == s[i0]);
    }
}

/// Lower-casing text that is already trimmed leaves nothing to trim, and
/// lower-casing twice is lower-casing once.
proof fn lemma_trim_lower_trim(raw: Seq<char>)
    ensures
        trim(lower(trim(raw))) == lower(trim(raw)),
        lower(lower(trim(raw))) == lower(trim(raw)),
{
    let t = trim(raw);
    let n = lower(t);
    lemma_trim_ends(raw);
    assert forall|i: int| 0 <= i < t.len() implies lower_char(lower_char(t[i])) == lower_char(t[i]) by {
        lemma_lower_char_keeps_non_ws(t[i]);
    }
    assert(lower(n) =~= n);
    if n.len() > 0 {
        lemma_lower_char_keeps_non_ws(t[0]);
        lemma_lower_char_keeps_non_ws(t[t.len() - 1]);
        lemma_skip_while_stops(n, ws_pred());
        let a = trim_start_by(n, ws_pred());
        assert(a =~= n);
        lemma_back_while_stops(n, ws_pred());
        assert(trim(n) =~= n);
    } else {
        assert(trim(n) =~= n);
    }
}

proof fn lemma_rule_with_text_push(rules: Seq<RuleModel>, r: RuleModel, text: Seq<char>, i: int)
    requires
        0 <= i <= rules.len(),
        rule_with_text_from(rules, text, i) is None,
        r.text == text,
    ensures
        rule_with_text_from(rules.push(r), text, i) == Some(rules.len() as int),
    decreases rules.len() - i,
{
    if i < rules.len() {
        assert(rules.push(r)[i] == rules[i]);
        lemma_rule_with_text_push(rules, r, text, i + 1);
    }
}

/// Toggling a rule that is not there adds it; toggling it again takes it out,
/// which leaves the rules as they were.
pub proof fn law_toggle_twice_restores(m: AdblockModel, raw: Seq<char>)
    requires
        rule_with_text_from(m.rules, lower(trim(raw)), 0) is None,
    ensures
        spec_toggle_rule(spec_toggle_rule(m, raw), raw) == m,
{
    let n = lower(trim(raw));
    lemma_trim_lower_trim(raw);
    let m1 = spec_toggle_rule(m, raw);
    assert(m1 == spec_add_block_rule(m, n));
    if n.len() > 0 {
        let r = spec_rule_for(n)->0;
        assert(r.text == n);
        assert(m1.rules == m.rules.push(r));
        lemma_rule_with_text_push(m.rules, r, n, 0);
        assert(m1.rules.remove(m.rules.len() as int) =~= m.rules);
    } else {
        assert(spec_rule_for(n) is None);
    }
}


// ── Reading back a saved allowlist ───────────────────────────────────────────

proof fn lemma_fold_concat(a: Seq<char>, b: Seq<char>, st: ArrayScan)
    ensures
        (a + b).fold_left(st, array_step_fn()) == b.fold_left(a.fold_left(st, array_step_fn()), array_step_fn()),
{
    let ab = a + b;
    ab.lemma_fold_left_split(st, array_step_fn(), a.len() as int);
    assert(ab.subrange(0, a.len() as int) =~= a);
    assert(ab.subrange(a.len() as int, ab.len() as int) =~= b);
}

proof fn lemma_fold_one(c: char, st: ArrayScan)
    ensures
        seq![c].fold_left(st, array_step_fn()) == array_step(st, c),
{
    let one = seq![c];
    assert(one.drop_last() =~= Seq::<char>::empty());
    assert(one.last() == c);
    assert(one.drop_last().fold_left(st, array_step_fn()) == st);
    assert(one.fold_left(st, array_step_fn()) == array_step_fn()(one.drop_last().fold_left(st, array_step_fn()), one.last()));
}

proof fn lemma_fold_two(c: char, d: char, st: ArrayScan)
    ensures
        seq![c, d].fold_left(st, array_step_fn()) == array_step(array_step(st, c), d),
{
    lemma_fold_concat(seq![c], seq![d], st);
    assert(seq![c] + seq![d] =~= seq![c, d]);
    lemma_fold_one(c, st);
    lemma_fold_one(d, array_step(st, c));
}

/// Inside a string literal, the scanner reads an escaped character back.
proof fn lemma_fold_escaped_char(c: char, cur: Seq<char>, out: Seq<Seq<char>>)
    requires
        simply_escaped(c),
    ensures
        json_escape_char(c).fold_left(ArrayScan { in_str: true, esc: false, cur, out }, array_step_fn())
            == (ArrayScan { in_str: true, esc: false, cur: cur.push(c), out }),
{
    let st = ArrayScan { in_str: true, esc: false, cur, out };
    if c == '"' || c == '\\' || c == '\n' || c == '\r' || c == '\t' {
        let e = json_escape_char(c);
        lemma_fold_two(e[0], e[1], st);
        assert(e =~= seq![e[0], e[1]]);
    } else {
        lemma_fold_one(c, st);
        assert(json_escape_char(c) =~= seq![c]);
    }
}

/// Inside a string literal, the scanner reads an escaped text back.
proof fn lemma_fold_escaped(v: Seq<char>, cur: Seq<char>, out: Seq<Seq<char>>)
    requires
        forall|k: int| 0 <= k < v.len() ==> simply_escaped(#[trigger] v[k]),
    ensures
        json_escape(v).fold_left(ArrayScan { in_str: true, esc: false, cur, out }, array_step_fn()) == (ArrayScan {
            in_str: true,
            esc: false,
            cur: cur + v,
            out,
        }),
    decreases v.len(),
{
    if v.len() == 0 {
        assert(cur + v =~= cur);
    } else {
        let p = v.drop_last();
        lemma_fold_escaped(p, cur, out);
        lemma_fold_concat(json_escape(p), json_escape_char(v.last()), ArrayScan { in_str: true, esc: false, cur, out });
        lemma_fold_escaped_char(v.last(), cur + p, out);
        assert((cur + p).push(v.last()) =~= cur + v);
    }
}

/// A whole string literal, read from outside any string, adds its trimmed,
/// lower-cased text.
proof fn lemma_fold_json_str(v: Seq<char>, out: Seq<Seq<char>>)
    requires
        forall|k: int| 0 <= k < v.len() ==> simply_escaped(#[trigger] v[k]),
        trim(v).len() > 0,
    ensures
        spec_json_str(v).fold_left(array_scan_init_with(out), array_step_fn()) == array_scan_init_with(
            out.push(lower(trim(v))),
        ),
{
    let st0 = array_scan_init_with(out);
    let st1 = ArrayScan { in_str: true, esc: false, cur: Seq::empty(), out };
    lemma_fold_concat(seq!['"'] + json_escape(v), seq!['"'], st0);
    lemma_fold_concat(seq!['"'], json_escape(v), st0);
    lemma_fold_one('"', st0);
    lemma_fold_escaped(v, Seq::empty(), out);
    assert(Seq::<char>::empty() + v =~= v);
    lemma_fold_one('"', ArrayScan { in_str: true, esc: false, cur: v, out });
}

/// The scanner outside any string, with `out` read so far.
pub open spec fn array_scan_init_with(out: Seq<Seq<char>>) -> ArrayScan {
    ArrayScan { in_str: false, esc: false, cur: Seq::empty(), out }
}

/// Characters outside strings other than `"` leave the scanner as it is.
proof fn lemma_fold_plain(t: Seq<char>, out: Seq<Seq<char>>)
    requires
        forall|k: int| 0 <= k < t.len() ==> #[trigger] t[k] != '"',
    ensures
        t.fold_left(array_scan_init_with(out), array_step_fn()) == array_scan_init_with(out),
    decreases t.len(),
{
    if t.len() > 0 {
        lemma_fold_plain(t.drop_last(), out);
    }
}

/// An allowlist entry that reads back as itself.
pub open spec fn keeps_when_saved(d: Seq<char>) -> bool {
    &&& d.len() > 0
    &&& trim(d) == d
    &&& lower(d) == d
    &&& spec_normalize_domain(d) == d
    &&& forall|k: int| 0 <= k < d.len() ==> simply_escaped(#[trigger] d[k])
}

proof fn lemma_fold_items(es: Seq<Seq<char>>, i: int)
    requires
        0 <= i <= es.len(),
        forall|j: int| 0 <= j < es.len() ==> keeps_when_saved(#[trigger] es[j]),
    ensures
        json_items(es, i).fold_left(array_scan_init_with(Seq::empty()), array_step_fn()) == array_scan_init_with(
            es.take(i),
        ),
    decreases i,
{
    if i == 0 {
        assert(es.take(0) =~= Seq::<Seq<char>>::empty());
    } else {
        let e = es[i - 1];
        let n = es.len() as int;
        lemma_fold_items(es, i - 1);
        let sep: Seq<char> = if i < n {
            seq![',']
        } else {
            Seq::empty()
        };
        let line = json_item_line(e, i - 1, n);
        assert(line == seq![' ', ' '] + spec_json_str(e) + sep + seq!['\n']);
        assert(keeps_when_saved(e));
        lemma_fold_concat(json_items(es, i - 1), line, array_scan_init_with(Seq::empty()));
        lemma_fold_concat(seq![' ', ' '] + spec_json_str(e) + sep, seq!['\n'], array_scan_init_with(es.take(i - 1)));
        lemma_fold_concat(seq![' ', ' '] + spec_json_str(e), sep, array_scan_init_with(es.take(i - 1)));
        lemma_fold_concat(seq![' ', ' '], spec_json_str(e), array_scan_init_with(es.take(i - 1)));
        lemma_fold_plain(seq![' ', ' '], es.take(i - 1));
        lemma_fold_json_str(e, es.take(i - 1));
        assert(lower(trim(e)) == e);
        assert(es.take(i - 1).push(e) =~= es.take(i));
        lemma_fold_plain(sep, es.take(i));
        lemma_fold_plain(seq!['\n'], es.take(i));
    }
}

/// The saved allowlist text reads back as the list it was written from.
proof fn lemma_parse_saved_array(es: Seq<Seq<char>>)
    requires
        forall|j: int| 0 <= j < es.len() ==> keeps_when_saved(#[trigger] es[j]),
    ensures
        spec_parse_string_array(spec_json_array_text(es)) == es,
{
    let n = es.len() as int;
    let text = spec_json_array_text(es);
    let init = array_scan_init_with(Seq::empty());
    assert(array_scan_init() == init);
    lemma_fold_concat(seq!['[', '\n'] + json_items(es, n), seq![']', '\n'], init);
    lemma_fold_concat(seq!['[', '\n'], json_items(es, n), init);
    lemma_fold_plain(seq!['[', '\n'], Seq::empty());
    lemma_fold_items(es, n);
    assert(es.take(n) =~= es);
    lemma_fold_plain(seq![']', '\n'], es);
}

proof fn lemma_allow_from_kept(es: Seq<Seq<char>>)
    requires
        forall|j: int| 0 <= j < es.len() ==> keeps_when_saved(#[trigger] es[j]),
    ensures
        allow_from_entries(es) == es.to_set(),
    decreases es.len(),
{
    if es.len() == 0 {
        assert(es.to_set() =~= Set::<Seq<char>>::empty());
    } else {
        let p = es.drop_last();
        assert forall|j: int| 0 <= j < p.len() implies keeps_when_saved(#[trigger] p[j]) by {
            assert(p[j] == es[j]);
        }
        lemma_allow_from_kept(p);
        assert(keeps_when_saved(es[es.len() - 1]));
        crate::sorted::lemma_push_to_set(p, es.last());
        assert(p.push(es.last()) =~= es);
    }
}

/// Saving the allowlist and loading the saved text restores it, when every
/// allowlisted domain reads back as itself.
pub proof fn law_allowlist_roundtrip(e: AdblockEngine)
    requires
        e.wf(),
        forall|d: Seq<char>| e@.allow.contains(d) ==> keeps_when_saved(d),
    ensures
        allow_from_entries(spec_parse_string_array(spec_json_array_text(sorted_list(e@.allow)))) == e@.allow,
{
    e.lemma_allow_list();
    let es = e.allow_list();
    lemma_sorted_list(es, e@.allow);
    assert forall|j: int| 0 <= j < es.len() implies keeps_when_saved(#[trigger] es[j]) by {
        assert(es.to_set().contains(es[j]));
    }
    lemma_parse_saved_array(es);
    lemma_allow_from_kept(es);
}

} // verus!
