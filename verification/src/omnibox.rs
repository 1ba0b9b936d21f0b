//! Omnibox — input classification, URL normalisation, and search routing.
use vstd::prelude::*;

use crate::text::{
    all_digits, chars_of, contains, contains_exec, eq_pred, extend_chars, first_char_from, first_where,
    has_char, has_char_exec, is_ascii_digit, lemma_first_where_bounds, lit, lower, seq_eq, slice_of,
    starts_with, starts_with_exec, string_of, to_lower, trim, trim_exec,
};

verus! {

broadcast use vstd::string::group_string_axioms;

// ── Percent-encoding ─────────────────────────────────────────────────────────

/// The UTF-8 encoding of a character.
pub open spec fn utf8_bytes(c: char) -> Seq<u8> {
    let v = c as int;
    if v < 0x80 {
        seq![v as u8]
    } else if v < 0x800 {
        seq![(0xC0 + v / 64) as u8, (0x80 + v % 64) as u8]
    } else if v < 0x10000 {
        seq![(0xE0 + v / 4096) as u8, (0x80 + (v / 64) % 64) as u8, (0x80 + v % 64) as u8]
    } else {
        seq![
            (0xF0 + v / 262144) as u8,
            (0x80 + (v / 4096) % 64) as u8,
            (0x80 + (v / 64) % 64) as u8,
            (0x80 + v % 64) as u8,
        ]
    }
}

/// Bytes left as they are in a query: ASCII letters, digits and `-_.~`.
pub open spec fn is_unreserved(b: u8) -> bool {
    (65 <= b <= 90) || (97 <= b <= 122) || (48 <= b <= 57) || b == 45 || b == 95 || b == 46 || b == 126
}

/// An uppercase hexadecimal digit.
pub open spec fn hex_upper(d: int) -> char {
    if d < 10 {
        (48 + d) as char
    } else {
        (55 + d) as char
    }
}

/// How one byte is written in a query: itself when unreserved, `+` for a
/// space, else `%` and two uppercase hex digits.
pub open spec fn enc_byte(b: u8) -> Seq<char> {
    if is_unreserved(b) {
        seq![b as char]
    } else if b == 32 {
        seq!['+']
    } else {
        seq!['%', hex_upper((b / 16) as int), hex_upper((b % 16) as int)]
    }
}

pub open spec fn enc_bytes(bs: Seq<u8>) -> Seq<char>
    decreases bs.len(),
{
    if bs.len() == 0 {
        Seq::empty()
    } else {
        enc_bytes(bs.drop_last()) + enc_byte(bs.last())
    }
}

/// The query form of a text: the UTF-8 bytes of each character, encoded.
pub open spec fn spec_percent_encode(s: Seq<char>) -> Seq<char>
    decreases s.len(),
{
    if s.len() == 0 {
        Seq::empty()
    } else {
        spec_percent_encode(s.drop_last()) + enc_bytes(utf8_bytes(s.last()))
    }
}

pub(crate) fn utf8_of(c: char) -> (r: Vec<u8>)
    ensures
        r@ == utf8_bytes(c),
{
    let v = c as u32;
    let mut r: Vec<u8> = Vec::new();
    if v < 0x80 {
        r.push(v as u8);
    } else if v < 0x800 {
        r.push((0xC0 + v / 64) as u8);
        r.push((0x80 + v % 64) as u8);
    } else if v < 0x10000 {
        r.push((0xE0 + v / 4096) as u8);
        r.push((0x80 + (v / 64) % 64) as u8);
        r.push((0x80 + v % 64) as u8);
    } else {
        assert(v <= 0x10FFFF);
        r.push((0xF0 + v / 262144) as u8);
        r.push((0x80 + (v / 4096) % 64) as u8);
        r.push((0x80 + (v / 64) % 64) as u8);
        r.push((0x80 + v % 64) as u8);
    }
    assert(r@ =~= utf8_bytes(c));
    r
}

fn hex_upper_exec(d: u8) -> (c: char)
    requires
        d < 16,
    ensures
        c == hex_upper(d as int),
{
    if d < 10 {
        (48 + d) as char
    } else {
        (55 + d) as char
    }
}

fn push_encoded_byte(out: &mut Vec<char>, b: u8)
    ensures
        final(out)@ == old(out)@ + enc_byte(b),
{
    if (65 <= b && b <= 90) || (97 <= b && b <= 122) || (48 <= b && b <= 57) || b == 45 || b == 95
        || b == 46 || b == 126 {
        out.push(b as char);
    } else if b == 32 {
        out.push('+');
    } else {
        out.push('%');
        out.push(hex_upper_exec(b / 16));
        out.push(hex_upper_exec(b % 16));
    }
    assert(out@ =~= old(out)@ + enc_byte(b));
}

fn percent_encode(s: &str) -> (r: Vec<char>)
    ensures
        r@ == spec_percent_encode(s@),
{
    let v = chars_of(s);
    let mut out: Vec<char> = Vec::new();
    let mut i: usize = 0;
    while i < v.len()
        invariant
            i <= v.len(),
            v@ == s@,
            out@ == spec_percent_encode(v@.take(i as int)),
        decreases v.len() - i,
    {
        let bs = utf8_of(v[i]);
        let ghost out0 = out@;
        let mut j: usize = 0;
        while j < bs.len()
            invariant
                j <= bs.len(),
                out@ == out0 + enc_bytes(bs@.take(j as int)),
            decreases bs.len() - j,
        {
            push_encoded_byte(&mut out, bs[j]);
            j = j + 1;
            assert(bs@.take(j as int).drop_last() =~= bs@.take(j - 1));
            assert(out@ =~= out0 + enc_bytes(bs@.take(j as int)));
        }
        assert(bs@.take(bs@.len() as int) =~= bs@);
        i = i + 1;
        assert(v@.take(i as int).drop_last() =~= v@.take(i - 1));
    }
    assert(v@.take(v@.len() as int) =~= v@);
    out
}

// ── Search provider ──────────────────────────────────────────────────────────

pub struct SearchProvider {
    pub name: &'static str,
    /// Query URL template — `{}` is replaced with the percent-encoded query.
    pub query_url: &'static str,
}

/// A template with every `{}` replaced by `value`.
pub open spec fn fill_placeholders(template: Seq<char>, value: Seq<char>) -> Seq<char>
    decreases template.len(),
{
    if template.len() == 0 {
        Seq::empty()
    } else if template.len() >= 2 && template[0] == '{' && template[1] == '}' {
        value + fill_placeholders(template.skip(2), value)
    } else {
        seq![template[0]] + fill_placeholders(template.skip(1), value)
    }
}

/// The default search provider, DuckDuckGo.
pub open spec fn spec_default_provider_url() -> Seq<char> {
    "https://duckduckgo.com/?q={}"@
}

pub fn default_provider() -> (p: SearchProvider)
    ensures
        p.name@ == "DuckDuckGo"@,
        p.query_url@ == spec_default_provider_url(),
{
    SearchProvider { name: "DuckDuckGo", query_url: "https://duckduckgo.com/?q={}" }
}

impl SearchProvider {
    /// The search URL for a query.
    pub fn build_url(&self, query: &str) -> (u: String)
        ensures
            u@ == fill_placeholders(self.query_url@, spec_percent_encode(query@)),
    {
        let encoded = percent_encode(query);
        let t = chars_of(self.query_url);
        let mut out: Vec<char> = Vec::new();
        let mut i: usize = 0;
        assert(t@.skip(0) =~= t@);
        assert(out@ + fill_placeholders(t@, encoded@) =~= fill_placeholders(t@, encoded@));
        while i < t.len()
            invariant
                i <= t.len(),
                out@ + fill_placeholders(t@.skip(i as int), encoded@) == fill_placeholders(
                    t@,
                    encoded@,
                ),
            decreases t.len() - i,
        {
            let ghost rest = t@.skip(i as int);
            if i + 1 < t.len() && t[i] == '{' && t[i + 1] == '}' {
                extend_chars(&mut out, &encoded);
                assert(rest.skip(2) =~= t@.skip(i + 2));
                i = i + 2;
            } else {
                out.push(t[i]);
                assert(rest.skip(1) =~= t@.skip(i + 1));
                i = i + 1;
            }
            assert(out@ + fill_placeholders(t@.skip(i as int), encoded@) =~= fill_placeholders(
                t@,
                encoded@,
            ));
        }
        assert(t@.skip(i as int) =~= Seq::<char>::empty());
        assert(out@ + Seq::<char>::empty() =~= out@);
        string_of(&out)
    }
}

// ── Input classification ─────────────────────────────────────────────────────

#[derive(Debug, PartialEq, Eq, Structural, Clone, Copy)]
pub enum InternalRoute {
    Blank,
    History,
    Bookmarks,
}

#[derive(Debug, PartialEq)]
pub enum InputKind {
    /// Ready-to-navigate URL (already normalised — has a scheme).
    Url(String),
    /// Plaintext search query.
    Search(String),
    /// Internal browser route.
    Internal(InternalRoute),
}

/// What an input was classified as, as plain values.
pub enum Classified {
    Url(Seq<char>),
    Search(Seq<char>),
    Internal(InternalRoute),
}

impl View for InputKind {
    type V = Classified;

    open spec fn view(&self) -> Classified {
        match self {
            InputKind::Url(u) => Classified::Url(u@),
            InputKind::Search(q) => Classified::Search(q@),
            InputKind::Internal(r) => Classified::Internal(*r),
        }
    }
}

/// The pieces of `s` between the separator `c`.
pub open spec fn split_on(s: Seq<char>, c: char) -> Seq<Seq<char>>
    decreases s.len(),
{
    match first_where(s, eq_pred(c), 0) {
        Some(k) => if 0 <= k < s.len() {
            seq![s.take(k)] + split_on(s.skip(k + 1), c)
        } else {
            seq![s]
        },
        None => seq![s],
    }
}

/// The value of a string of decimal digits.
pub open spec fn dec_value(d: Seq<char>) -> nat
    decreases d.len(),
{
    if d.len() == 0 {
        0
    } else {
        dec_value(d.drop_last()) * 10 + ((d.last() as int) - 48) as nat
    }
}

/// Whether a text parses as a `u8`: an optional `+`, then at least one ASCII
/// digit, of value at most 255.
pub open spec fn parses_u8(p: Seq<char>) -> bool {
    let d = if p.len() > 0 && p[0] == '+' {
        p.skip(1)
    } else {
        p
    };
    d.len() > 0 && all_digits(d) && dec_value(d) <= 255
}

/// `s` up to the first `c` (all of it when there is none).
pub open spec fn before_char(s: Seq<char>, c: char) -> Seq<char> {
    match first_where(s, eq_pred(c), 0) {
        Some(k) => s.take(k),
        None => s,
    }
}

/// A dotted IPv4 address, ignoring any port and path after it.
pub open spec fn spec_is_ipv4(s: Seq<char>) -> bool {
    let host = before_char(before_char(s, '/'), ':');
    let parts = split_on(host, '.');
    parts.len() == 4 && forall|i: int| 0 <= i < 4 ==> parses_u8(#[trigger] parts[i])
}

/// How raw omnibox input is classified and normalised.
pub open spec fn spec_classify(raw: Seq<char>) -> Classified {
    let s = trim(raw);
    let lc = lower(s);
    if s.len() == 0 {
        Classified::Search(Seq::empty())
    } else if lc == "about:blank"@ {
        Classified::Internal(InternalRoute::Blank)
    } else if lc == "about:history"@ {
        Classified::Internal(InternalRoute::History)
    } else if lc == "about:bookmarks"@ {
        Classified::Internal(InternalRoute::Bookmarks)
    } else if contains(s, "://"@) {
        Classified::Url(s)
    } else if starts_with(s, "chrome:"@) || starts_with(s, "about:"@) || starts_with(s, "data:"@) {
        Classified::Url(s)
    } else if lc == "localhost"@ || starts_with(lc, "localhost:"@) || starts_with(lc, "localhost/"@) {
        Classified::Url("http://"@ + s)
    } else if spec_is_ipv4(s) {
        Classified::Url("http://"@ + s)
    } else if !has_char(s, ' ') && has_char(s, '.') && s[0] != '.' && s.last() != '.' {
        Classified::Url("https://"@ + s)
    } else {
        Classified::Search(s)
    }
}

fn before_char_exec(v: &Vec<char>, c: char) -> (r: Vec<char>)
    ensures
        r@ == before_char(v@, c),
{
    match first_char_from(v, c, 0) {
        Some(k) => {
            proof {
                lemma_first_where_bounds(v@, eq_pred(c), 0);
            }
            let r = slice_of(v, 0, k);
            assert(r@ =~= v@.take(k as int));
            r
        },
        None => v.clone(),
    }
}

proof fn lemma_first_where_shift(s: Seq<char>, c: char, a: int)
    requires
        0 <= a <= s.len(),
    ensures
        first_where(s.skip(a), eq_pred(c), 0) == match first_where(s, eq_pred(c), a) {
            Some(k) => Some(k - a),
            None => None,
        },
{
    let t = s.skip(a);
    lemma_first_where_bounds(s, eq_pred(c), a);
    lemma_first_where_bounds(t, eq_pred(c), 0);
    assert forall|m: int| 0 <= m < t.len() implies #[trigger] t[m] == s[a + m] by {}
    match first_where(t, eq_pred(c), 0) {
        Some(k) => {
            assert(eq_pred(c)(s[a + k]));
            match first_where(s, eq_pred(c), a) {
                Some(k2) => {
                    if k2 < a + k {
                        assert(eq_pred(c)(t[k2 - a]));
                    }
                },
                None => {},
            }
        },
        None => {
            match first_where(s, eq_pred(c), a) {
                Some(k2) => {
                    assert(eq_pred(c)(t[k2 - a]));
                },
                None => {},
            }
        },
    }
}

/// The contents of a list of character vectors.
pub open spec fn char_vec_views(vs: Seq<Vec<char>>) -> Seq<Seq<char>> {
    vs.map_values(|p: Vec<char>| p@)
}

/// The pieces of `v` between the separator `c`.
pub(crate) fn split_exec(v: &Vec<char>, c: char) -> (r: Vec<Vec<char>>)
    ensures
        char_vec_views(r@) == split_on(v@, c),
{
    let mut out: Vec<Vec<char>> = Vec::new();
    let mut start: usize = 0;
    let n = v.len();
    assert(v@.skip(0) =~= v@);
    assert(char_vec_views(out@) + split_on(v@, c) =~= split_on(v@, c));
    loop
        invariant
            start <= n,
            n == v@.len(),
            char_vec_views(out@) + split_on(v@.skip(start as int), c) == split_on(v@, c),
        decreases n - start,
    {
        let ghost o0 = char_vec_views(out@);
        let ghost t = v@.skip(start as int);
        proof {
            lemma_first_where_shift(v@, c, start as int);
            lemma_first_where_bounds(v@, eq_pred(c), start as int);
        }
        match first_char_from(v, c, start) {
            Some(k) => {
                out.push(slice_of(v, start, k));
                assert(t.take(k - start) =~= v@.subrange(start as int, k as int));
                assert(t.skip(k - start + 1) =~= v@.skip(k + 1));
                assert(char_vec_views(out@) =~= o0.push(v@.subrange(start as int, k as int)));
                assert(split_on(t, c) == seq![t.take(k - start)] + split_on(t.skip(k - start + 1), c));
                assert(o0.push(v@.subrange(start as int, k as int)) + split_on(v@.skip(k + 1), c) =~= o0
                    + split_on(t, c));
                start = k + 1;
            },
            None => {
                out.push(slice_of(v, start, n));
                assert(t =~= v@.subrange(start as int, n as int));
                assert(char_vec_views(out@) =~= o0 + split_on(t, c));
                return out;
            },
        }
    }
}

/// Whether the pieces parse as a `u8`.
fn parses_u8_exec(p: &Vec<char>) -> (b: bool)
    ensures
        b == parses_u8(p@),
{
    let n = p.len();
    let d = if n > 0 && p[0] == '+' {
        slice_of(p, 1, n)
    } else {
        slice_of(p, 0, n)
    };
    assert(p@.len() > 0 && p@[0] == '+' ==> d@ =~= p@.skip(1));
    assert(!(p@.len() > 0 && p@[0] == '+') ==> d@ =~= p@);
    if d.len() == 0 {
        return false;
    }
    let mut val: u32 = 0;
    let mut i: usize = 0;
    while i < d.len()
        invariant
            i <= d.len(),
            parses_u8(p@) == (d@.len() > 0 && all_digits(d@) && dec_value(d@) <= 255),
            val == dec_value(d@.take(i as int)),
            val <= 255,
            all_digits(d@.take(i as int)),
        decreases d.len() - i,
    {
        if !('0' <= d[i] && d[i] <= '9') {
            assert(!all_digits(d@)) by {
                assert(!is_ascii_digit(d@[i as int]));
            }
            return false;
        }
        let digit = (d[i] as u32) - 48;
        assert(d@.take(i + 1).drop_last() =~= d@.take(i as int));
        let nv = val * 10 + digit;
        i = i + 1;
        if nv > 255 {
            proof {
                if all_digits(d@) {
                    lemma_dec_value_grows(d@, i as int);
                }
            }
            return false;
        }
        val = nv;
    }
    assert(d@.take(d@.len() as int) =~= d@);
    true
}

/// Appending digits never lowers the value.
pub proof fn lemma_dec_value_grows(d: Seq<char>, i: int)
    requires
        0 <= i <= d.len(),
        all_digits(d),
    ensures
        dec_value(d.take(i)) <= dec_value(d),
    decreases d.len() - i,
{
    if i < d.len() {
        lemma_dec_value_grows(d, i + 1);
        assert(d.take(i + 1).drop_last() =~= d.take(i));
        assert(is_ascii_digit(d[i]));
    } else {
        assert(d.take(i) =~= d);
    }
}

fn is_ipv4(s: &Vec<char>) -> (b: bool)
    ensures
        b == spec_is_ipv4(s@),
{
    let host = before_char_exec(&before_char_exec(s, '/'), ':');
    let parts = split_exec(&host, '.');
    let ghost views = char_vec_views(parts@);
    if parts.len() != 4 {
        return false;
    }
    let mut i: usize = 0;
    while i < 4
        invariant
            i <= 4,
            parts@.len() == 4,
            views == char_vec_views(parts@),
            spec_is_ipv4(s@) == (forall|j: int| 0 <= j < 4 ==> parses_u8(#[trigger] views[j])),
            forall|j: int| 0 <= j < i ==> parses_u8(#[trigger] views[j]),
        decreases 4 - i,
    {
        assert(views[i as int] == parts@[i as int]@);
        if !parses_u8_exec(&parts[i]) {
            return false;
        }
        i = i + 1;
    }
    true
}

fn eq_lit(v: &Vec<char>, s: &str) -> (b: bool)
    ensures
        b == (v@ == s@),
{
    seq_eq(v, &lit(s))
}

fn starts_lit(v: &Vec<char>, s: &str) -> (b: bool)
    ensures
        b == starts_with(v@, s@),
{
    starts_with_exec(v, &lit(s))
}

/// Classify and normalise raw omnibox input.
pub fn classify_input(raw: &str) -> (k: InputKind)
    ensures
        k@ == spec_classify(raw@),
{
    let s = trim_exec(&chars_of(raw));
    if s.len() == 0 {
        return InputKind::Search(String::new());
    }
    let lc = to_lower(&s);
    if eq_lit(&lc, "about:blank") {
        return InputKind::Internal(InternalRoute::Blank);
    }
    if eq_lit(&lc, "about:history") {
        return InputKind::Internal(InternalRoute::History);
    }
    if eq_lit(&lc, "about:bookmarks") {
        return InputKind::Internal(InternalRoute::Bookmarks);
    }
    if contains_exec(&s, &lit("://")) {
        return InputKind::Url(string_of(&s));
    }
    if starts_lit(&s, "chrome:") || starts_lit(&s, "about:") || starts_lit(&s, "data:") {
        return InputKind::Url(string_of(&s));
    }
    if eq_lit(&lc, "localhost") || starts_lit(&lc, "localhost:") || starts_lit(&lc, "localhost/") {
        let mut u = lit("http://");
        extend_chars(&mut u, &s);
        return InputKind::Url(string_of(&u));
    }
    if is_ipv4(&s) {
        let mut u = lit("http://");
        extend_chars(&mut u, &s);
        return InputKind::Url(string_of(&u));
    }
    let last = s.len() - 1;
    if !has_char_exec(&s, ' ') && has_char_exec(&s, '.') && s[0] != '.' && s[last] != '.' {
        let mut u = lit("https://");
        extend_chars(&mut u, &s);
        return InputKind::Url(string_of(&u));
    }
    InputKind::Search(string_of(&s))
}

// ── History / bookmark matching ──────────────────────────────────────────────

/// A minimal borrowed view of a visit record for matching.
pub struct MatchEntry<'a> {
    pub url: &'a str,
    pub title: &'a str,
}

/// Whether the (lowercased, non-empty) query occurs in the entry's URL or
/// title, case-insensitively.
pub open spec fn entry_matches<'a>(e: MatchEntry<'a>, q: Seq<char>) -> bool {
    contains(lower(e.url@), q) || contains(lower(e.title@), q)
}

/// The first entry at or after `i` that matches.
pub open spec fn first_match<'a>(es: Seq<MatchEntry<'a>>, q: Seq<char>, i: int) -> Option<int>
    decreases es.len() - i,
{
    if i < 0 || i >= es.len() {
        None
    } else if entry_matches(es[i], q) {
        Some(i)
    } else {
        first_match(es, q, i + 1)
    }
}

/// The URL of the first strong match, bookmarks checked before history.
pub open spec fn spec_match_history_bookmarks<'a>(
    query: Seq<char>,
    bookmarks: Seq<MatchEntry<'a>>,
    history: Seq<MatchEntry<'a>>,
) -> Option<Seq<char>> {
    let q = lower(query);
    if q.len() == 0 {
        None
    } else {
        match first_match(bookmarks, q, 0) {
            Some(i) => Some(bookmarks[i].url@),
            None => match first_match(history, q, 0) {
                Some(i) => Some(history[i].url@),
                None => None,
            },
        }
    }
}

proof fn lemma_first_match_upto<'a>(es: Seq<MatchEntry<'a>>, q: Seq<char>, i: int, t: int)
    requires
        0 <= i <= t < es.len(),
        entry_matches(es[t], q),
    ensures
        first_match(es, q, i) matches Some(j) && i <= j <= t && entry_matches(es[j], q),
    decreases t - i,
{
    if !entry_matches(es[i], q) {
        lemma_first_match_upto(es, q, i + 1, t);
    }
}

proof fn lemma_first_match_sound<'a>(es: Seq<MatchEntry<'a>>, q: Seq<char>, i: int)
    requires
        0 <= i,
    ensures
        first_match(es, q, i) matches Some(j) ==> i <= j < es.len() && entry_matches(es[j], q),
    decreases es.len() - i,
{
    if i < es.len() && !entry_matches(es[i], q) {
        lemma_first_match_sound(es, q, i + 1);
    }
}

/// A bookmark whose title or URL contains the query, ignoring case, is
/// found: the match is then the URL of a bookmark (one at or before it)
/// whose title or URL contains the query. Without such a bookmark, a history
/// entry that contains it is found the same way.
pub proof fn law_query_in_title_or_url_matches<'a>(
    query: Seq<char>,
    bookmarks: Seq<MatchEntry<'a>>,
    history: Seq<MatchEntry<'a>>,
    t: int,
    from_history: bool,
)
    requires
        lower(query).len() > 0,
        !from_history ==> 0 <= t < bookmarks.len() && (contains(
            lower(bookmarks[t].title@),
            lower(query),
        ) || contains(lower(bookmarks[t].url@), lower(query))),
        from_history ==> 0 <= t < history.len() && (contains(
            lower(history[t].title@),
            lower(query),
        ) || contains(lower(history[t].url@), lower(query))) && forall|b: int|
            0 <= b < bookmarks.len() ==> !contains(lower(#[trigger] bookmarks[b].title@), lower(query))
                && !contains(lower(bookmarks[b].url@), lower(query)),
    ensures
        !from_history ==> exists|j: int|
            0 <= j <= t && spec_match_history_bookmarks(query, bookmarks, history) == Some(
                #[trigger] bookmarks[j].url@,
            ) && (contains(lower(bookmarks[j].title@), lower(query)) || contains(
                lower(bookmarks[j].url@),
                lower(query),
            )),
        from_history ==> exists|j: int|
            0 <= j <= t && spec_match_history_bookmarks(query, bookmarks, history) == Some(
                #[trigger] history[j].url@,
            ) && (contains(lower(history[j].title@), lower(query)) || contains(
                lower(history[j].url@),
                lower(query),
            )),
{
    let q = lower(query);
    if !from_history {
        lemma_first_match_upto(bookmarks, q, 0, t);
        let j = first_match(bookmarks, q, 0)->0;
        assert(bookmarks[j].url@ == bookmarks[j].url@);
    } else {
        lemma_first_match_sound(bookmarks, q, 0);
        if first_match(bookmarks, q, 0) is Some {
            let b = first_match(bookmarks, q, 0)->0;
            assert(!contains(lower(bookmarks[b].title@), q));
        }
        lemma_first_match_upto(history, q, 0, t);
        let j = first_match(history, q, 0)->0;
        assert(history[j].url@ == history[j].url@);
    }
}

fn find_match<'a>(es: &[MatchEntry<'a>], q: &Vec<char>) -> (r: Option<usize>)
    ensures
        match r {
            Some(i) => first_match(es@, q@, 0) == Some(i as int) && i < es@.len(),
            None => first_match(es@, q@, 0) is None,
        },
{
    let mut i: usize = 0;
    while i < es.len()
        invariant
            i <= es@.len(),
            first_match(es@, q@, 0) == first_match(es@, q@, i as int),
        decreases es.len() - i,
    {
        let e = &es[i];
        if contains_exec(&to_lower(&chars_of(e.url)), q) || contains_exec(
            &to_lower(&chars_of(e.title)),
            q,
        ) {
            return Some(i);
        }
        i = i + 1;
    }
    None
}

/// Try to find a direct match in bookmarks (checked first) then history.
/// Returns the URL of the first strong match, or `None`.
///
/// "Strong match" = query is a case-insensitive substring of title OR url.
pub fn match_history_bookmarks<'a>(
    query: &str,
    bookmarks: &[MatchEntry<'a>],
    history: &[MatchEntry<'a>],
) -> (r: Option<String>)
    ensures
        match r {
            Some(u) => spec_match_history_bookmarks(query@, bookmarks@, history@) == Some(u@),
            None => spec_match_history_bookmarks(query@, bookmarks@, history@) is None,
        },
{
    let q = to_lower(&chars_of(query));
    if q.len() == 0 {
        return None;
    }
    match find_match(bookmarks, &q) {
        Some(i) => return Some(bookmarks[i].url.to_string()),
        None => {},
    }
    match find_match(history, &q) {
        Some(i) => Some(history[i].url.to_string()),
        None => None,
    }
}

// ── Top-level resolver ───────────────────────────────────────────────────────

/// What the caller should do with submitted omnibox input.
#[derive(Debug)]
pub enum OmniboxResult {
    Navigate(String),
    OpenOverlay(InternalRoute),
    Nothing,
}

/// Full omnibox resolution: URLs are navigated to, internal routes open an
/// overlay, an empty query does nothing, and any other query goes to the
/// first bookmark or history match, else to the provider's search.
pub open spec fn resolve_post<'a>(
    raw: Seq<char>,
    bookmarks: Seq<MatchEntry<'a>>,
    history: Seq<MatchEntry<'a>>,
    query_url: Seq<char>,
    r: OmniboxResult,
) -> bool {
    match spec_classify(raw) {
        Classified::Url(u) => r matches OmniboxResult::Navigate(n) && n@ == u,
        Classified::Internal(route) => r == OmniboxResult::OpenOverlay(route),
        Classified::Search(q) => if q.len() == 0 {
            r is Nothing
        } else {
            r matches OmniboxResult::Navigate(n) && n@ == match spec_match_history_bookmarks(
                q,
                bookmarks,
                history,
            ) {
                Some(u) => u,
                None => fill_placeholders(query_url, spec_percent_encode(q)),
            }
        },
    }
}

/// Submitted text that reads as a search goes to a bookmark whose title or
/// URL contains it, ignoring case, when there is one, rather than to the
/// search engine.
pub proof fn law_search_prefers_matching_bookmark<'a>(
    raw: Seq<char>,
    bookmarks: Seq<MatchEntry<'a>>,
    history: Seq<MatchEntry<'a>>,
    query_url: Seq<char>,
    r: OmniboxResult,
    q: Seq<char>,
    t: int,
)
    requires
        spec_classify(raw) == Classified::Search(q),
        lower(q).len() > 0,
        0 <= t < bookmarks.len(),
        contains(lower(bookmarks[t].title@), lower(q)) || contains(
            lower(bookmarks[t].url@),
            lower(q),
        ),
        resolve_post(raw, bookmarks, history, query_url, r),
    ensures
        exists|j: int|
            0 <= j <= t && (r matches OmniboxResult::Navigate(n) && n@ == #[trigger] bookmarks[j].url@)
                && (contains(lower(bookmarks[j].title@), lower(q)) || contains(
                lower(bookmarks[j].url@),
                lower(q),
            )),
{
    law_query_in_title_or_url_matches(q, bookmarks, history, t, false);
}

pub fn resolve<'a>(
    raw: &str,
    bookmarks: &[MatchEntry<'a>],
    history: &[MatchEntry<'a>],
    provider: &SearchProvider,
) -> (r: OmniboxResult)
    ensures
        resolve_post(raw@, bookmarks@, history@, provider.query_url@, r),
{
    match classify_input(raw) {
        InputKind::Url(url) => OmniboxResult::Navigate(url),
        InputKind::Internal(route) => OmniboxResult::OpenOverlay(route),
        InputKind::Search(q) => {
            if q.as_str().is_empty() {
                OmniboxResult::Nothing
            } else {
                let url = match match_history_bookmarks(q.as_str(), bookmarks, history) {
                    Some(u) => u,
                    None => provider.build_url(q.as_str()),
                };
                OmniboxResult::Navigate(url)
            }
        },
    }
}

} // verus!
