//! Minimal persistence formats — bookmarks, history, prefs — as hand-written
//! JSON. Reading and writing the files is the caller's; this module turns
//! records into file text and file text back into records.
use vstd::prelude::*;

use crate::json::{
    hex_lower, json_escape, json_escape_char, json_str_chars, lemma_json_escape_front, spec_json_str, unescape_char,
};
use crate::text::{char_from_u32, chars_of, extend_chars, is_scalar, lit, seq_eq, slice_of, string_of};

verus! {

broadcast use vstd::string::group_string_axioms;

// ── Records ──────────────────────────────────────────────────────────────────

#[derive(Debug, Clone)]
pub struct StoredBookmark {
    pub title: String,
    pub url: String,
}

#[derive(Debug, Clone)]
pub struct StoredHistory {
    pub url: String,
    pub title: String,
}

/// A record as plain values: `(title, url)`.
pub open spec fn bookmark_views(bs: Seq<StoredBookmark>) -> Seq<(Seq<char>, Seq<char>)> {
    bs.map_values(|b: StoredBookmark| (b.title@, b.url@))
}

/// A record as plain values: `(title, url)`.
pub open spec fn history_views(hs: Seq<StoredHistory>) -> Seq<(Seq<char>, Seq<char>)> {
    hs.map_values(|h: StoredHistory| (h.title@, h.url@))
}

// ── Writing ──────────────────────────────────────────────────────────────────

/// `"key": "value"` with both sides written as JSON strings.
pub open spec fn spec_kv(key: Seq<char>, val: Seq<char>) -> Seq<char> {
    spec_json_str(key) + ": "@ + spec_json_str(val)
}

fn kv(key: &str, val: &str) -> (r: Vec<char>)
    ensures
        r@ == spec_kv(key@, val@),
{
    let mut out = json_str_chars(&chars_of(key));
    extend_chars(&mut out, &lit(": "));
    extend_chars(&mut out, &json_str_chars(&chars_of(val)));
    out
}

/// Line `k` of `n` of a saved list: an object with two fields.
pub open spec fn record_line(
    k1: Seq<char>,
    v1: Seq<char>,
    k2: Seq<char>,
    v2: Seq<char>,
    k: int,
    n: int,
) -> Seq<char> {
    "  {"@ + spec_kv(k1, v1) + ", "@ + spec_kv(k2, v2) + "}"@ + (if k + 1 < n {
        ","@
    } else {
        Seq::empty()
    }) + "\n"@
}

/// The first `i` lines of the bookmarks file.
pub open spec fn bookmark_lines(bs: Seq<(Seq<char>, Seq<char>)>, i: int) -> Seq<char>
    decreases i,
{
    if i <= 0 || i > bs.len() {
        Seq::empty()
    } else {
        bookmark_lines(bs, i - 1) + record_line(
            "title"@,
            bs[i - 1].0,
            "url"@,
            bs[i - 1].1,
            i - 1,
            bs.len() as int,
        )
    }
}

/// The first `i` lines of the history file (URL first, then title).
pub open spec fn history_lines(hs: Seq<(Seq<char>, Seq<char>)>, i: int) -> Seq<char>
    decreases i,
{
    if i <= 0 || i > hs.len() {
        Seq::empty()
    } else {
        history_lines(hs, i - 1) + record_line(
            "url"@,
            hs[i - 1].1,
            "title"@,
            hs[i - 1].0,
            i - 1,
            hs.len() as int,
        )
    }
}

pub open spec fn spec_bookmarks_json(bs: Seq<(Seq<char>, Seq<char>)>) -> Seq<char> {
    "[\n"@ + bookmark_lines(bs, bs.len() as int) + "]\n"@
}

pub open spec fn spec_history_json(hs: Seq<(Seq<char>, Seq<char>)>) -> Seq<char> {
    "[\n"@ + history_lines(hs, hs.len() as int) + "]\n"@
}

pub open spec fn spec_theme_json(theme: Seq<char>) -> Seq<char> {
    "{\n  "@ + spec_kv("theme"@, theme) + "\n}\n"@
}

fn push_record_line(out: &mut Vec<char>, k1: &str, v1: &str, k2: &str, v2: &str, last: bool)
    ensures
        final(out)@ == old(out)@ + "  {"@ + spec_kv(k1@, v1@) + ", "@ + spec_kv(k2@, v2@) + "}"@ + (if !last {
            ","@
        } else {
            Seq::empty()
        }) + "\n"@,
{
    extend_chars(out, &lit("  {"));
    extend_chars(out, &kv(k1, v1));
    extend_chars(out, &lit(", "));
    extend_chars(out, &kv(k2, v2));
    extend_chars(out, &lit("}"));
    if !last {
        extend_chars(out, &lit(","));
    }
    extend_chars(out, &lit("\n"));
    assert(out@ =~= old(out)@ + "  {"@ + spec_kv(k1@, v1@) + ", "@ + spec_kv(k2@, v2@) + "}"@ + (if !last {
        ","@
    } else {
        Seq::empty()
    }) + "\n"@);
}

/// The bookmarks file: a JSON array with one `{"title", "url"}` object per
/// line.
#[verifier::rlimit(40)]
pub fn bookmarks_json(bookmarks: &[StoredBookmark]) -> (s: String)
    ensures
        s@ == spec_bookmarks_json(bookmark_views(bookmarks@)),
{
    let ghost bs = bookmark_views(bookmarks@);
    let n = bookmarks.len();
    let mut out = lit("[\n");
    let mut i: usize = 0;
    while i < n
        invariant
            i <= n,
            n == bookmarks@.len(),
            bs == bookmark_views(bookmarks@),
            out@ == "[\n"@ + bookmark_lines(bs, i as int),
        decreases n - i,
    {
        let b = &bookmarks[i];
        assert(bs[i as int] == (b.title@, b.url@));
        let ghost out0 = out@;
        push_record_line(&mut out, "title", b.title.as_str(), "url", b.url.as_str(), i + 1 >= n);
        i = i + 1;
        assert(out@ =~= "[\n"@ + bookmark_lines(bs, i as int));
    }
    extend_chars(&mut out, &lit("]\n"));
    string_of(&out)
}

/// The history file: a JSON array with one `{"url", "title"}` object per
/// line.
#[verifier::rlimit(40)]
pub fn history_json(history: &[StoredHistory]) -> (s: String)
    ensures
        s@ == spec_history_json(history_views(history@)),
{
    let ghost hs = history_views(history@);
    let n = history.len();
    let mut out = lit("[\n");
    let mut i: usize = 0;
    while i < n
        invariant
            i <= n,
            n == history@.len(),
            hs == history_views(history@),
            out@ == "[\n"@ + history_lines(hs, i as int),
        decreases n - i,
    {
        let h = &history[i];
        assert(hs[i as int] == (h.title@, h.url@));
        push_record_line(&mut out, "url", h.url.as_str(), "title", h.title.as_str(), i + 1 >= n);
        i = i + 1;
        assert(out@ =~= "[\n"@ + history_lines(hs, i as int));
    }
    extend_chars(&mut out, &lit("]\n"));
    string_of(&out)
}

/// The prefs file: a JSON object holding the theme's name.
pub fn theme_json(theme: &str) -> (s: String)
    ensures
        s@ == spec_theme_json(theme@),
{
    let mut out = lit("{\n  ");
    extend_chars(&mut out, &kv("theme", theme));
    extend_chars(&mut out, &lit("\n}\n"));
    string_of(&out)
}

// ── Reading (specification) ──────────────────────────────────────────────────

pub open spec fn is_json_ws(c: char) -> bool {
    c == ' ' || c == '\t' || c == '\n' || c == '\r'
}

/// The first position at or after `i` that is not JSON whitespace.
pub open spec fn ws_end(s: Seq<char>, i: int) -> int
    decreases s.len() - i,
{
    if 0 <= i < s.len() && is_json_ws(s[i]) {
        ws_end(s, i + 1)
    } else {
        i
    }
}

pub open spec fn at(s: Seq<char>, i: int, c: char) -> bool {
    0 <= i < s.len() && s[i] == c
}

pub open spec fn hex_digit_value(c: char) -> int {
    if '0' <= c && c <= '9' {
        c as int - 48
    } else if 'a' <= c && c <= 'f' {
        c as int - 87
    } else if 'A' <= c && c <= 'F' {
        c as int - 55
    } else {
        -1
    }
}

pub open spec fn hex_digits_value(d: Seq<char>) -> int
    decreases d.len(),
{
    if d.len() == 0 {
        0
    } else {
        hex_digits_value(d.drop_last()) * 16 + hex_digit_value(d.last())
    }
}

pub open spec fn all_hex(d: Seq<char>) -> bool {
    forall|i: int| 0 <= i < d.len() ==> hex_digit_value(#[trigger] d[i]) >= 0
}

/// The value of a hexadecimal number with an optional leading `+`, as `u32`
/// reads one (here never more than four characters long).
pub open spec fn hex_value(h: Seq<char>) -> Option<int> {
    let d = if h.len() > 0 && h[0] == '+' {
        h.skip(1)
    } else {
        h
    };
    if d.len() > 0 && all_hex(d) {
        Some(hex_digits_value(d))
    } else {
        None
    }
}

/// The character with this code, or U+FFFD where there is none.
pub open spec fn code_char(code: int) -> char {
    if (0 <= code < 0xD800) || (0xE000 <= code <= 0x10FFFF) {
        code as char
    } else {
        '\u{FFFD}'
    }
}

/// Reads the rest of a string literal from `i` (just after its opening quote
/// or an escape): the decoded text and the position after the closing quote,
/// or `None` and where reading stopped.
pub open spec fn string_from(s: Seq<char>, i: int, out: Seq<char>) -> (Option<Seq<char>>, int)
    decreases s.len() - i,
{
    if i < 0 || i >= s.len() {
        (None, i)
    } else if s[i] == '"' {
        (Some(out), i + 1)
    } else if s[i] == '\\' {
        if i + 1 >= s.len() {
            (None, i + 1)
        } else if s[i + 1] == 'u' {
            if i + 6 > s.len() {
                (None, i + 2)
            } else {
                match hex_value(s.subrange(i + 2, i + 6)) {
                    None => (None, i + 2),
                    Some(code) => string_from(s, i + 6, out.push(code_char(code))),
                }
            }
        } else {
            string_from(s, i + 2, out.push(unescape_char(s[i + 1])))
        }
    } else {
        string_from(s, i + 1, out.push(s[i]))
    }
}

/// The string literal at `i`: its text and the position after it.
pub open spec fn p_string(s: Seq<char>, i: int) -> (Option<Seq<char>>, int) {
    if at(s, i, '"') {
        string_from(s, i + 1, Seq::empty())
    } else {
        (None, i)
    }
}

/// Skips a bracketed array from inside it at `i`, `depth` levels deep.
pub open spec fn arr_raw_from(s: Seq<char>, i: int, depth: nat) -> int
    decreases s.len() - i,
{
    if i < 0 || i >= s.len() || depth == 0 {
        i
    } else if s[i] == '[' {
        arr_raw_from(s, i + 1, depth + 1)
    } else if s[i] == ']' {
        arr_raw_from(s, i + 1, (depth - 1) as nat)
    } else if s[i] == '"' {
        let j = p_string(s, i).1;
        if j <= i || j > s.len() {
            i
        } else {
            arr_raw_from(s, j, depth)
        }
    } else {
        arr_raw_from(s, i + 1, depth)
    }
}

/// Where skipping an array at `i` ends.
pub open spec fn p_arr_raw(s: Seq<char>, i: int) -> int {
    if at(s, i, '[') {
        arr_raw_from(s, i + 1, 1)
    } else {
        i
    }
}

/// Position after the first `,`, `}` or `]` at or after `i` (exclusive).
pub open spec fn scalar_end(s: Seq<char>, i: int) -> int
    decreases s.len() - i,
{
    if 0 <= i < s.len() && s[i] != ',' && s[i] != '}' && s[i] != ']' {
        scalar_end(s, i + 1)
    } else {
        i
    }
}

/// Where skipping the value at `i` ends.
pub open spec fn p_value_end(s: Seq<char>, i: int) -> int
    decreases s.len() - i, 1int,
{
    let j = ws_end(s, i);
    if j < i {
        i
    } else if at(s, j, '"') {
        p_string(s, j).1
    } else if at(s, j, '{') {
        p_obj(s, j).1
    } else if at(s, j, '[') {
        p_arr_raw(s, j)
    } else {
        scalar_end(s, j)
    }
}

/// The string-valued fields of the object at `i` (others are skipped), and
/// where reading ended; `None` when it is not an object or a key is broken.
pub open spec fn p_obj(s: Seq<char>, i: int) -> (Option<Seq<(Seq<char>, Seq<char>)>>, int)
    decreases s.len() - i, 0int,
{
    let j = ws_end(s, i);
    if j < i {
        (None, i)
    } else if !at(s, j, '{') {
        (None, j)
    } else {
        obj_loop(s, j + 1, Seq::empty())
    }
}

/// The object reader's loop at `i`, with the fields read so far.
pub open spec fn obj_loop(s: Seq<char>, i: int, pairs: Seq<(Seq<char>, Seq<char>)>) -> (
    Option<Seq<(Seq<char>, Seq<char>)>>,
    int,
)
    decreases s.len() - i, 2int,
{
    let a = ws_end(s, i);
    if a < i {
        (None, i)
    } else if at(s, a, '}') {
        (Some(pairs), a + 1)
    } else if pairs.len() > 0 && !at(s, a, ',') {
        (Some(pairs), a)
    } else {
        let c = if pairs.len() > 0 {
            ws_end(s, a + 1)
        } else {
            a
        };
        if c < a {
            (None, i)
        } else if pairs.len() > 0 && at(s, c, '}') {
            (Some(pairs), c + 1)
        } else {
            match p_string(s, c) {
                (None, p) => (None, p),
                (Some(key), p) => {
                    let q = ws_end(s, p);
                    if !at(s, q, ':') {
                        (Some(pairs), q)
                    } else {
                        let r = ws_end(s, q + 1);
                        if at(s, r, '"') && p_string(s, r).0 is Some {
                            let t = p_string(s, r).1;
                            if t <= i || t > s.len() {
                                (None, i)
                            } else {
                                obj_loop(s, t, pairs.push((key, p_string(s, r).0->0)))
                            }
                        } else {
                            let r2 = if at(s, r, '"') {
                                p_string(s, r).1
                            } else {
                                r
                            };
                            if r2 <= i || r2 > s.len() {
                                (None, i)
                            } else {
                                let t = p_value_end(s, r2);
                                if t <= i || t > s.len() {
                                    (None, i)
                                } else {
                                    obj_loop(s, t, pairs)
                                }
                            }
                        }
                    }
                },
            }
        }
    }
}

/// The array reader's loop at `i`, with the objects read so far. An element
/// that makes no progress ends the read.
pub open spec fn array_loop(s: Seq<char>, i: int, items: Seq<Seq<(Seq<char>, Seq<char>)>>) -> Seq<
    Seq<(Seq<char>, Seq<char>)>,
>
    decreases s.len() - i,
{
    let a = ws_end(s, i);
    if a < i || at(s, a, ']') {
        items
    } else if items.len() > 0 && !at(s, a, ',') {
        items
    } else {
        let b = if items.len() > 0 {
            ws_end(s, a + 1)
        } else {
            a
        };
        if b < a || (items.len() > 0 && at(s, b, ']')) {
            items
        } else if at(s, b, '{') && p_obj(s, b).0 is Some {
            let t = p_obj(s, b).1;
            if t <= i || t > s.len() {
                items
            } else {
                array_loop(s, t, items.push(p_obj(s, b).0->0))
            }
        } else {
            let b2 = if at(s, b, '{') {
                p_obj(s, b).1
            } else {
                b
            };
            let t = p_value_end(s, b2);
            if t <= i || t > s.len() {
                items
            } else {
                array_loop(s, t, items)
            }
        }
    }
}

/// The objects of the JSON array that a text starts with (after whitespace).
pub open spec fn p_array(s: Seq<char>) -> Seq<Seq<(Seq<char>, Seq<char>)>> {
    let a = ws_end(s, 0);
    if at(s, a, '[') {
        array_loop(s, a + 1, Seq::empty())
    } else {
        Seq::empty()
    }
}

/// The value of the first field named `key`.
pub open spec fn find_field(obj: Seq<(Seq<char>, Seq<char>)>, key: Seq<char>) -> Option<Seq<char>>
    decreases obj.len(),
{
    if obj.len() == 0 {
        None
    } else if obj[0].0 == key {
        Some(obj[0].1)
    } else {
        find_field(obj.skip(1), key)
    }
}

/// The `(title, url)` record an object holds: a non-empty `url` is needed,
/// a missing title reads as empty.
pub open spec fn record_of(obj: Seq<(Seq<char>, Seq<char>)>) -> Option<(Seq<char>, Seq<char>)> {
    match find_field(obj, "url"@) {
        Some(url) => if url.len() == 0 {
            None
        } else {
            Some(
                (
                    match find_field(obj, "title"@) {
                        Some(t) => t,
                        None => Seq::empty(),
                    },
                    url,
                ),
            )
        },
        None => None,
    }
}

pub open spec fn records_of(objs: Seq<Seq<(Seq<char>, Seq<char>)>>) -> Seq<(Seq<char>, Seq<char>)>
    decreases objs.len(),
{
    if objs.len() == 0 {
        Seq::empty()
    } else {
        records_of(objs.drop_last()) + match record_of(objs.last()) {
            Some(r) => seq![r],
            None => Seq::empty(),
        }
    }
}

/// The records a bookmarks or history file holds, in file order.
pub open spec fn spec_records_from(text: Seq<char>) -> Seq<(Seq<char>, Seq<char>)> {
    records_of(p_array(text))
}

/// The theme a prefs file names.
pub open spec fn spec_theme_from(text: Seq<char>) -> Option<Seq<char>> {
    match p_obj(text, 0).0 {
        Some(obj) => find_field(obj, "theme"@),
        None => None,
    }
}


// ── Reading ──────────────────────────────────────────────────────────────────

proof fn lemma_ws_end(s: Seq<char>, i: int)
    requires
        0 <= i <= s.len(),
    ensures
        i <= ws_end(s, i) <= s.len(),
    decreases s.len() - i,
{
    if i < s.len() && is_json_ws(s[i]) {
        lemma_ws_end(s, i + 1);
    }
}

proof fn lemma_scalar_end(s: Seq<char>, i: int)
    requires
        0 <= i <= s.len(),
    ensures
        i <= scalar_end(s, i) <= s.len(),
    decreases s.len() - i,
{
    if i < s.len() && s[i] != ',' && s[i] != '}' && s[i] != ']' {
        lemma_scalar_end(s, i + 1);
    }
}

/// A field list as plain values.
pub open spec fn pair_views(ps: Seq<(Vec<char>, Vec<char>)>) -> Seq<(Seq<char>, Seq<char>)> {
    ps.map_values(|p: (Vec<char>, Vec<char>)| (p.0@, p.1@))
}

pub open spec fn opt_pairs(o: Option<Vec<(Vec<char>, Vec<char>)>>) -> Option<Seq<(Seq<char>, Seq<char>)>> {
    match o {
        Some(v) => Some(pair_views(v@)),
        None => None,
    }
}

pub open spec fn opt_text(o: Option<Vec<char>>) -> Option<Seq<char>> {
    match o {
        Some(v) => Some(v@),
        None => None,
    }
}

fn hex_value_exec(h: &Vec<char>) -> (r: Option<u32>)
    requires
        h@.len() == 4,
    ensures
        match r {
            Some(v) => hex_value(h@) == Some(v as int),
            None => hex_value(h@) is None,
        },
{
    let start: usize = if h[0] == '+' {
        1
    } else {
        0
    };
    let ghost d = if h@.len() > 0 && h@[0] == '+' {
        h@.skip(1)
    } else {
        h@
    };
    assert(d =~= h@.skip(start as int));
    let mut v: u32 = 0;
    let mut i: usize = start;
    while i < h.len()
        invariant
            start <= i <= h@.len() == 4,
            start <= 1,
            d == h@.skip(start as int),
            d == (if h@.len() > 0 && h@[0] == '+' {
                h@.skip(1)
            } else {
                h@
            }),
            v == hex_digits_value(d.take(i - start)),
            all_hex(d.take(i - start)),
            i - start == 0 ==> v == 0,
            i - start <= 1 ==> v < 16,
            i - start <= 2 ==> v < 256,
            i - start <= 3 ==> v < 4096,
            v < 65536,
        decreases h.len() - i,
    {
        let c = h[i];
        let dv: u32 = if '0' <= c && c <= '9' {
            (c as u32) - 48
        } else if 'a' <= c && c <= 'f' {
            (c as u32) - 87
        } else if 'A' <= c && c <= 'F' {
            (c as u32) - 55
        } else {
            assert(!all_hex(d)) by {
                assert(d[i - start] == c);
            }
            return None;
        };
        assert(d.take(i - start + 1).drop_last() =~= d.take(i - start));
        assert(d.take(i - start + 1).last() == c);
        v = v * 16 + dv;
        i = i + 1;
    }
    assert(d.take(d.len() as int) =~= d);
    if start >= h.len() {
        return None;
    }
    Some(v)
}

fn code_char_exec(code: u32) -> (c: char)
    ensures
        c == code_char(code as int),
{
    match char_from_u32(code) {
        Some(c) => c,
        None => '\u{FFFD}',
    }
}

/// A cursor over the text being read.
struct Parser {
    src: Vec<char>,
    pos: usize,
}

impl Parser {
    fn new(src: &str) -> (p: Self)
        ensures
            p.src@ == src@,
            p.pos == 0,
    {
        Self { src: chars_of(src), pos: 0 }
    }

    fn skip_ws(&mut self)
        requires
            old(self).pos <= old(self).src@.len(),
        ensures
            final(self).src == old(self).src,
            final(self).pos == ws_end(old(self).src@, old(self).pos as int),
            old(self).pos <= final(self).pos <= final(self).src@.len(),
    {
        proof {
            lemma_ws_end(self.src@, self.pos as int);
        }
        while self.pos < self.src.len() && (self.src[self.pos] == ' ' || self.src[self.pos] == '\t'
            || self.src[self.pos] == '\n' || self.src[self.pos] == '\r')
            invariant
                self.src == old(self).src,
                old(self).pos <= self.pos <= self.src@.len(),
                ws_end(self.src@, self.pos as int) == ws_end(self.src@, old(self).pos as int),
            decreases self.src@.len() - self.pos,
        {
            self.pos = self.pos + 1;
        }
    }

    fn peek_is(&self, c: char) -> (b: bool)
        ensures
            b == at(self.src@, self.pos as int, c),
    {
        self.pos < self.src.len() && self.src[self.pos] == c
    }

    fn eat(&mut self, c: char) -> (b: bool)
        requires
            old(self).pos <= old(self).src@.len(),
        ensures
            final(self).src == old(self).src,
            b == at(old(self).src@, old(self).pos as int, c),
            final(self).pos == if b {
                old(self).pos + 1
            } else {
                old(self).pos as int
            },
            final(self).pos <= final(self).src@.len(),
    {
        if self.pos < self.src.len() && self.src[self.pos] == c {
            self.pos = self.pos + 1;
            true
        } else {
            false
        }
    }

    fn parse_string(&mut self) -> (r: Option<Vec<char>>)
        requires
            old(self).pos <= old(self).src@.len(),
        ensures
            final(self).src == old(self).src,
            final(self).pos <= final(self).src@.len(),
            (opt_text(r), final(self).pos as int) == p_string(old(self).src@, old(self).pos as int),
            at(old(self).src@, old(self).pos as int, '"') ==> final(self).pos > old(self).pos,
    {
        if !self.peek_is('"') {
            return None;
        }
        let ghost s = self.src@;
        let ghost target = p_string(s, self.pos as int);
        let n = self.src.len();
        self.pos = self.pos + 1;
        let mut out: Vec<char> = Vec::new();
        loop
            invariant
                self.src == old(self).src,
                s == self.src@,
                n == s.len(),
                old(self).pos < self.pos <= n,
                target == p_string(old(self).src@, old(self).pos as int),
                target == string_from(s, self.pos as int, out@),
            decreases n - self.pos,
        {
            if self.pos >= n {
                return None;
            }
            let b = self.src[self.pos];
            if b == '"' {
                self.pos = self.pos + 1;
                return Some(out);
            }
            if b == '\\' {
                if self.pos + 1 >= n {
                    self.pos = self.pos + 1;
                    return None;
                }
                let e = self.src[self.pos + 1];
                if e == 'u' {
                    self.pos = self.pos + 2;
                    if n - self.pos < 4 {
                        return None;
                    }
                    let hex = slice_of(&self.src, self.pos, self.pos + 4);
                    match hex_value_exec(&hex) {
                        None => {
                            return None;
                        },
                        Some(code) => {
                            out.push(code_char_exec(code));
                            self.pos = self.pos + 4;
                        },
                    }
                } else {
                    let u = if e == 'n' {
                        '\n'
                    } else if e == 'r' {
                        '\r'
                    } else if e == 't' {
                        '\t'
                    } else {
                        e
                    };
                    out.push(u);
                    self.pos = self.pos + 2;
                }
            } else {
                out.push(b);
                self.pos = self.pos + 1;
            }
        }
    }

    fn parse_arr_raw(&mut self)
        requires
            old(self).pos <= old(self).src@.len(),
        ensures
            final(self).src == old(self).src,
            final(self).pos <= final(self).src@.len(),
            final(self).pos == p_arr_raw(old(self).src@, old(self).pos as int),
            final(self).pos >= old(self).pos,
    {
        let ghost s = self.src@;
        if !self.eat('[') {
            return ;
        }
        let n = self.src.len();
        let mut depth: usize = 1;
        while self.pos < n && depth > 0
            invariant
                self.src == old(self).src,
                s == self.src@,
                n == s.len(),
                old(self).pos < self.pos <= n,
                depth <= self.pos,
                p_arr_raw(s, old(self).pos as int) == arr_raw_from(s, self.pos as int, depth as nat),
            decreases n - self.pos,
        {
            let c = self.src[self.pos];
            if c == '[' {
                depth = depth + 1;
                self.pos = self.pos + 1;
            } else if c == ']' {
                depth = depth - 1;
                self.pos = self.pos + 1;
            } else if c == '"' {
                let _ = self.parse_string();
            } else {
                self.pos = self.pos + 1;
            }
        }
    }

    fn skip_value(&mut self)
        requires
            old(self).pos <= old(self).src@.len(),
        ensures
            final(self).src == old(self).src,
            final(self).pos <= final(self).src@.len(),
            final(self).pos == p_value_end(old(self).src@, old(self).pos as int),
            final(self).pos >= old(self).pos,
        decreases old(self).src@.len() - old(self).pos, 1int,
    {
        let ghost s = self.src@;
        self.skip_ws();
        if self.peek_is('"') {
            let _ = self.parse_string();
        } else if self.peek_is('{') {
            let _ = self.parse_obj();
        } else if self.peek_is('[') {
            self.parse_arr_raw();
        } else {
            let ghost j = self.pos as int;
            proof {
                lemma_scalar_end(s, j);
            }
            while self.pos < self.src.len() && self.src[self.pos] != ',' && self.src[self.pos] != '}'
                && self.src[self.pos] != ']'
                invariant
                    self.src == old(self).src,
                    s == self.src@,
                    j <= self.pos <= s.len(),
                    scalar_end(s, j) == scalar_end(s, self.pos as int),
                decreases s.len() - self.pos,
            {
                self.pos = self.pos + 1;
            }
        }
    }

    fn parse_obj(&mut self) -> (r: Option<Vec<(Vec<char>, Vec<char>)>>)
        requires
            old(self).pos <= old(self).src@.len(),
        ensures
            final(self).src == old(self).src,
            final(self).pos <= final(self).src@.len(),
            (opt_pairs(r), final(self).pos as int) == p_obj(old(self).src@, old(self).pos as int),
            final(self).pos >= old(self).pos,
            at(old(self).src@, ws_end(old(self).src@, old(self).pos as int), '{') ==> final(self).pos
                > ws_end(old(self).src@, old(self).pos as int),
        decreases old(self).src@.len() - old(self).pos, 0int,
    {
        let ghost s = self.src@;
        let ghost entry = self.pos as int;
        self.skip_ws();
        if !self.eat('{') {
            return None;
        }
        let ghost target = p_obj(s, entry);
        let ghost opened = self.pos as int;
        let mut pairs: Vec<(Vec<char>, Vec<char>)> = Vec::new();
        assert(pair_views(pairs@) =~= Seq::<(Seq<char>, Seq<char>)>::empty());
        loop
            invariant
                self.src == old(self).src,
                s == self.src@,
                entry < opened <= self.pos <= s.len(),
                entry == old(self).pos,
                opened == ws_end(s, entry) + 1,
                target == p_obj(s, entry),
                target == obj_loop(s, self.pos as int, pair_views(pairs@)),
            decreases s.len() - self.pos,
        {
            let ghost i = self.pos as int;
            let ghost pv = pair_views(pairs@);
            proof {
                lemma_ws_end(s, i);
            }
            self.skip_ws();
            if self.eat('}') {
                return Some(pairs);
            }
            if pairs.len() > 0 {
                if !self.eat(',') {
                    return Some(pairs);
                }
                proof {
                    lemma_ws_end(s, self.pos as int);
                }
                self.skip_ws();
                if self.eat('}') {
                    return Some(pairs);
                }
            }
            let key = match self.parse_string() {
                Some(k) => k,
                None => {
                    return None;
                },
            };
            self.skip_ws();
            if !self.eat(':') {
                return Some(pairs);
            }
            self.skip_ws();
            let ghost r = self.pos as int;
            if self.peek_is('"') {
                let ghost before = self.pos;
                match self.parse_string() {
                    Some(val) => {
                        pairs.push((key, val));
                        assert(pair_views(pairs@) =~= pv.push((key@, val@)));
                        continue;
                    },
                    None => {},
                }
            }
            self.skip_value();
        }
    }
}


/// A list of objects as plain values.
pub open spec fn obj_views(items: Seq<Vec<(Vec<char>, Vec<char>)>>) -> Seq<Seq<(Seq<char>, Seq<char>)>> {
    items.map_values(|o: Vec<(Vec<char>, Vec<char>)>| pair_views(o@))
}

impl Parser {
    /// The objects of the array the text starts with.
    fn parse_array(&mut self) -> (r: Vec<Vec<(Vec<char>, Vec<char>)>>)
        requires
            old(self).pos == 0,
        ensures
            obj_views(r@) == p_array(old(self).src@),
    {
        let ghost s = self.src@;
        self.skip_ws();
        let mut items: Vec<Vec<(Vec<char>, Vec<char>)>> = Vec::new();
        if !self.eat('[') {
            assert(obj_views(items@) =~= Seq::<Seq<(Seq<char>, Seq<char>)>>::empty());
            return items;
        }
        let ghost target = p_array(s);
        assert(obj_views(items@) =~= Seq::<Seq<(Seq<char>, Seq<char>)>>::empty());
        loop
            invariant
                self.src == old(self).src,
                s == self.src@,
                self.pos <= s.len(),
                target == p_array(old(self).src@),
                target == array_loop(s, self.pos as int, obj_views(items@)),
            decreases s.len() - self.pos,
        {
            let i = self.pos;
            let ghost iv = obj_views(items@);
            proof {
                lemma_ws_end(s, i as int);
            }
            self.skip_ws();
            if self.eat(']') {
                return items;
            }
            if items.len() > 0 {
                if !self.eat(',') {
                    return items;
                }
                proof {
                    lemma_ws_end(s, self.pos as int);
                }
                self.skip_ws();
                if self.eat(']') {
                    return items;
                }
            }
            let b = self.pos;
            if self.peek_is('{') {
                proof {
                    lemma_ws_end(s, b as int);
                    assert(ws_end(s, b as int) == b);
                }
                match self.parse_obj() {
                    Some(obj) => {
                        items.push(obj);
                        assert(obj_views(items@) =~= iv.push(pair_views(obj@)));
                        continue;
                    },
                    None => {},
                }
            }
            self.skip_value();
            if self.pos <= i {
                return items;
            }
        }
    }
}

fn find_field_exec(obj: &Vec<(Vec<char>, Vec<char>)>, key: &str) -> (r: Option<Vec<char>>)
    ensures
        opt_text(r) == find_field(pair_views(obj@), key@),
{
    let k = chars_of(key);
    let ghost pv = pair_views(obj@);
    let mut i: usize = 0;
    assert(pv.skip(0) =~= pv);
    while i < obj.len()
        invariant
            i <= obj@.len(),
            pv == pair_views(obj@),
            k@ == key@,
            find_field(pv, key@) == find_field(pv.skip(i as int), key@),
        decreases obj.len() - i,
    {
        assert(pv.skip(i as int)[0] == (obj@[i as int].0@, obj@[i as int].1@));
        assert(pv.skip(i as int).skip(1) =~= pv.skip(i + 1));
        if seq_eq(&obj[i].0, &k) {
            return Some(obj[i].1.clone());
        }
        i = i + 1;
    }
    None
}

fn record_from(obj: &Vec<(Vec<char>, Vec<char>)>) -> (r: Option<(Vec<char>, Vec<char>)>)
    ensures
        match r {
            Some(p) => record_of(pair_views(obj@)) == Some((p.0@, p.1@)),
            None => record_of(pair_views(obj@)) is None,
        },
{
    let url = match find_field_exec(obj, "url") {
        Some(u) => u,
        None => return None,
    };
    if url.len() == 0 {
        return None;
    }
    let title = match find_field_exec(obj, "title") {
        Some(t) => t,
        None => Vec::new(),
    };
    Some((title, url))
}

/// The `(title, url)` records of a saved list, in file order.
fn records_from_text(text: &str) -> (r: Vec<(Vec<char>, Vec<char>)>)
    ensures
        pair_views(r@) == spec_records_from(text@),
{
    let mut p = Parser::new(text);
    let objs = p.parse_array();
    let ghost ov = obj_views(objs@);
    let mut out: Vec<(Vec<char>, Vec<char>)> = Vec::new();
    let mut i: usize = 0;
    assert(ov.take(0) =~= Seq::<Seq<(Seq<char>, Seq<char>)>>::empty());
    assert(pair_views(out@) =~= records_of(ov.take(0)));
    while i < objs.len()
        invariant
            i <= objs@.len(),
            ov == obj_views(objs@),
            pair_views(out@) == records_of(ov.take(i as int)),
        decreases objs.len() - i,
    {
        let ghost o0 = pair_views(out@);
        assert(ov.take(i + 1).drop_last() =~= ov.take(i as int));
        assert(ov.take(i + 1).last() == pair_views(objs@[i as int]@));
        match record_from(&objs[i]) {
            Some(rec) => {
                out.push(rec);
                assert(pair_views(out@) =~= o0 + seq![(rec.0@, rec.1@)]);
            },
            None => {
                assert(pair_views(out@) =~= o0 + Seq::<(Seq<char>, Seq<char>)>::empty());
            },
        }
        i = i + 1;
    }
    assert(ov.take(objs@.len() as int) =~= ov);
    out
}

/// The bookmarks a saved bookmarks file holds: objects with a non-empty
/// `url` (and a `title`, empty when missing), in file order.
pub fn bookmarks_from_text(text: &str) -> (r: Vec<StoredBookmark>)
    ensures
        bookmark_views(r@) == spec_records_from(text@),
{
    let recs = records_from_text(text);
    let ghost rv = pair_views(recs@);
    let mut out: Vec<StoredBookmark> = Vec::new();
    let mut i: usize = 0;
    while i < recs.len()
        invariant
            i <= recs@.len(),
            rv == pair_views(recs@),
            bookmark_views(out@) == rv.take(i as int),
        decreases recs.len() - i,
    {
        let ghost o0 = out@;
        let b = StoredBookmark { title: string_of(&recs[i].0), url: string_of(&recs[i].1) };
        assert(rv[i as int] == (b.title@, b.url@));
        out.push(b);
        proof {
            assert forall|j: int| 0 <= j < out@.len() implies #[trigger] bookmark_views(out@)[j]
                == rv.take(i + 1)[j] by {
                assert(bookmark_views(o0).len() == o0.len());
                if j < o0.len() {
                    assert(out@[j] == o0[j]);
                    assert(bookmark_views(o0)[j] == rv.take(i as int)[j]);
                } else {
                    assert(out@[j] == b);
                }
            }
        }
        assert(rv.len() == recs@.len());
        assert(bookmark_views(out@).len() == out@.len());
        assert(bookmark_views(o0).len() == o0.len());
        i = i + 1;
        assert(bookmark_views(out@) =~= rv.take(i as int));
    }
    assert(rv.take(recs@.len() as int) =~= rv);
    out
}

/// The visits a saved history file holds: objects with a non-empty `url`
/// (and a `title`, empty when missing), in file order.
pub fn history_from_text(text: &str) -> (r: Vec<StoredHistory>)
    ensures
        history_views(r@) == spec_records_from(text@),
{
    let recs = records_from_text(text);
    let ghost rv = pair_views(recs@);
    let mut out: Vec<StoredHistory> = Vec::new();
    let mut i: usize = 0;
    while i < recs.len()
        invariant
            i <= recs@.len(),
            rv == pair_views(recs@),
            history_views(out@) == rv.take(i as int),
        decreases recs.len() - i,
    {
        let ghost o0 = out@;
        let h = StoredHistory { url: string_of(&recs[i].1), title: string_of(&recs[i].0) };
        assert(rv[i as int] == (h.title@, h.url@));
        out.push(h);
        proof {
            assert forall|j: int| 0 <= j < out@.len() implies #[trigger] history_views(out@)[j]
                == rv.take(i + 1)[j] by {
                assert(history_views(o0).len() == o0.len());
                if j < o0.len() {
                    assert(out@[j] == o0[j]);
                    assert(history_views(o0)[j] == rv.take(i as int)[j]);
                } else {
                    assert(out@[j] == h);
                }
            }
        }
        assert(rv.len() == recs@.len());
        assert(history_views(out@).len() == out@.len());
        assert(history_views(o0).len() == o0.len());
        i = i + 1;
        assert(history_views(out@) =~= rv.take(i as int));
    }
    assert(rv.take(recs@.len() as int) =~= rv);
    out
}

/// The theme a saved prefs file names, if any.
pub fn theme_from_text(text: &str) -> (r: Option<String>)
    ensures
        match r {
            Some(t) => spec_theme_from(text@) == Some(t@),
            None => spec_theme_from(text@) is None,
        },
{
    let mut p = Parser::new(text);
    match p.parse_obj() {
        Some(obj) => match find_field_exec(&obj, "theme") {
            Some(t) => Some(string_of(&t)),
            None => None,
        },
        None => None,
    }
}


// ── Reading back what was written ────────────────────────────────────────────

proof fn lemma_hex_lower_value(d: nat)
    requires
        d < 16,
    ensures
        hex_digit_value(hex_lower(d)) == d,
{
}

/// Reading one escaped character decodes it.
proof fn lemma_string_from_char(s: Seq<char>, i: int, out: Seq<char>, c: char)
    requires
        0 <= i,
        i + json_escape_char(c).len() < s.len(),
        s.subrange(i, i + json_escape_char(c).len()) == json_escape_char(c),
    ensures
        string_from(s, i, out) == string_from(s, i + json_escape_char(c).len(), out.push(c)),
{
    let e = json_escape_char(c);
    assert(forall|k: int| 0 <= k < e.len() ==> s[i + k] == #[trigger] e[k]) by {
        assert forall|k: int| 0 <= k < e.len() implies s[i + k] == #[trigger] e[k] by {
            assert(s.subrange(i, i + e.len())[k] == s[i + k]);
        }
    }
    if c == '"' || c == '\\' || c == '\n' || c == '\r' || c == '\t' {
        assert(s[i] == '\\');
        assert(s[i + 1] != 'u');
        assert(unescape_char(s[i + 1]) == c);
    } else if (c as int) < 0x20 {
        let hi = (c as nat) / 16;
        let lo = (c as nat) % 16;
        assert(s[i] == '\\' && s[i + 1] == 'u');
        let h = s.subrange(i + 2, i + 6);
        assert(h =~= seq!['0', '0', hex_lower(hi), hex_lower(lo)]);
        lemma_hex_lower_value(hi);
        lemma_hex_lower_value(lo);
        assert(h[0] != '+');
        assert(all_hex(h));
        let h3 = seq!['0', '0', hex_lower(hi)];
        let h2 = seq!['0', '0'];
        let h1 = seq!['0'];
        let h0 = Seq::<char>::empty();
        assert(h.drop_last() =~= h3);
        assert(h3.drop_last() =~= h2);
        assert(h2.drop_last() =~= h1);
        assert(h1.drop_last() =~= h0);
        assert(hex_digits_value(h0) == 0);
        assert(hex_digits_value(h1) == 0);
        assert(hex_digits_value(h2) == 0);
        assert(hex_digits_value(h3) == hi);
        assert(hex_digits_value(h) == hi * 16 + lo);
        assert(hex_value(h) == Some(c as int));
        assert(code_char(c as int) == c);
    } else {
        assert(e[0] == c);
        assert(s[i] == c);
    }
}

/// Reading an escaped string literal's body decodes it, up to and past the
/// closing quote.
proof fn lemma_string_from_escaped(s: Seq<char>, i: int, out: Seq<char>, v: Seq<char>)
    requires
        0 <= i,
        i + json_escape(v).len() < s.len(),
        s.subrange(i, i + json_escape(v).len()) == json_escape(v),
        s[i + json_escape(v).len()] == '"',
    ensures
        string_from(s, i, out) == (Some(out + v), i + json_escape(v).len() + 1),
    decreases v.len(),
{
    if v.len() == 0 {
        assert(out + v =~= out);
    } else {
        let c = v[0];
        let rest = v.skip(1);
        let e = json_escape_char(c);
        let je = json_escape(v);
        lemma_json_escape_front(v);
        assert forall|k: int| 0 <= k < je.len() implies s[i + k] == #[trigger] je[k] by {
            assert(s.subrange(i, i + je.len())[k] == s[i + k]);
        }
        assert forall|k: int| 0 <= k < e.len() implies #[trigger] s.subrange(i, i + e.len())[k] == e[k] by {
            assert(je[k] == e[k]);
        }
        assert(s.subrange(i, i + e.len()) =~= e);
        lemma_string_from_char(s, i, out, c);
        let jr = json_escape(rest);
        assert forall|k: int| 0 <= k < jr.len() implies #[trigger] s.subrange(
            i + e.len(),
            i + e.len() + jr.len(),
        )[k] == jr[k] by {
            assert(je[e.len() + k] == jr[k]);
        }
        assert(s.subrange(i + e.len(), i + e.len() + jr.len()) =~= jr);
        lemma_string_from_escaped(s, i + e.len(), out.push(c), rest);
        assert(out.push(c) + rest =~= out + v);
    }
}

/// The string literal written for `v` reads back as `v`.
proof fn lemma_p_string_json(s: Seq<char>, i: int, v: Seq<char>)
    requires
        0 <= i,
        i + spec_json_str(v).len() <= s.len(),
        s.subrange(i, i + spec_json_str(v).len()) == spec_json_str(v),
    ensures
        p_string(s, i) == (Some(v), i + spec_json_str(v).len()),
{
    let j = spec_json_str(v);
    let n = json_escape(v).len() as int;
    assert(j.len() == n + 2);
    assert(s[i] == j[0]);
    assert(s[i + 1 + n] == j[n + 1]);
    assert(s.subrange(i + 1, i + 1 + n) =~= j.subrange(1, n + 1));
    assert(j.subrange(1, n + 1) =~= json_escape(v));
    lemma_string_from_escaped(s, i + 1, Seq::empty(), v);
    assert(Seq::<char>::empty() + v =~= v);
}


/// `s` holds `piece` at `i`.
pub open spec fn holds_at(s: Seq<char>, i: int, piece: Seq<char>) -> bool {
    0 <= i && i + piece.len() <= s.len() && s.subrange(i, i + piece.len()) == piece
}

/// What `s` holds at `i` it holds at every part.
proof fn lemma_holds_part(s: Seq<char>, i: int, whole: Seq<char>, off: int, piece: Seq<char>)
    requires
        holds_at(s, i, whole),
        0 <= off,
        off + piece.len() <= whole.len(),
        whole.subrange(off, off + piece.len()) == piece,
    ensures
        holds_at(s, i + off, piece),
{
    assert forall|k: int| 0 <= k < piece.len() implies #[trigger] s.subrange(i + off, i + off + piece.len())[k]
        == piece[k] by {
        assert(s.subrange(i, i + whole.len())[off + k] == whole[off + k]);
        assert(whole.subrange(off, off + piece.len())[k] == whole[off + k]);
    }
    assert(s.subrange(i + off, i + off + piece.len()) =~= piece);
}

proof fn lemma_holds_char(s: Seq<char>, i: int, whole: Seq<char>, off: int)
    requires
        holds_at(s, i, whole),
        0 <= off < whole.len(),
    ensures
        s[i + off] == whole[off],
{
    assert(s.subrange(i, i + whole.len())[off] == s[i + off]);
}

/// One saved record as a JSON object with two string fields.
pub open spec fn spec_record_obj(k1: Seq<char>, v1: Seq<char>, k2: Seq<char>, v2: Seq<char>) -> Seq<char> {
    "{"@ + spec_kv(k1, v1) + ", "@ + spec_kv(k2, v2) + "}"@
}

/// A `"key": "value"` field at `c` reads as that pair, ending where it ends.
proof fn lemma_field_at(s: Seq<char>, c: int, k: Seq<char>, v: Seq<char>)
    requires
        holds_at(s, c, spec_kv(k, v)),
    ensures
        p_string(s, c) == (Some(k), c + spec_json_str(k).len()),
        s[c + spec_json_str(k).len()] == ':',
        ws_end(s, c + spec_json_str(k).len()) == c + spec_json_str(k).len(),
        ws_end(s, c + spec_json_str(k).len() + 1) == c + spec_json_str(k).len() + 2,
        at(s, c + spec_json_str(k).len() + 2, '"'),
        p_string(s, c + spec_json_str(k).len() + 2) == (Some(v), c + spec_kv(k, v).len()),
{
    reveal_strlit(": ");
    let jk = spec_json_str(k);
    let jv = spec_json_str(v);
    let kv = spec_kv(k, v);
    let n = jk.len() as int;
    assert(kv == jk + ": "@ + jv);
    assert(kv.subrange(0, n) =~= jk);
    lemma_holds_part(s, c, kv, 0, jk);
    lemma_p_string_json(s, c, k);
    lemma_holds_char(s, c, kv, n);
    lemma_holds_char(s, c, kv, n + 1);
    assert(kv[n] == ':');
    assert(kv[n + 1] == ' ');
    assert(kv.subrange(n + 2, kv.len() as int) =~= jv);
    lemma_holds_part(s, c, kv, n + 2, jv);
    lemma_p_string_json(s, c + n + 2, v);
    lemma_holds_char(s, c, kv, n + 2);
    assert(jv[0] == '"');
    assert(kv[n + 2] == jv[0]);
    assert(ws_end(s, c + n + 2) == c + n + 2);
    assert(ws_end(s, c + n + 1) == ws_end(s, c + n + 2));
}

/// A written record object reads back as its two fields.
proof fn lemma_p_obj_record(s: Seq<char>, b: int, k1: Seq<char>, v1: Seq<char>, k2: Seq<char>, v2: Seq<char>)
    requires
        holds_at(s, b, spec_record_obj(k1, v1, k2, v2)),
    ensures
        p_obj(s, b) == (
            Some(seq![(k1, v1), (k2, v2)]),
            b + spec_record_obj(k1, v1, k2, v2).len(),
        ),
{
    reveal_strlit("{");
    reveal_strlit(", ");
    reveal_strlit("}");
    let o = spec_record_obj(k1, v1, k2, v2);
    let f1 = spec_kv(k1, v1);
    let f2 = spec_kv(k2, v2);
    assert(o == "{"@ + f1 + ", "@ + f2 + "}"@);
    let t1 = 1 + f1.len() as int;
    let c2 = t1 + 2;
    let t2 = c2 + f2.len() as int;
    assert(o.len() == t2 + 1);
    lemma_holds_char(s, b, o, 0);
    assert(o[0] == '{');
    assert(o.subrange(1, t1) =~= f1);
    lemma_holds_part(s, b, o, 1, f1);
    lemma_field_at(s, b + 1, k1, v1);
    assert(spec_json_str(k1)[0] == '"');
    assert(f1[0] == spec_json_str(k1)[0]);
    lemma_holds_char(s, b, o, 1);
    lemma_holds_char(s, b, o, t1);
    lemma_holds_char(s, b, o, t1 + 1);
    assert(o[t1] == ',');
    assert(o[t1 + 1] == ' ');
    assert(o.subrange(c2, t2) =~= f2);
    lemma_holds_part(s, b, o, c2, f2);
    lemma_field_at(s, b + c2, k2, v2);
    assert(spec_json_str(k2)[0] == '"');
    assert(f2[0] == spec_json_str(k2)[0]);
    lemma_holds_char(s, b, o, c2);
    lemma_holds_char(s, b, o, t2);
    assert(o[t2] == '}');
    let pairs1 = seq![(k1, v1)];
    let pairs2 = seq![(k1, v1), (k2, v2)];
    assert(pairs1.push((k2, v2)) =~= pairs2);
    assert(Seq::<(Seq<char>, Seq<char>)>::empty().push((k1, v1)) =~= pairs1);
    assert(obj_loop(s, b + t2, pairs2) == (Some(pairs2), b + t2 + 1));
    assert(ws_end(s, b + c2) == b + c2);
    assert(ws_end(s, b + t1 + 1) == ws_end(s, b + c2));
    assert(obj_loop(s, b + t1, pairs1) == obj_loop(s, b + t2, pairs2));
    assert(obj_loop(s, b + 1, Seq::empty()) == obj_loop(s, b + t1, pairs1));
}


/// A list of two-field records as `(key1, value1, key2, value2)`.
pub open spec fn quad_lines(qs: Seq<(Seq<char>, Seq<char>, Seq<char>, Seq<char>)>, i: int) -> Seq<char>
    decreases i,
{
    if i <= 0 || i > qs.len() {
        Seq::empty()
    } else {
        quad_lines(qs, i - 1) + record_line(qs[i - 1].0, qs[i - 1].1, qs[i - 1].2, qs[i - 1].3, i - 1, qs.len() as int)
    }
}

pub open spec fn quad_obj(q: (Seq<char>, Seq<char>, Seq<char>, Seq<char>)) -> Seq<char> {
    spec_record_obj(q.0, q.1, q.2, q.3)
}

pub open spec fn quad_pairs(q: (Seq<char>, Seq<char>, Seq<char>, Seq<char>)) -> Seq<(Seq<char>, Seq<char>)> {
    seq![(q.0, q.1), (q.2, q.3)]
}

/// Where line `k` of the file starts.
pub open spec fn line_start(qs: Seq<(Seq<char>, Seq<char>, Seq<char>, Seq<char>)>, k: int) -> int {
    2 + quad_lines(qs, k).len() as int
}

/// Where the array reader stands before element `k`: after the opening
/// bracket, or just after the previous object.
pub open spec fn elem_pos(qs: Seq<(Seq<char>, Seq<char>, Seq<char>, Seq<char>)>, k: int) -> int {
    if k == 0 {
        1
    } else {
        line_start(qs, k - 1) + 2 + quad_obj(qs[k - 1]).len()
    }
}

proof fn lemma_record_line_shape(k1: Seq<char>, v1: Seq<char>, k2: Seq<char>, v2: Seq<char>, k: int, n: int)
    ensures
        record_line(k1, v1, k2, v2, k, n) == "  "@ + spec_record_obj(k1, v1, k2, v2) + (if k + 1 < n {
            ","@
        } else {
            Seq::empty()
        }) + "\n"@,
{
    reveal_strlit("  {");
    reveal_strlit("  ");
    reveal_strlit("{");
    assert("  {"@ =~= "  "@ + "{"@);
    assert(record_line(k1, v1, k2, v2, k, n) =~= "  "@ + spec_record_obj(k1, v1, k2, v2) + (if k + 1 < n {
        ","@
    } else {
        Seq::empty()
    }) + "\n"@);
}

proof fn lemma_quad_lines_prefix(qs: Seq<(Seq<char>, Seq<char>, Seq<char>, Seq<char>)>, k: int, m: int)
    requires
        0 <= k <= m <= qs.len(),
    ensures
        quad_lines(qs, k).len() <= quad_lines(qs, m).len(),
        quad_lines(qs, m).subrange(0, quad_lines(qs, k).len() as int) == quad_lines(qs, k),
    decreases m - k,
{
    if k < m {
        lemma_quad_lines_prefix(qs, k, m - 1);
        let a = quad_lines(qs, m - 1);
        let b = quad_lines(qs, m);
        assert(b == a + record_line(qs[m - 1].0, qs[m - 1].1, qs[m - 1].2, qs[m - 1].3, m - 1, qs.len() as int));
        assert(b.subrange(0, quad_lines(qs, k).len() as int) =~= a.subrange(0, quad_lines(qs, k).len() as int));
    } else {
        assert(quad_lines(qs, m).subrange(0, quad_lines(qs, m).len() as int) =~= quad_lines(qs, m));
    }
}

/// The file for `qs`: a bracketed list with one record per line.
pub open spec fn quad_file(qs: Seq<(Seq<char>, Seq<char>, Seq<char>, Seq<char>)>) -> Seq<char> {
    "[\n"@ + quad_lines(qs, qs.len() as int) + "]\n"@
}

/// Line `k` sits at its start in the file.
proof fn lemma_line_in_file(qs: Seq<(Seq<char>, Seq<char>, Seq<char>, Seq<char>)>, k: int)
    requires
        0 <= k < qs.len(),
    ensures
        holds_at(
            quad_file(qs),
            line_start(qs, k),
            record_line(qs[k].0, qs[k].1, qs[k].2, qs[k].3, k, qs.len() as int),
        ),
        line_start(qs, k + 1) == line_start(qs, k) + record_line(qs[k].0, qs[k].1, qs[k].2, qs[k].3, k, qs.len() as int).len(),
{
    reveal_strlit("[\n");
    let t = quad_file(qs);
    let n = qs.len() as int;
    let all = quad_lines(qs, n);
    let line = record_line(qs[k].0, qs[k].1, qs[k].2, qs[k].3, k, n);
    lemma_quad_lines_prefix(qs, k + 1, n);
    let pre = quad_lines(qs, k + 1);
    assert(pre == quad_lines(qs, k) + line);
    let st = quad_lines(qs, k).len() as int;
    assert forall|j: int| 0 <= j < line.len() implies #[trigger] t.subrange(2 + st, 2 + st + line.len())[j] == line[j] by {
        assert(t[2 + st + j] == all[st + j]);
        assert(all.subrange(0, pre.len() as int)[st + j] == pre[st + j]);
        assert(pre[st + j] == line[j]);
    }
    assert(t.subrange(2 + st, 2 + st + line.len()) =~= line);
}

proof fn lemma_tail_of_file(qs: Seq<(Seq<char>, Seq<char>, Seq<char>, Seq<char>)>)
    ensures
        holds_at(quad_file(qs), line_start(qs, qs.len() as int), "]\n"@),
        quad_file(qs)[1] == '\n',
        quad_file(qs)[0] == '[',
{
    reveal_strlit("[\n");
    reveal_strlit("]\n");
    let t = quad_file(qs);
    let st = line_start(qs, qs.len() as int);
    assert(t.subrange(st, st + 2) =~= "]\n"@);
}

/// What follows element `k - 1`: a comma and a newline before the next line,
/// or a newline before the closing bracket after the last one.
proof fn lemma_after_obj(qs: Seq<(Seq<char>, Seq<char>, Seq<char>, Seq<char>)>, k: int)
    requires
        0 < k <= qs.len(),
    ensures
        k < qs.len() ==> quad_file(qs)[elem_pos(qs, k)] == ',' && quad_file(qs)[elem_pos(qs, k) + 1]
            == '\n' && line_start(qs, k) == elem_pos(qs, k) + 2,
        k == qs.len() ==> quad_file(qs)[elem_pos(qs, k)] == '\n' && line_start(qs, k) == elem_pos(qs, k)
            + 1,
{
    reveal_strlit(",");
    reveal_strlit("\n");
    reveal_strlit("  ");
    let t = quad_file(qs);
    let n = qs.len() as int;
    let q = qs[k - 1];
    let line = record_line(q.0, q.1, q.2, q.3, k - 1, n);
    lemma_line_in_file(qs, k - 1);
    lemma_record_line_shape(q.0, q.1, q.2, q.3, k - 1, n);
    let ol = quad_obj(q).len() as int;
    lemma_holds_char(t, line_start(qs, k - 1), line, 2 + ol);
    if k < n {
        lemma_holds_char(t, line_start(qs, k - 1), line, 3 + ol);
    }
}

/// After the last element the reader meets the closing bracket.
proof fn lemma_array_loop_end(
    qs: Seq<(Seq<char>, Seq<char>, Seq<char>, Seq<char>)>,
    items: Seq<Seq<(Seq<char>, Seq<char>)>>,
)
    requires
        qs.len() == 0 <==> items.len() == 0,
    ensures
        array_loop(quad_file(qs), elem_pos(qs, qs.len() as int), items) == items,
{
    reveal_strlit("]\n");
    let t = quad_file(qs);
    let n = qs.len() as int;
    let i = elem_pos(qs, n);
    lemma_tail_of_file(qs);
    lemma_holds_char(t, line_start(qs, n), "]\n"@, 0);
    if n == 0 {
        assert(line_start(qs, 0) == 2);
        assert(ws_end(t, 2) == 2);
        assert(ws_end(t, 1) == 2);
    } else {
        lemma_after_obj(qs, n);
        assert(ws_end(t, i + 1) == i + 1);
        assert(ws_end(t, i) == i + 1);
    }
}

/// One turn of the array reader that meets an object it can read.
proof fn lemma_array_loop_obj(
    s: Seq<char>,
    i: int,
    items: Seq<Seq<(Seq<char>, Seq<char>)>>,
    b: int,
    obj: Seq<(Seq<char>, Seq<char>)>,
    e: int,
)
    requires
        0 <= i,
        items.len() == 0 ==> ws_end(s, i) == b,
        items.len() > 0 ==> ws_end(s, i) == i && at(s, i, ',') && ws_end(s, i + 1) == b,
        i <= b,
        at(s, b, '{'),
        p_obj(s, b) == (Some(obj), e),
        i < e <= s.len(),
    ensures
        array_loop(s, i, items) == array_loop(s, e, items.push(obj)),
{
}

/// Where element `k` is: the reader skips to its opening brace, and the
/// object there reads as its two fields.
proof fn lemma_elem_facts(qs: Seq<(Seq<char>, Seq<char>, Seq<char>, Seq<char>)>, k: int)
    requires
        0 <= k < qs.len(),
    ensures
        ({
            let t = quad_file(qs);
            let i = elem_pos(qs, k);
            let b = line_start(qs, k) + 2;
            &&& k == 0 ==> ws_end(t, i) == b
            &&& k > 0 ==> ws_end(t, i) == i && at(t, i, ',') && ws_end(t, i + 1) == b
            &&& i <= b
            &&& at(t, b, '{')
            &&& p_obj(t, b) == (Some(quad_pairs(qs[k])), elem_pos(qs, k + 1))
            &&& i < elem_pos(qs, k + 1) <= t.len()
        }),
{
    reveal_strlit("  ");
    reveal_strlit("{");
    let t = quad_file(qs);
    let n = qs.len() as int;
    let i = elem_pos(qs, k);
    let q = qs[k];
    let line = record_line(q.0, q.1, q.2, q.3, k, n);
    let o = quad_obj(q);
    let ol = o.len() as int;
    let st = line_start(qs, k);
    lemma_line_in_file(qs, k);
    lemma_record_line_shape(q.0, q.1, q.2, q.3, k, n);
    assert(line.subrange(2, 2 + ol) =~= o);
    lemma_holds_part(t, st, line, 2, o);
    lemma_p_obj_record(t, st + 2, q.0, q.1, q.2, q.3);
    lemma_holds_char(t, st, line, 0);
    lemma_holds_char(t, st, line, 1);
    lemma_holds_char(t, st, line, 2);
    assert(o[0] == '{');
    assert(line[2] == o[0]);
    assert(ws_end(t, st + 2) == st + 2);
    assert(ws_end(t, st + 1) == st + 2);
    assert(ws_end(t, st) == st + 2);
    lemma_tail_of_file(qs);
    if k == 0 {
        assert(st == 2);
        assert(ws_end(t, 1) == st + 2);
    } else {
        lemma_after_obj(qs, k);
        assert(ws_end(t, i + 1) == st + 2);
        assert(ws_end(t, i) == i);
    }
    assert(elem_pos(qs, k + 1) == st + 2 + ol);
}

/// Before element `k` the reader skips to the next object and reads it.
proof fn lemma_array_loop_step(
    qs: Seq<(Seq<char>, Seq<char>, Seq<char>, Seq<char>)>,
    k: int,
    items: Seq<Seq<(Seq<char>, Seq<char>)>>,
)
    requires
        0 <= k < qs.len(),
        k == 0 <==> items.len() == 0,
    ensures
        array_loop(quad_file(qs), elem_pos(qs, k), items) == array_loop(
            quad_file(qs),
            elem_pos(qs, k + 1),
            items.push(quad_pairs(qs[k])),
        ),
{
    lemma_elem_facts(qs, k);
    lemma_array_loop_obj(
        quad_file(qs),
        elem_pos(qs, k),
        items,
        line_start(qs, k) + 2,
        quad_pairs(qs[k]),
        elem_pos(qs, k + 1),
    );
}

/// The array reader, standing before element `k`, reads the remaining
/// records of the file.
proof fn lemma_array_loop_file(qs: Seq<(Seq<char>, Seq<char>, Seq<char>, Seq<char>)>, k: int)
    requires
        0 <= k <= qs.len(),
    ensures
        array_loop(quad_file(qs), elem_pos(qs, k), qs.take(k).map_values(|q: (Seq<char>, Seq<char>, Seq<char>, Seq<char>)| quad_pairs(q)))
            == qs.map_values(|q: (Seq<char>, Seq<char>, Seq<char>, Seq<char>)| quad_pairs(q)),
    decreases qs.len() - k,
{
    let f = |q: (Seq<char>, Seq<char>, Seq<char>, Seq<char>)| quad_pairs(q);
    let items = qs.take(k).map_values(f);
    if k == qs.len() {
        lemma_array_loop_end(qs, items);
        assert(qs.take(k) =~= qs);
    } else {
        lemma_array_loop_step(qs, k, items);
        assert(items.push(quad_pairs(qs[k])) =~= qs.take(k + 1).map_values(f));
        lemma_array_loop_file(qs, k + 1);
    }
}


proof fn lemma_p_array_file(qs: Seq<(Seq<char>, Seq<char>, Seq<char>, Seq<char>)>)
    ensures
        p_array(quad_file(qs)) == qs.map_values(|q: (Seq<char>, Seq<char>, Seq<char>, Seq<char>)| quad_pairs(q)),
{
    lemma_tail_of_file(qs);
    lemma_array_loop_file(qs, 0);
    assert(qs.take(0).map_values(|q: (Seq<char>, Seq<char>, Seq<char>, Seq<char>)| quad_pairs(q)) =~= Seq::<
        Seq<(Seq<char>, Seq<char>)>,
    >::empty());
    assert(ws_end(quad_file(qs), 0) == 0);
}

/// Bookmarks as file records: title first, then URL.
pub open spec fn bookmark_quads(bs: Seq<(Seq<char>, Seq<char>)>) -> Seq<(Seq<char>, Seq<char>, Seq<char>, Seq<char>)> {
    bs.map_values(|b: (Seq<char>, Seq<char>)| ("title"@, b.0, "url"@, b.1))
}

/// History entries as file records: URL first, then title.
pub open spec fn history_quads(hs: Seq<(Seq<char>, Seq<char>)>) -> Seq<(Seq<char>, Seq<char>, Seq<char>, Seq<char>)> {
    hs.map_values(|h: (Seq<char>, Seq<char>)| ("url"@, h.1, "title"@, h.0))
}

proof fn lemma_bookmark_lines_quads(bs: Seq<(Seq<char>, Seq<char>)>, i: int)
    ensures
        bookmark_lines(bs, i) == quad_lines(bookmark_quads(bs), i),
    decreases i,
{
    if 0 < i <= bs.len() {
        lemma_bookmark_lines_quads(bs, i - 1);
    }
}

proof fn lemma_history_lines_quads(hs: Seq<(Seq<char>, Seq<char>)>, i: int)
    ensures
        history_lines(hs, i) == quad_lines(history_quads(hs), i),
    decreases i,
{
    if 0 < i <= hs.len() {
        lemma_history_lines_quads(hs, i - 1);
    }
}

proof fn lemma_keys_differ()
    ensures
        "title"@ != "url"@,
        "url"@ != "title"@,
        "url"@ != "theme"@,
{
    reveal_strlit("title");
    reveal_strlit("url");
    reveal_strlit("theme");
    assert("title"@.len() == 5);
    assert("url"@.len() == 3);
    assert("theme"@.len() == 5);
}

proof fn lemma_records_of_pairs(
    rs: Seq<(Seq<char>, Seq<char>)>,
    qs: Seq<(Seq<char>, Seq<char>, Seq<char>, Seq<char>)>,
)
    requires
        qs.len() == rs.len(),
        forall|i: int| 0 <= i < rs.len() ==> record_of(#[trigger] quad_pairs(qs[i])) == Some(rs[i]),
    ensures
        records_of(qs.map_values(|q: (Seq<char>, Seq<char>, Seq<char>, Seq<char>)| quad_pairs(q))) == rs,
    decreases rs.len(),
{
    let f = |q: (Seq<char>, Seq<char>, Seq<char>, Seq<char>)| quad_pairs(q);
    let objs = qs.map_values(f);
    if rs.len() > 0 {
        let n = rs.len() - 1;
        assert(objs.drop_last() =~= qs.drop_last().map_values(f));
        assert(record_of(quad_pairs(qs[n])) == Some(rs[n]));
        lemma_records_of_pairs(rs.drop_last(), qs.drop_last());
        assert(records_of(objs) =~= rs.drop_last() + seq![rs[n]]);
        assert(rs.drop_last() + seq![rs[n]] =~= rs);
    } else {
        assert(objs =~= Seq::<Seq<(Seq<char>, Seq<char>)>>::empty());
    }
}

/// Bookmarks written to their file read back as they were, when every one
/// has a URL.
pub proof fn law_bookmarks_roundtrip(bs: Seq<(Seq<char>, Seq<char>)>)
    requires
        forall|i: int| 0 <= i < bs.len() ==> (#[trigger] bs[i]).1.len() > 0,
    ensures
        spec_records_from(spec_bookmarks_json(bs)) == bs,
{
    let qs = bookmark_quads(bs);
    lemma_bookmark_lines_quads(bs, bs.len() as int);
    assert(spec_bookmarks_json(bs) == quad_file(qs));
    lemma_p_array_file(qs);
    lemma_keys_differ();
    assert forall|i: int| 0 <= i < bs.len() implies record_of(#[trigger] quad_pairs(qs[i])) == Some(bs[i]) by {
        assert(qs[i] == ("title"@, bs[i].0, "url"@, bs[i].1));
        let o = quad_pairs(qs[i]);
        assert(o[0] == ("title"@, bs[i].0));
        assert(o.skip(1)[0] == ("url"@, bs[i].1));
        assert(find_field(o.skip(1), "url"@) == Some(bs[i].1));
        assert(find_field(o, "url"@) == Some(bs[i].1));
        assert(find_field(o, "title"@) == Some(bs[i].0));
    }
    lemma_records_of_pairs(bs, qs);
}

/// History written to its file reads back as it was, when every entry has
/// a URL.
pub proof fn law_history_roundtrip(hs: Seq<(Seq<char>, Seq<char>)>)
    requires
        forall|i: int| 0 <= i < hs.len() ==> (#[trigger] hs[i]).1.len() > 0,
    ensures
        spec_records_from(spec_history_json(hs)) == hs,
{
    let qs = history_quads(hs);
    lemma_history_lines_quads(hs, hs.len() as int);
    assert(spec_history_json(hs) == quad_file(qs));
    lemma_p_array_file(qs);
    lemma_keys_differ();
    assert forall|i: int| 0 <= i < hs.len() implies record_of(#[trigger] quad_pairs(qs[i])) == Some(hs[i]) by {
        let o = quad_pairs(qs[i]);
        assert(o.skip(1)[0] == ("title"@, hs[i].0));
        assert(find_field(o, "url"@) == Some(hs[i].1));
        assert(o.skip(1).skip(1).len() == 0);
        assert(find_field(o.skip(1), "title"@) == Some(hs[i].0));
        assert(find_field(o, "title"@) == Some(hs[i].0));
    }
    lemma_records_of_pairs(hs, qs);
}

/// The object reader, before its first field, reads a `"key": "value"` field
/// it meets after whitespace.
proof fn lemma_obj_loop_first_field(s: Seq<char>, i: int, c: int, k: Seq<char>, v: Seq<char>)
    requires
        0 <= i <= c,
        ws_end(s, i) == c,
        holds_at(s, c, spec_kv(k, v)),
    ensures
        obj_loop(s, i, Seq::empty()) == obj_loop(s, c + spec_kv(k, v).len(), seq![(k, v)]),
{
    lemma_field_at(s, c, k, v);
    assert(spec_json_str(k)[0] == '"');
    assert(spec_kv(k, v)[0] == spec_json_str(k)[0]);
    lemma_holds_char(s, c, spec_kv(k, v), 0);
    assert(Seq::<(Seq<char>, Seq<char>)>::empty().push((k, v)) =~= seq![(k, v)]);
}

/// The object reader stops at a closing brace after whitespace.
proof fn lemma_obj_loop_close(s: Seq<char>, i: int, c: int, pairs: Seq<(Seq<char>, Seq<char>)>)
    requires
        0 <= i <= c,
        ws_end(s, i) == c,
        at(s, c, '}'),
    ensures
        obj_loop(s, i, pairs) == (Some(pairs), c + 1),
{
}

/// The saved theme name reads back as written.
pub proof fn law_theme_roundtrip(theme: Seq<char>)
    ensures
        spec_theme_from(spec_theme_json(theme)) == Some(theme),
{
    reveal_strlit("{\n  ");
    reveal_strlit("\n}\n");
    let s = spec_theme_json(theme);
    let kv = spec_kv("theme"@, theme);
    assert(s == "{\n  "@ + kv + "\n}\n"@);
    let e = 4 + kv.len() as int;
    assert(s.subrange(4, e) =~= kv);
    assert(spec_json_str("theme"@)[0] == '"');
    assert(kv[0] == spec_json_str("theme"@)[0]);
    assert(s[4] == kv[0]);
    assert(s[1] == '\n' && s[2] == ' ' && s[3] == ' ');
    assert(ws_end(s, 4) == 4);
    assert(ws_end(s, 3) == 4);
    assert(ws_end(s, 2) == 4);
    assert(ws_end(s, 1) == 4);
    lemma_obj_loop_first_field(s, 1, 4, "theme"@, theme);
    assert(s[e] == '\n' && s[e + 1] == '}');
    assert(ws_end(s, e + 1) == e + 1);
    assert(ws_end(s, e) == e + 1);
    lemma_obj_loop_close(s, e, e + 1, seq![("theme"@, theme)]);
    assert(ws_end(s, 0) == 0);
    assert(p_obj(s, 0) == (Some(seq![("theme"@, theme)]), e + 2));
}

} // verus!
