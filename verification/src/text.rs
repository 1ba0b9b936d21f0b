//! Character-sequence utilities shared by the browser's parsers and rule engines.
//!
//! Text is handled as `Vec<char>` inside the library. The helpers here convert
//! to and from `str`/`String` and give each scanning primitive an exact
//! specification over `Seq<char>`.
use vstd::prelude::*;

verus! {

broadcast use vstd::string::group_string_axioms;

// ── Character classes ─────────────────────────────────────────────────────────

/// Unicode `White_Space`, as `char::is_whitespace` defines it.
pub open spec fn is_ws(c: char) -> bool {
    ||| c == ' '
    ||| ('\t' <= c && c <= '\r')
    ||| c == '\u{85}'
    ||| c == '\u{A0}'
    ||| c == '\u{1680}'
    ||| ('\u{2000}' <= c && c <= '\u{200A}')
    ||| c == '\u{2028}'
    ||| c == '\u{2029}'
    ||| c == '\u{202F}'
    ||| c == '\u{205F}'
    ||| c == '\u{3000}'
}

pub open spec fn is_ascii_digit(c: char) -> bool {
    '0' <= c && c <= '9'
}

pub open spec fn is_ascii_upper(c: char) -> bool {
    'A' <= c && c <= 'Z'
}

pub open spec fn is_ascii_lower(c: char) -> bool {
    'a' <= c && c <= 'z'
}

pub open spec fn is_ascii_alnum(c: char) -> bool {
    is_ascii_digit(c) || is_ascii_upper(c) || is_ascii_lower(c)
}

/// `char::to_ascii_lowercase`.
pub open spec fn lower_char(c: char) -> char {
    if is_ascii_upper(c) {
        ((c as int) + 32) as char
    } else {
        c
    }
}

/// `str::to_ascii_lowercase`.
pub open spec fn lower(s: Seq<char>) -> Seq<char> {
    s.map_values(|c: char| lower_char(c))
}

pub open spec fn ws_pred() -> spec_fn(char) -> bool {
    |c: char| is_ws(c)
}

pub open spec fn eq_pred(x: char) -> spec_fn(char) -> bool {
    |c: char| c == x
}

pub fn is_ws_exec(c: char) -> (b: bool)
    ensures
        b == is_ws(c),
{
    c == ' ' || ('\t' <= c && c <= '\r') || c == '\u{85}' || c == '\u{A0}' || c == '\u{1680}'
        || ('\u{2000}' <= c && c <= '\u{200A}') || c == '\u{2028}' || c == '\u{2029}' || c
        == '\u{202F}' || c == '\u{205F}' || c == '\u{3000}'
}

pub fn is_digit_exec(c: char) -> (b: bool)
    ensures
        b == is_ascii_digit(c),
{
    '0' <= c && c <= '9'
}

pub fn lower_char_exec(c: char) -> (r: char)
    ensures
        r == lower_char(c),
{
    if 'A' <= c && c <= 'Z' {
        let b: u8 = c as u8;
        (b + 32) as char
    } else {
        c
    }
}

// ── Conversions between `str`/`String` and character vectors ─────────────────

/// Appends one character to a `String` (`String::push`).
/// Trusted: afterwards the string holds its old characters followed by `c`.
#[verifier::external_body]
pub(crate) fn string_push(s: &mut String, c: char)
    ensures
        final(s)@ == old(s)@.push(c),
{
    s.push(c);
}

/// Removes and returns the last character of a `String` (`String::pop`).
/// Trusted: a non-empty string loses its last character, which is returned; an
/// empty string is left as it is and `None` comes back.
#[verifier::external_body]
pub(crate) fn string_pop(s: &mut String) -> (r: Option<char>)
    ensures
        old(s)@.len() > 0 ==> r == Some(old(s)@.last()) && final(s)@ == old(s)@.drop_last(),
        old(s)@.len() == 0 ==> r is None && final(s)@ == old(s)@,
{
    s.pop()
}

/// The uppercase of an ASCII character: `a`-`z` become `A`-`Z`, the rest
/// stay as they are.
pub open spec fn ascii_upper(c: char) -> char {
    if is_ascii_lower(c) {
        ((c as int) - 32) as char
    } else {
        c
    }
}

/// The first character of the uppercase mapping of `c`.
pub uninterp spec fn char_uppercase_first(c: char) -> Option<char>;

/// The first character that `char::to_uppercase` yields.
/// Trusted: the result is that of `char::to_uppercase(c).next()`, which always
/// yields at least one character; for an ASCII character it is its ASCII
/// uppercase (a character without an uppercase mapping yields itself).
#[verifier::external_body]
pub(crate) fn uppercase_first(c: char) -> (r: Option<char>)
    ensures
        r == char_uppercase_first(c),
        r is Some,
        (c as u32) < 128 ==> r == Some(ascii_upper(c)),
{
    c.to_uppercase().next()
}

/// Whether a character is alphabetic or numeric in Unicode.
pub uninterp spec fn char_is_alphanumeric(c: char) -> bool;

/// `char::is_alphanumeric`.
/// Trusted: the result is Unicode's `Alphabetic` or `Numeric` property of `c`,
/// a function of `c` alone; among ASCII characters exactly the letters and
/// digits have it.
#[verifier::external_body]
pub(crate) fn is_alphanumeric(c: char) -> (b: bool)
    ensures
        b == char_is_alphanumeric(c),
        (c as u32) < 128 ==> b == is_ascii_alnum(c),
{
    c.is_alphanumeric()
}

/// Whether a character is alphabetic in Unicode.
pub uninterp spec fn char_is_alphabetic(c: char) -> bool;

/// `char::is_alphabetic`.
/// Trusted: the result is Unicode's `Alphabetic` property of `c`, a function
/// of `c` alone; among ASCII characters exactly the letters have it.
#[verifier::external_body]
pub(crate) fn is_alphabetic(c: char) -> (b: bool)
    ensures
        b == char_is_alphabetic(c),
        (c as u32) < 128 ==> b == (is_ascii_upper(c) || is_ascii_lower(c)),
{
    c.is_alphabetic()
}

/// A Unicode scalar value: a code point outside the surrogate range.
pub open spec fn is_scalar(code: int) -> bool {
    (0 <= code < 0xD800) || (0xE000 <= code <= 0x10FFFF)
}

/// The character with a given code (`char::from_u32`).
/// Trusted: a Unicode scalar value gives its character, anything else `None`.
#[verifier::external_body]
pub(crate) fn char_from_u32(code: u32) -> (r: Option<char>)
    ensures
        is_scalar(code as int) ==> r == Some(code as char),
        !is_scalar(code as int) ==> r is None,
{
    char::from_u32(code)
}

/// The characters of a string slice, in order.
pub fn chars_of(s: &str) -> (v: Vec<char>)
    ensures
        v@ == s@,
{
    let mut v: Vec<char> = Vec::new();
    for c in it: s.chars()
        invariant
            v@ == it.seq().take(it.index() as int),
    {
        v.push(c);
    }
    v
}

/// A `String` holding exactly the given characters.
pub fn string_of(v: &Vec<char>) -> (s: String)
    ensures
        s@ == v@,
{
    let mut s = String::new();
    let mut i: usize = 0;
    while i < v.len()
        invariant
            i <= v.len(),
            s@ == v@.take(i as int),
        decreases v.len() - i,
    {
        string_push(&mut s, v[i]);
        i = i + 1;
        assert(v@.take(i as int) == v@.take(i - 1).push(v@[i - 1]));
    }
    assert(v@.take(v.len() as int) == v@);
    s
}

/// Characters of a literal, in order.
pub fn lit(s: &str) -> (v: Vec<char>)
    ensures
        v@ == s@,
{
    chars_of(s)
}

// ── Comparisons and copies ────────────────────────────────────────────────────

pub fn seq_eq(a: &Vec<char>, b: &Vec<char>) -> (r: bool)
    ensures
        r == (a@ == b@),
{
    if a.len() != b.len() {
        return false;
    }
    let mut i: usize = 0;
    while i < a.len()
        invariant
            i <= a.len(),
            a.len() == b.len(),
            forall|j: int| 0 <= j < i ==> a@[j] == b@[j],
        decreases a.len() - i,
    {
        if a[i] != b[i] {
            return false;
        }
        i = i + 1;
    }
    assert(a@ =~= b@);
    true
}

/// A copy of `v[start..end]`.
pub fn slice_of(v: &Vec<char>, start: usize, end: usize) -> (r: Vec<char>)
    requires
        start <= end <= v.len(),
    ensures
        r@ == v@.subrange(start as int, end as int),
{
    let mut r: Vec<char> = Vec::new();
    let mut i: usize = start;
    while i < end
        invariant
            start <= i <= end <= v.len(),
            r@ == v@.subrange(start as int, i as int),
        decreases end - i,
    {
        r.push(v[i]);
        i = i + 1;
        assert(r@ =~= v@.subrange(start as int, i as int));
    }
    r
}

/// `a` followed by `b`.
/// Appends every character of `b` to `r`.
pub fn extend_chars(r: &mut Vec<char>, b: &Vec<char>)
    ensures
        final(r)@ == old(r)@ + b@,
{
    let mut i: usize = 0;
    while i < b.len()
        invariant
            i <= b.len(),
            r@ == old(r)@ + b@.take(i as int),
        decreases b.len() - i,
    {
        r.push(b[i]);
        i = i + 1;
        assert(r@ =~= old(r)@ + b@.take(i as int));
    }
    assert(b@.take(b.len() as int) =~= b@);
}

pub fn to_lower(v: &Vec<char>) -> (r: Vec<char>)
    ensures
        r@ == lower(v@),
{
    let mut r: Vec<char> = Vec::new();
    let mut i: usize = 0;
    while i < v.len()
        invariant
            i <= v.len(),
            r@ == lower(v@.take(i as int)),
        decreases v.len() - i,
    {
        let c = lower_char_exec(v[i]);
        r.push(c);
        i = i + 1;
        assert(r@ =~= lower(v@.take(i as int)));
    }
    assert(v@.take(v.len() as int) =~= v@);
    r
}

// ── Prefixes, suffixes, and scanning ──────────────────────────────────────────

pub open spec fn starts_with(s: Seq<char>, p: Seq<char>) -> bool {
    p.len() <= s.len() && s.take(p.len() as int) == p
}

pub open spec fn ends_with(s: Seq<char>, p: Seq<char>) -> bool {
    p.len() <= s.len() && s.skip(s.len() - p.len()) == p
}

/// `pat` occurs in `s` at position `i`.
pub open spec fn occurs_at(s: Seq<char>, pat: Seq<char>, i: int) -> bool {
    0 <= i && i + pat.len() <= s.len() && s.subrange(i, i + pat.len()) == pat
}

/// The first position at or after `i` where `pat` occurs in `s`.
pub open spec fn find_from(s: Seq<char>, pat: Seq<char>, i: int) -> Option<int>
    decreases s.len() + 1 - i,
{
    if i < 0 || i + pat.len() > s.len() {
        None
    } else if occurs_at(s, pat, i) {
        Some(i)
    } else {
        find_from(s, pat, i + 1)
    }
}

pub open spec fn find(s: Seq<char>, pat: Seq<char>) -> Option<int> {
    find_from(s, pat, 0)
}

pub open spec fn contains(s: Seq<char>, pat: Seq<char>) -> bool {
    find(s, pat) is Some
}

/// The first position at or after `i` whose character satisfies `p`.
pub open spec fn first_where(s: Seq<char>, p: spec_fn(char) -> bool, i: int) -> Option<int>
    decreases s.len() - i,
{
    if i < 0 || i >= s.len() {
        None
    } else if p(s[i]) {
        Some(i)
    } else {
        first_where(s, p, i + 1)
    }
}

/// The last position below `j` whose character satisfies `p`.
pub open spec fn last_where(s: Seq<char>, p: spec_fn(char) -> bool, j: int) -> Option<int>
    decreases j,
{
    if j <= 0 || j > s.len() {
        None
    } else if p(s[j - 1]) {
        Some(j - 1)
    } else {
        last_where(s, p, j - 1)
    }
}

/// Position of the first character at or after `i` that does not satisfy `p`
/// (or `s.len()`).
pub open spec fn skip_while(s: Seq<char>, p: spec_fn(char) -> bool, i: int) -> int
    decreases s.len() - i,
{
    if 0 <= i < s.len() && p(s[i]) {
        skip_while(s, p, i + 1)
    } else {
        i
    }
}

/// End of `s[..j]` once trailing characters satisfying `p` are removed.
pub open spec fn back_while(s: Seq<char>, p: spec_fn(char) -> bool, j: int) -> int
    decreases j,
{
    if 0 < j <= s.len() && p(s[j - 1]) {
        back_while(s, p, j - 1)
    } else {
        j
    }
}

pub open spec fn trim_start_by(s: Seq<char>, p: spec_fn(char) -> bool) -> Seq<char> {
    s.skip(skip_while(s, p, 0))
}

pub open spec fn trim_end_by(s: Seq<char>, p: spec_fn(char) -> bool) -> Seq<char> {
    s.take(back_while(s, p, s.len() as int))
}

pub open spec fn trim_by(s: Seq<char>, p: spec_fn(char) -> bool) -> Seq<char> {
    trim_end_by(trim_start_by(s, p), p)
}

/// `str::trim`.
pub open spec fn trim(s: Seq<char>) -> Seq<char> {
    trim_by(s, ws_pred())
}

pub open spec fn all_digits(s: Seq<char>) -> bool {
    forall|i: int| 0 <= i < s.len() ==> is_ascii_digit(#[trigger] s[i])
}

proof fn lemma_skip_while_bounds(s: Seq<char>, p: spec_fn(char) -> bool, i: int)
    requires
        0 <= i <= s.len(),
    ensures
        i <= skip_while(s, p, i) <= s.len(),
        forall|k: int| i <= k < skip_while(s, p, i) ==> p(#[trigger] s[k]),
        skip_while(s, p, i) < s.len() ==> !p(s[skip_while(s, p, i)]),
    decreases s.len() - i,
{
    if i < s.len() && p(s[i]) {
        lemma_skip_while_bounds(s, p, i + 1);
    }
}

proof fn lemma_back_while_bounds(s: Seq<char>, p: spec_fn(char) -> bool, j: int)
    requires
        0 <= j <= s.len(),
    ensures
        0 <= back_while(s, p, j) <= j,
        forall|k: int| back_while(s, p, j) <= k < j ==> p(#[trigger] s[k]),
        back_while(s, p, j) > 0 ==> !p(s[back_while(s, p, j) - 1]),
    decreases j,
{
    if j > 0 && p(s[j - 1]) {
        lemma_back_while_bounds(s, p, j - 1);
    }
}

pub proof fn lemma_first_where_bounds(s: Seq<char>, p: spec_fn(char) -> bool, i: int)
    requires
        0 <= i,
    ensures
        first_where(s, p, i) matches Some(k) ==> i <= k < s.len() && p(s[k]) && forall|m: int|
            i <= m < k ==> !p(#[trigger] s[m]),
        first_where(s, p, i) is None ==> forall|m: int| i <= m < s.len() ==> !p(#[trigger] s[m]),
    decreases s.len() - i,
{
    if i < s.len() && !p(s[i]) {
        lemma_first_where_bounds(s, p, i + 1);
    }
}

pub proof fn lemma_last_where_bounds(s: Seq<char>, p: spec_fn(char) -> bool, j: int)
    requires
        j <= s.len(),
    ensures
        last_where(s, p, j) matches Some(k) ==> 0 <= k < j && p(s[k]) && forall|m: int|
            k < m < j ==> !p(#[trigger] s[m]),
        last_where(s, p, j) is None ==> forall|m: int| 0 <= m < j ==> !p(#[trigger] s[m]),
    decreases j,
{
    if j > 0 && !p(s[j - 1]) {
        lemma_last_where_bounds(s, p, j - 1);
    }
}

pub proof fn lemma_find_from_bounds(s: Seq<char>, pat: Seq<char>, i: int)
    requires
        0 <= i,
    ensures
        find_from(s, pat, i) matches Some(k) ==> i <= k && occurs_at(s, pat, k) && forall|m: int|
            i <= m < k ==> !occurs_at(s, pat, m),
        find_from(s, pat, i) is None ==> forall|m: int| i <= m ==> !occurs_at(s, pat, m),
    decreases s.len() + 1 - i,
{
    if i + pat.len() <= s.len() && !occurs_at(s, pat, i) {
        lemma_find_from_bounds(s, pat, i + 1);
    }
}

// ── Executable scanners ───────────────────────────────────────────────────────

/// Whether `pat` occurs in `v` at position `i`.
pub fn occurs_at_exec(v: &Vec<char>, pat: &Vec<char>, i: usize) -> (b: bool)
    ensures
        b == occurs_at(v@, pat@, i as int),
{
    if pat.len() > v.len() || i > v.len() - pat.len() {
        return false;
    }
    let mut k: usize = 0;
    while k < pat.len()
        invariant
            k <= pat.len(),
            i + pat.len() <= v.len(),
            forall|m: int| 0 <= m < k ==> v@[i + m] == pat@[m],
        decreases pat.len() - k,
    {
        if v[i + k] != pat[k] {
            assert(v@.subrange(i as int, i + pat.len())[k as int] != pat@[k as int]);
            return false;
        }
        k = k + 1;
    }
    assert(v@.subrange(i as int, i + pat.len()) =~= pat@);
    true
}

/// `find_from`: the first occurrence of `pat` at or after `start`.
pub fn find_from_exec(v: &Vec<char>, pat: &Vec<char>, start: usize) -> (r: Option<usize>)
    ensures
        r matches Some(k) ==> find_from(v@, pat@, start as int) == Some(k as int),
        r is None ==> find_from(v@, pat@, start as int) is None,
{
    if pat.len() > v.len() || start > v.len() - pat.len() {
        return None;
    }
    let mut i: usize = start;
    while i <= v.len() - pat.len()
        invariant
            start <= i <= v.len() - pat.len() + 1,
            pat.len() <= v.len(),
            find_from(v@, pat@, start as int) == find_from(v@, pat@, i as int),
        decreases v.len() + 1 - i,
    {
        if occurs_at_exec(v, pat, i) {
            return Some(i);
        }
        if i == v.len() - pat.len() {
            assert(find_from(v@, pat@, i + 1) is None);
            return None;
        }
        i = i + 1;
    }
    None
}

pub fn find_exec(v: &Vec<char>, pat: &Vec<char>) -> (r: Option<usize>)
    ensures
        r matches Some(k) ==> find(v@, pat@) == Some(k as int),
        r is None ==> find(v@, pat@) is None,
{
    find_from_exec(v, pat, 0)
}

pub fn contains_exec(v: &Vec<char>, pat: &Vec<char>) -> (b: bool)
    ensures
        b == contains(v@, pat@),
{
    find_exec(v, pat).is_some()
}

pub fn starts_with_exec(v: &Vec<char>, p: &Vec<char>) -> (b: bool)
    ensures
        b == starts_with(v@, p@),
{
    let b = occurs_at_exec(v, p, 0);
    proof {
        if p@.len() <= v@.len() {
            assert(v@.subrange(0, p@.len() as int) =~= v@.take(p@.len() as int));
        }
    }
    b
}

pub fn ends_with_exec(v: &Vec<char>, p: &Vec<char>) -> (b: bool)
    ensures
        b == ends_with(v@, p@),
{
    if p.len() > v.len() {
        return false;
    }
    let b = occurs_at_exec(v, p, v.len() - p.len());
    proof {
        assert(v@.subrange(v@.len() - p@.len(), v@.len() as int) =~= v@.skip(v@.len() - p@.len()));
    }
    b
}

/// First index at or after `start` holding `c`.
pub fn first_char_from(v: &Vec<char>, c: char, start: usize) -> (r: Option<usize>)
    ensures
        r matches Some(k) ==> first_where(v@, eq_pred(c), start as int) == Some(k as int),
        r is None ==> first_where(v@, eq_pred(c), start as int) is None,
{
    let mut i = start;
    while i < v.len()
        invariant
            start <= i,
            first_where(v@, eq_pred(c), start as int) == first_where(v@, eq_pred(c), i as int),
        decreases v.len() - i,
    {
        if v[i] == c {
            return Some(i);
        }
        i = i + 1;
    }
    None
}

/// Last index below `end` holding `c`.
pub fn last_char_before(v: &Vec<char>, c: char, end: usize) -> (r: Option<usize>)
    requires
        end <= v.len(),
    ensures
        r matches Some(k) ==> last_where(v@, eq_pred(c), end as int) == Some(k as int),
        r is None ==> last_where(v@, eq_pred(c), end as int) is None,
{
    let mut j = end;
    while j > 0
        invariant
            j <= end <= v.len(),
            last_where(v@, eq_pred(c), end as int) == last_where(v@, eq_pred(c), j as int),
        decreases j,
    {
        if v[j - 1] == c {
            return Some(j - 1);
        }
        j = j - 1;
    }
    None
}

pub fn skip_ws_from(v: &Vec<char>, start: usize) -> (r: usize)
    requires
        start <= v.len(),
    ensures
        r == skip_while(v@, ws_pred(), start as int),
        start <= r <= v.len(),
{
    let mut i = start;
    while i < v.len() && is_ws_exec(v[i])
        invariant
            start <= i <= v.len(),
            skip_while(v@, ws_pred(), start as int) == skip_while(v@, ws_pred(), i as int),
        decreases v.len() - i,
    {
        i = i + 1;
    }
    i
}

pub fn skip_char_from(v: &Vec<char>, c: char, start: usize) -> (r: usize)
    requires
        start <= v.len(),
    ensures
        r == skip_while(v@, eq_pred(c), start as int),
        start <= r <= v.len(),
{
    let mut i = start;
    while i < v.len() && v[i] == c
        invariant
            start <= i <= v.len(),
            skip_while(v@, eq_pred(c), start as int) == skip_while(v@, eq_pred(c), i as int),
        decreases v.len() - i,
    {
        i = i + 1;
    }
    i
}

pub fn back_ws_from(v: &Vec<char>, end: usize) -> (r: usize)
    requires
        end <= v.len(),
    ensures
        r == back_while(v@, ws_pred(), end as int),
        r <= end,
{
    let mut j = end;
    while j > 0 && is_ws_exec(v[j - 1])
        invariant
            j <= end <= v.len(),
            back_while(v@, ws_pred(), end as int) == back_while(v@, ws_pred(), j as int),
        decreases j,
    {
        j = j - 1;
    }
    j
}

pub fn back_char_from(v: &Vec<char>, c: char, end: usize) -> (r: usize)
    requires
        end <= v.len(),
    ensures
        r == back_while(v@, eq_pred(c), end as int),
        r <= end,
{
    let mut j = end;
    while j > 0 && v[j - 1] == c
        invariant
            j <= end <= v.len(),
            back_while(v@, eq_pred(c), end as int) == back_while(v@, eq_pred(c), j as int),
        decreases j,
    {
        j = j - 1;
    }
    j
}

/// `str::trim_start`.
pub fn trim_start_exec(v: &Vec<char>) -> (r: Vec<char>)
    ensures
        r@ == trim_start_by(v@, ws_pred()),
{
    let a = skip_ws_from(v, 0);
    slice_of(v, a, v.len())
}

/// `str::trim`.
pub fn trim_exec(v: &Vec<char>) -> (r: Vec<char>)
    ensures
        r@ == trim(v@),
{
    let t = trim_start_exec(v);
    let b = back_ws_from(&t, t.len());
    proof {
        lemma_back_while_bounds(t@, ws_pred(), t@.len() as int);
    }
    slice_of(&t, 0, b)
}

/// `str::trim_matches(c)`.
pub fn trim_char_exec(v: &Vec<char>, c: char) -> (r: Vec<char>)
    ensures
        r@ == trim_by(v@, eq_pred(c)),
{
    let a = skip_char_from(v, c, 0);
    let t = slice_of(v, a, v.len());
    let b = back_char_from(&t, c, t.len());
    proof {
        lemma_back_while_bounds(t@, eq_pred(c), t@.len() as int);
    }
    slice_of(&t, 0, b)
}

/// `str::trim_start_matches(c)`.
pub fn trim_start_char_exec(v: &Vec<char>, c: char) -> (r: Vec<char>)
    ensures
        r@ == trim_start_by(v@, eq_pred(c)),
{
    let a = skip_char_from(v, c, 0);
    slice_of(v, a, v.len())
}

/// Whether every character is an ASCII digit.
pub fn all_digits_exec(v: &Vec<char>) -> (b: bool)
    ensures
        b == all_digits(v@),
{
    let mut i: usize = 0;
    while i < v.len()
        invariant
            i <= v.len(),
            forall|k: int| 0 <= k < i ==> is_ascii_digit(#[trigger] v@[k]),
        decreases v.len() - i,
    {
        if !is_digit_exec(v[i]) {
            return false;
        }
        i = i + 1;
    }
    true
}


// ── Lexicographic order (code-point order, which is also UTF-8 byte order) ────

/// `a` sorts strictly before `b`, comparing from position `i` on.
pub open spec fn lex_lt_at(a: Seq<char>, b: Seq<char>, i: int) -> bool
    decreases a.len() - i,
{
    if i < 0 || i >= a.len() {
        i >= 0 && i < b.len()
    } else if i >= b.len() {
        false
    } else if a[i] != b[i] {
        (a[i] as int) < (b[i] as int)
    } else {
        lex_lt_at(a, b, i + 1)
    }
}

/// `a` sorts strictly before `b`, as `String`'s ordering does.
pub open spec fn lex_lt(a: Seq<char>, b: Seq<char>) -> bool {
    lex_lt_at(a, b, 0)
}

/// Strictly increasing in lexicographic order (so also free of duplicates).
pub open spec fn sorted_strict(s: Seq<Seq<char>>) -> bool {
    forall|i: int, j: int| 0 <= i < j < s.len() ==> lex_lt(#[trigger] s[i], #[trigger] s[j])
}

pub proof fn lemma_lex_irrefl_at(a: Seq<char>, i: int)
    requires
        0 <= i <= a.len(),
    ensures
        !lex_lt_at(a, a, i),
    decreases a.len() - i,
{
    if i < a.len() {
        lemma_lex_irrefl_at(a, i + 1);
    }
}

pub proof fn lemma_lex_irrefl(a: Seq<char>)
    ensures
        !lex_lt(a, a),
{
    lemma_lex_irrefl_at(a, 0);
}

proof fn lemma_lex_trans_at(a: Seq<char>, b: Seq<char>, c: Seq<char>, i: int)
    requires
        0 <= i,
        i <= a.len(),
        i <= b.len(),
        i <= c.len(),
        lex_lt_at(a, b, i),
        lex_lt_at(b, c, i),
    ensures
        lex_lt_at(a, c, i),
    decreases a.len() - i,
{
    if i < a.len() && i < b.len() && i < c.len() && a[i] == b[i] && b[i] == c[i] {
        lemma_lex_trans_at(a, b, c, i + 1);
    }
}

pub proof fn lemma_lex_trans(a: Seq<char>, b: Seq<char>, c: Seq<char>)
    requires
        lex_lt(a, b),
        lex_lt(b, c),
    ensures
        lex_lt(a, c),
{
    lemma_lex_trans_at(a, b, c, 0);
}

proof fn lemma_lex_total_at(a: Seq<char>, b: Seq<char>, i: int)
    requires
        0 <= i <= a.len(),
        i <= b.len(),
        a.subrange(0, i) == b.subrange(0, i),
        a != b,
    ensures
        lex_lt_at(a, b, i) || lex_lt_at(b, a, i),
    decreases a.len() - i,
{
    if i == a.len() && i == b.len() {
        assert(a =~= a.subrange(0, i));
        assert(b =~= b.subrange(0, i));
    } else if i < a.len() && i < b.len() && a[i] == b[i] {
        assert(a.subrange(0, i + 1) =~= a.subrange(0, i).push(a[i]));
        assert(b.subrange(0, i + 1) =~= b.subrange(0, i).push(b[i]));
        lemma_lex_total_at(a, b, i + 1);
    }
}

pub proof fn lemma_lex_total(a: Seq<char>, b: Seq<char>)
    requires
        a != b,
    ensures
        lex_lt(a, b) || lex_lt(b, a),
{
    assert(a.subrange(0, 0) =~= b.subrange(0, 0));
    lemma_lex_total_at(a, b, 0);
}

pub proof fn lemma_lex_asym(a: Seq<char>, b: Seq<char>)
    requires
        lex_lt(a, b),
    ensures
        !lex_lt(b, a),
{
    if lex_lt(b, a) {
        lemma_lex_trans(a, b, a);
        lemma_lex_irrefl(a);
    }
}

/// `lex_lt(a, b)`, computed.
pub fn lex_less(a: &Vec<char>, b: &Vec<char>) -> (r: bool)
    ensures
        r == lex_lt(a@, b@),
{
    let mut i: usize = 0;
    while i < a.len() && i < b.len() && a[i] == b[i]
        invariant
            i <= a.len(),
            i <= b.len(),
            lex_lt(a@, b@) == lex_lt_at(a@, b@, i as int),
        decreases a.len() - i,
    {
        i = i + 1;
    }
    if i == a.len() {
        i < b.len()
    } else if i == b.len() {
        false
    } else {
        let x = a[i];
        let y = b[i];
        assert(x != y);
        assert(lex_lt_at(a@, b@, i as int) == ((x as int) < (y as int)));
        x < y
    }
}


// ── Decimal formatting ────────────────────────────────────────────────────────

pub open spec fn digit_char(d: nat) -> char {
    ((d as int) + 48) as char
}

/// The decimal representation of `n`, as `Display` writes it for unsigned integers.
pub open spec fn dec(n: nat) -> Seq<char>
    decreases n,
{
    if n < 10 {
        seq![digit_char(n)]
    } else {
        dec(n / 10).push(digit_char(n % 10))
    }
}

pub fn dec_u64(n: u64) -> (r: Vec<char>)
    ensures
        r@ == dec(n as nat),
    decreases n,
{
    let d: u8 = (n % 10) as u8;
    let c = (d + 48) as char;
    assert(c == digit_char((n % 10) as nat));
    if n < 10 {
        vec![c]
    } else {
        let mut v = dec_u64(n / 10);
        v.push(c);
        v
    }
}

/// Whether `c` occurs in `s`.
pub open spec fn has_char(s: Seq<char>, c: char) -> bool {
    first_where(s, eq_pred(c), 0) is Some
}

pub fn has_char_exec(v: &Vec<char>, c: char) -> (b: bool)
    ensures
        b == has_char(v@, c),
{
    first_char_from(v, c, 0).is_some()
}

/// `str::trim_start_matches(p)` for a non-empty pattern: strips every leading copy.
pub open spec fn strip_prefix_rep(s: Seq<char>, p: Seq<char>) -> Seq<char>
    decreases s.len(),
{
    if p.len() > 0 && starts_with(s, p) {
        strip_prefix_rep(s.skip(p.len() as int), p)
    } else {
        s
    }
}

pub fn strip_prefix_rep_exec(v: &Vec<char>, p: &Vec<char>) -> (r: Vec<char>)
    ensures
        r@ == strip_prefix_rep(v@, p@),
{
    let mut cur = v.clone();
    while p.len() > 0 && starts_with_exec(&cur, p)
        invariant
            strip_prefix_rep(cur@, p@) == strip_prefix_rep(v@, p@),
        decreases cur.len(),
    {
        let n = cur.len();
        cur = slice_of(&cur, p.len(), n);
    }
    cur
}

} // verus!
