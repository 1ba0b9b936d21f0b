//! Minimal HTML reader: extracts a page's title and its readable structure —
//! headings, paragraphs, list items, preformatted blocks and rules — well
//! enough for a useful first-pass rendering. Not a spec-compliant parser.
use vstd::prelude::*;

use crate::omnibox::{dec_value, lemma_dec_value_grows, split_on, utf8_bytes};
use crate::persist::{all_hex, hex_digit_value, hex_digits_value};
use crate::text::{
    all_digits, is_ascii_alnum, char_from_u32, char_is_alphabetic, contains, contains_exec, find, find_exec,
    find_from, find_from_exec, first_char_from, lemma_find_from_bounds, char_is_alphanumeric, chars_of, eq_pred,
    extend_chars, first_where, is_alphabetic, is_alphanumeric, is_ascii_digit, is_scalar, is_ws,
    is_ws_exec, lemma_first_where_bounds, lit, lower, seq_eq, slice_of, string_of, to_lower, trim,
    trim_exec, trim_start_by, trim_start_exec, ws_pred,
};

verus! {

broadcast use vstd::string::group_string_axioms;

// ── Entities ─────────────────────────────────────────────────────────────────

/// The text a named entity stands for.
pub open spec fn named_entity(e: Seq<char>) -> Option<Seq<char>> {
    if e == "amp"@ {
        Some(seq!['&'])
    } else if e == "lt"@ {
        Some(seq!['<'])
    } else if e == "gt"@ {
        Some(seq!['>'])
    } else if e == "quot"@ {
        Some(seq!['"'])
    } else if e == "apos"@ {
        Some(seq!['\''])
    } else if e == "nbsp"@ {
        Some(seq![' '])
    } else if e == "ndash"@ {
        Some(seq!['\u{2013}'])
    } else if e == "mdash"@ {
        Some(seq!['\u{2014}'])
    } else if e == "hellip"@ {
        Some(seq!['\u{2026}'])
    } else if e == "laquo"@ {
        Some(seq!['\u{AB}'])
    } else if e == "raquo"@ {
        Some(seq!['\u{BB}'])
    } else if e == "copy"@ {
        Some(seq!['\u{A9}'])
    } else if e == "reg"@ {
        Some(seq!['\u{AE}'])
    } else if e == "trade"@ {
        Some(seq!['\u{2122}'])
    } else if e == "bull"@ {
        Some(seq!['\u{2022}'])
    } else if e == "middot"@ {
        Some(seq!['\u{B7}'])
    } else if e == "lsquo"@ {
        Some(seq!['\''])
    } else if e == "rsquo"@ {
        Some(seq!['\''])
    } else if e == "ldquo"@ {
        Some(seq!['\u{201C}'])
    } else if e == "rdquo"@ {
        Some(seq!['\u{201D}'])
    } else {
        None
    }
}

/// A decimal `u32` (an optional `+`, then ASCII digits).
pub open spec fn dec_u32(d: Seq<char>) -> Option<int> {
    let t = if d.len() > 0 && d[0] == '+' {
        d.skip(1)
    } else {
        d
    };
    if t.len() > 0 && all_digits(t) && dec_value(t) <= u32::MAX {
        Some(dec_value(t) as int)
    } else {
        None
    }
}

/// A hexadecimal `u32` (an optional `+`, then hex digits).
pub open spec fn hex_u32(d: Seq<char>) -> Option<int> {
    let t = if d.len() > 0 && d[0] == '+' {
        d.skip(1)
    } else {
        d
    };
    if t.len() > 0 && all_hex(t) && hex_digits_value(t) <= u32::MAX {
        Some(hex_digits_value(t))
    } else {
        None
    }
}

/// The text an entity name (between `&` and `;`) stands for: a named entity,
/// a numeric one (`#123`, `#x7B`) when its code is a character (else
/// nothing), or the entity itself written back.
pub open spec fn spec_entity_char(e: Seq<char>) -> Seq<char> {
    match named_entity(e) {
        Some(t) => t,
        None => if e.len() > 0 && e[0] == '#' {
            let num = e.skip(1);
            let code = if num.len() > 0 && (num[0] == 'x' || num[0] == 'X') {
                hex_u32(num.skip(1))
            } else {
                dec_u32(num)
            };
            match code {
                Some(c) => if is_scalar(c) {
                    seq![c as char]
                } else {
                    Seq::empty()
                },
                None => Seq::empty(),
            }
        } else {
            seq!['&'] + e + seq![';']
        },
    }
}

proof fn lemma_hex_value_grows(d: Seq<char>, i: int)
    requires
        0 <= i <= d.len(),
        all_hex(d),
    ensures
        hex_digits_value(d.take(i)) <= hex_digits_value(d),
    decreases d.len() - i,
{
    if i < d.len() {
        lemma_hex_value_grows(d, i + 1);
        assert(d.take(i + 1).drop_last() =~= d.take(i));
        assert(hex_digit_value(d[i]) >= 0);
        lemma_hex_nonneg(d.take(i));
    } else {
        assert(d.take(i) =~= d);
    }
}

proof fn lemma_hex_nonneg(d: Seq<char>)
    requires
        all_hex(d),
    ensures
        hex_digits_value(d) >= 0,
    decreases d.len(),
{
    if d.len() > 0 {
        assert(all_hex(d.drop_last()));
        lemma_hex_nonneg(d.drop_last());
        assert(hex_digit_value(d.last()) >= 0);
    }
}

/// Reads an unsigned number in base 10 or 16.
fn parse_u32_exec(d: &Vec<char>, hex: bool) -> (r: Option<u32>)
    ensures
        match r {
            Some(v) => (if hex {
                hex_u32(d@)
            } else {
                dec_u32(d@)
            }) == Some(v as int),
            None => (if hex {
                hex_u32(d@)
            } else {
                dec_u32(d@)
            }) is None,
        },
{
    let n = d.len();
    let t = if n > 0 && d[0] == '+' {
        slice_of(d, 1, n)
    } else {
        slice_of(d, 0, n)
    };
    assert(d@.len() > 0 && d@[0] == '+' ==> t@ =~= d@.skip(1));
    assert(!(d@.len() > 0 && d@[0] == '+') ==> t@ =~= d@);
    if t.len() == 0 {
        return None;
    }
    let mut v: u64 = 0;
    let mut i: usize = 0;
    while i < t.len()
        invariant
            i <= t.len(),
            t@.len() > 0,
            hex ==> hex_u32(d@) == (if all_hex(t@) && hex_digits_value(t@) <= u32::MAX {
                Some(hex_digits_value(t@))
            } else {
                None
            }),
            !hex ==> dec_u32(d@) == (if all_digits(t@) && dec_value(t@) <= u32::MAX {
                Some(dec_value(t@) as int)
            } else {
                None
            }),
            hex ==> all_hex(t@.take(i as int)) && v == hex_digits_value(t@.take(i as int)),
            !hex ==> all_digits(t@.take(i as int)) && v == dec_value(t@.take(i as int)),
            v <= u32::MAX,
        decreases t.len() - i,
    {
        let c = t[i];
        let dv: u64 = if '0' <= c && c <= '9' {
            (c as u64) - 48
        } else if hex && 'a' <= c && c <= 'f' {
            (c as u64) - 87
        } else if hex && 'A' <= c && c <= 'F' {
            (c as u64) - 55
        } else {
            proof {
                if hex {
                    assert(!all_hex(t@)) by {
                        assert(hex_digit_value(t@[i as int]) < 0);
                    }
                } else {
                    assert(!all_digits(t@)) by {
                        assert(!is_ascii_digit(t@[i as int]));
                    }
                }
            }
            return None;
        };
        assert(t@.take(i + 1).drop_last() =~= t@.take(i as int));
        let nv = if hex {
            v * 16 + dv
        } else {
            v * 10 + dv
        };
        i = i + 1;
        if nv > 0xFFFF_FFFF {
            proof {
                if hex && all_hex(t@) {
                    lemma_hex_value_grows(t@, i as int);
                }
                if !hex && all_digits(t@) {
                    lemma_dec_value_grows(t@, i as int);
                }
            }
            return None;
        }
        v = nv;
    }
    assert(t@.take(t@.len() as int) =~= t@);
    Some(v as u32)
}

fn entity_char(e: &Vec<char>) -> (r: Vec<char>)
    ensures
        r@ == spec_entity_char(e@),
{
    proof {
        reveal_strlit("amp");
    }
    if seq_eq(e, &lit("amp")) {
        return vec!['&'];
    } else if seq_eq(e, &lit("lt")) {
        return vec!['<'];
    } else if seq_eq(e, &lit("gt")) {
        return vec!['>'];
    } else if seq_eq(e, &lit("quot")) {
        return vec!['"'];
    } else if seq_eq(e, &lit("apos")) {
        return vec!['\''];
    } else if seq_eq(e, &lit("nbsp")) {
        return vec![' '];
    } else if seq_eq(e, &lit("ndash")) {
        return vec!['\u{2013}'];
    } else if seq_eq(e, &lit("mdash")) {
        return vec!['\u{2014}'];
    } else if seq_eq(e, &lit("hellip")) {
        return vec!['\u{2026}'];
    } else if seq_eq(e, &lit("laquo")) {
        return vec!['\u{AB}'];
    } else if seq_eq(e, &lit("raquo")) {
        return vec!['\u{BB}'];
    } else if seq_eq(e, &lit("copy")) {
        return vec!['\u{A9}'];
    } else if seq_eq(e, &lit("reg")) {
        return vec!['\u{AE}'];
    } else if seq_eq(e, &lit("trade")) {
        return vec!['\u{2122}'];
    } else if seq_eq(e, &lit("bull")) {
        return vec!['\u{2022}'];
    } else if seq_eq(e, &lit("middot")) {
        return vec!['\u{B7}'];
    } else if seq_eq(e, &lit("lsquo")) {
        return vec!['\''];
    } else if seq_eq(e, &lit("rsquo")) {
        return vec!['\''];
    } else if seq_eq(e, &lit("ldquo")) {
        return vec!['\u{201C}'];
    } else if seq_eq(e, &lit("rdquo")) {
        return vec!['\u{201D}'];
    }
    assert(named_entity(e@) is None);
    if e.len() > 0 && e[0] == '#' {
        let num = slice_of(e, 1, e.len());
        assert(num@ =~= e@.skip(1));
        let code = if num.len() > 0 && (num[0] == 'x' || num[0] == 'X') {
            let h = slice_of(&num, 1, num.len());
            assert(h@ =~= num@.skip(1));
            parse_u32_exec(&h, true)
        } else {
            parse_u32_exec(&num, false)
        };
        match code {
            Some(c) => match char_from_u32(c) {
                Some(ch) => vec![ch],
                None => Vec::new(),
            },
            None => Vec::new(),
        }
    } else {
        let mut r = vec!['&'];
        extend_chars(&mut r, e);
        r.push(';');
        r
    }
}

/// A character that may appear in an entity name.
pub open spec fn is_entity_name_char(c: char) -> bool {
    (if (c as u32) < 128 {
        is_ascii_alnum(c)
    } else {
        char_is_alphanumeric(c)
    }) || c == '#'
}

/// Where an entity name that started before `j` (with `n` characters read)
/// ends: after its `;` (and `true`), or where reading stopped (and `false`)
/// — at a character that cannot be in a name, the end of the text, or after
/// sixteen characters.
pub open spec fn entity_end(s: Seq<char>, j: int, n: nat) -> (int, bool)
    decreases 16 - n,
{
    if n >= 16 || j < 0 || j >= s.len() {
        (j, false)
    } else if s[j] == ';' {
        (j + 1, true)
    } else if is_entity_name_char(s[j]) {
        entity_end(s, j + 1, n + 1)
    } else {
        (j, false)
    }
}

proof fn lemma_entity_end(s: Seq<char>, j: int, n: nat)
    requires
        0 <= j <= s.len(),
    ensures
        j <= entity_end(s, j, n).0 <= s.len(),
        entity_end(s, j, n).1 ==> j < entity_end(s, j, n).0,
    decreases 16 - n,
{
    if n < 16 && j < s.len() && s[j] != ';' && is_entity_name_char(s[j]) {
        lemma_entity_end(s, j + 1, n + 1);
    }
}

/// `s` from position `i` on with its entities decoded.
pub open spec fn decode_from(s: Seq<char>, i: int) -> Seq<char>
    decreases s.len() - i,
{
    if i < 0 || i >= s.len() {
        Seq::empty()
    } else if s[i] != '&' {
        seq![s[i]] + decode_from(s, i + 1)
    } else {
        let (k, ended) = entity_end(s, i + 1, 0);
        if k <= i || k > s.len() {
            Seq::empty()
        } else {
            let name = if ended {
                s.subrange(i + 1, k - 1)
            } else {
                s.subrange(i + 1, k)
            };
            (if ended {
                spec_entity_char(name)
            } else {
                seq!['&'] + name
            }) + decode_from(s, k)
        }
    }
}

/// Decode common HTML entities.
pub open spec fn spec_decode_entities(s: Seq<char>) -> Seq<char> {
    decode_from(s, 0)
}

fn decode_chars(s: &Vec<char>) -> (r: Vec<char>)
    ensures
        r@ == spec_decode_entities(s@),
{
    let n = s.len();
    let mut out: Vec<char> = Vec::new();
    let mut i: usize = 0;
    while i < n
        invariant
            i <= n,
            n == s@.len(),
            out@ + decode_from(s@, i as int) == spec_decode_entities(s@),
        decreases n - i,
    {
        let c = s[i];
        if c != '&' {
            out.push(c);
            assert(out@ + decode_from(s@, i + 1) =~= spec_decode_entities(s@));
            i = i + 1;
        } else {
            proof {
                lemma_entity_end(s@, i + 1, 0);
            }
            let mut j = i + 1;
            let mut count: usize = 0;
            let mut ended = false;
            while !ended && count < 16 && j < n && (s[j] == ';' || is_alphanumeric(s[j]) || s[j] == '#')
                invariant
                    i < j <= n,
                    n == s@.len(),
                    count <= 16,
                    j == i + 1 + count || ended,
                    !ended ==> entity_end(s@, i + 1, 0) == entity_end(s@, j as int, count as nat),
                    ended ==> entity_end(s@, i + 1, 0) == (j as int, true),
                decreases n - j,
            {
                if s[j] == ';' {
                    ended = true;
                    j = j + 1;
                } else {
                    j = j + 1;
                    count = count + 1;
                }
            }
            let ghost old_out = out@;
            if ended {
                let name = slice_of(s, i + 1, j - 1);
                extend_chars(&mut out, &entity_char(&name));
            } else {
                let name = slice_of(s, i + 1, j);
                out.push('&');
                extend_chars(&mut out, &name);
            }
            assert(out@ + decode_from(s@, j as int) =~= old_out + decode_from(s@, i as int));
            i = j;
        }
    }
    out
}

proof fn lemma_entity_end_shift(p: Seq<char>, b: Seq<char>, j: int, n: nat)
    requires
        0 <= j,
    ensures
        entity_end(p + b, p.len() + j, n) == (entity_end(b, j, n).0 + p.len(), entity_end(
            b,
            j,
            n,
        ).1),
    decreases 16 - n,
{
    let s = p + b;
    if n < 16 && j < b.len() {
        assert(s[p.len() + j] == b[j]);
        if b[j] != ';' && is_entity_name_char(b[j]) {
            lemma_entity_end_shift(p, b, j + 1, n + 1);
        }
    }
}

proof fn lemma_decode_shift(p: Seq<char>, b: Seq<char>, j: int)
    requires
        0 <= j,
    ensures
        decode_from(p + b, p.len() + j) == decode_from(b, j),
    decreases b.len() - j,
{
    let s = p + b;
    let i = p.len() + j;
    if j < b.len() {
        assert(s[i] == b[j]);
        if b[j] != '&' {
            lemma_decode_shift(p, b, j + 1);
        } else {
            lemma_entity_end_shift(p, b, j + 1, 0);
            lemma_entity_end(b, j + 1, 0);
            let (k, ended) = entity_end(b, j + 1, 0);
            if ended {
                assert(s.subrange(i + 1, k + p.len() - 1) =~= b.subrange(j + 1, k - 1));
            } else {
                assert(s.subrange(i + 1, k + p.len()) =~= b.subrange(j + 1, k));
            }
            lemma_decode_shift(p, b, k);
        }
    }
}

proof fn lemma_decode_plain_prefix(a: Seq<char>, t: Seq<char>, i: int)
    requires
        0 <= i <= a.len(),
        forall|m: int| 0 <= m < a.len() ==> a[m] != '&',
    ensures
        decode_from(a + t, i) == a.subrange(i, a.len() as int) + decode_from(a + t, a.len() as int),
    decreases a.len() - i,
{
    if i < a.len() {
        assert((a + t)[i] == a[i]);
        lemma_decode_plain_prefix(a, t, i + 1);
        assert(seq![a[i]] + a.subrange(i + 1, a.len() as int) =~= a.subrange(i, a.len() as int));
    } else {
        assert(a.subrange(i, a.len() as int) =~= Seq::<char>::empty());
    }
}

proof fn lemma_name_end(x: Seq<char>, name: Seq<char>, j: int)
    requires
        0 < name.len() < 16,
        forall|m: int| 0 <= m < name.len() ==> is_ascii_alnum(#[trigger] name[m]),
        x.len() > name.len() + 1,
        forall|m: int| 1 <= m <= name.len() ==> x[m] == name[m - 1],
        x[name.len() as int + 1] == ';',
        1 <= j <= name.len() + 1,
    ensures
        entity_end(x, j, (j - 1) as nat) == (name.len() as int + 2, true),
    decreases name.len() + 1 - j,
{
    if j <= name.len() {
        let c = x[j];
        assert(c == name[j - 1]);
        assert(is_ascii_alnum(c));
        assert((c as u32) < 128);
        assert(is_entity_name_char(c));
        lemma_name_end(x, name, j + 1);
    }
}

/// Decoding an entity written `&name;` that follows text without `&` gives
/// that text, what the entity stands for, and then the rest decoded.
proof fn lemma_decode_entity(a: Seq<char>, name: Seq<char>, b: Seq<char>)
    requires
        forall|m: int| 0 <= m < a.len() ==> a[m] != '&',
        0 < name.len() < 16,
        forall|m: int| 0 <= m < name.len() ==> is_ascii_alnum(#[trigger] name[m]),
    ensures
        spec_decode_entities(a + (seq!['&'] + name + seq![';']) + b) == a + spec_entity_char(name)
            + spec_decode_entities(b),
{
    let e = seq!['&'] + name + seq![';'];
    let x = e + b;
    let s = a + e + b;
    assert(s =~= a + x);
    lemma_decode_plain_prefix(a, x, 0);
    assert(a.subrange(0, a.len() as int) =~= a);
    lemma_decode_shift(a, x, 0);
    lemma_name_end(x, name, 1);
    assert(x.subrange(1, name.len() as int + 1) =~= name);
    lemma_decode_shift(e, b, 0);
    assert(x =~= e + b);
}

/// The common named entities decode to their characters wherever they
/// stand after text without `&`: `&nbsp;` is a space, `&amp;` an ampersand,
/// `&lt;` and `&gt;` angle brackets, `&quot;` a double quote and `&apos;` an
/// apostrophe; what follows is decoded in its own right.
pub proof fn law_named_entities_decode(a: Seq<char>, b: Seq<char>)
    requires
        forall|m: int| 0 <= m < a.len() ==> a[m] != '&',
    ensures
        spec_decode_entities(a + seq!['&', 'n', 'b', 's', 'p', ';'] + b) == a + seq![' ']
            + spec_decode_entities(b),
        spec_decode_entities(a + seq!['&', 'a', 'm', 'p', ';'] + b) == a + seq!['&']
            + spec_decode_entities(b),
        spec_decode_entities(a + seq!['&', 'l', 't', ';'] + b) == a + seq!['<']
            + spec_decode_entities(b),
        spec_decode_entities(a + seq!['&', 'g', 't', ';'] + b) == a + seq!['>']
            + spec_decode_entities(b),
        spec_decode_entities(a + seq!['&', 'q', 'u', 'o', 't', ';'] + b) == a + seq!['"']
            + spec_decode_entities(b),
        spec_decode_entities(a + seq!['&', 'a', 'p', 'o', 's', ';'] + b) == a + seq!['\'']
            + spec_decode_entities(b),
{
    reveal_strlit("nbsp");
    reveal_strlit("amp");
    reveal_strlit("lt");
    reveal_strlit("gt");
    reveal_strlit("quot");
    reveal_strlit("apos");
    let nbsp = seq!['n', 'b', 's', 'p'];
    lemma_decode_entity(a, nbsp, b);
    assert(seq!['&'] + nbsp + seq![';'] =~= seq!['&', 'n', 'b', 's', 'p', ';']);
    assert(nbsp =~= "nbsp"@);
    let amp = seq!['a', 'm', 'p'];
    lemma_decode_entity(a, amp, b);
    assert(seq!['&'] + amp + seq![';'] =~= seq!['&', 'a', 'm', 'p', ';']);
    assert(amp =~= "amp"@);
    let lt = seq!['l', 't'];
    lemma_decode_entity(a, lt, b);
    assert(seq!['&'] + lt + seq![';'] =~= seq!['&', 'l', 't', ';']);
    assert(lt =~= "lt"@);
    let gt = seq!['g', 't'];
    lemma_decode_entity(a, gt, b);
    assert(seq!['&'] + gt + seq![';'] =~= seq!['&', 'g', 't', ';']);
    assert(gt =~= "gt"@);
    let quot = seq!['q', 'u', 'o', 't'];
    lemma_decode_entity(a, quot, b);
    assert(seq!['&'] + quot + seq![';'] =~= seq!['&', 'q', 'u', 'o', 't', ';']);
    assert(quot =~= "quot"@);
    let apos = seq!['a', 'p', 'o', 's'];
    lemma_decode_entity(a, apos, b);
    assert(seq!['&'] + apos + seq![';'] =~= seq!['&', 'a', 'p', 'o', 's', ';']);
    assert(apos =~= "apos"@);
}

/// Decode common HTML entities.
pub fn decode_entities(s: &str) -> (r: String)
    ensures
        r@ == spec_decode_entities(s@),
{
    string_of(&decode_chars(&chars_of(s)))
}

// ── Whitespace ───────────────────────────────────────────────────────────────

/// `s` from `i` on with whitespace runs collapsed to one space; `space` says
/// whether the previous output ended a run (or nothing was output yet).
pub open spec fn collapse_from(s: Seq<char>, i: int, space: bool) -> Seq<char>
    decreases s.len() - i,
{
    if i < 0 || i >= s.len() {
        Seq::empty()
    } else if is_ws(s[i]) {
        if !space {
            seq![' '] + collapse_from(s, i + 1, true)
        } else {
            collapse_from(s, i + 1, true)
        }
    } else {
        seq![s[i]] + collapse_from(s, i + 1, false)
    }
}

/// All whitespace runs collapsed to a single space, leading ones dropped.
pub open spec fn spec_collapse_ws(s: Seq<char>) -> Seq<char> {
    collapse_from(s, 0, true)
}

fn collapse_ws(s: &Vec<char>) -> (r: Vec<char>)
    ensures
        r@ == spec_collapse_ws(s@),
{
    let mut out: Vec<char> = Vec::new();
    let mut space = true;
    let mut i: usize = 0;
    while i < s.len()
        invariant
            i <= s@.len(),
            out@ + collapse_from(s@, i as int, space) == spec_collapse_ws(s@),
        decreases s.len() - i,
    {
        let c = s[i];
        let ghost o0 = out@;
        let ghost sp0 = space;
        if is_ws_exec(c) {
            if !space {
                out.push(' ');
                space = true;
            }
        } else {
            out.push(c);
            space = false;
        }
        assert(out@ + collapse_from(s@, i + 1, space) =~= o0 + collapse_from(s@, i as int, sp0));
        i = i + 1;
    }
    out
}

// ── Tags ─────────────────────────────────────────────────────────────────────

/// ASCII whitespace (`char::is_ascii_whitespace`).
pub open spec fn is_ascii_ws(c: char) -> bool {
    c == ' ' || c == '\t' || c == '\n' || c == '\x0C' || c == '\r'
}

/// Where a tag's name ends.
pub open spec fn name_end_pred() -> spec_fn(char) -> bool {
    |c: char| is_ascii_ws(c) || c == '/' || c == '>'
}

/// A tag's lowercased name and whether it closes an element, from the text
/// between `<` and `>`.
pub open spec fn spec_tag_info(inner: Seq<char>) -> (Seq<char>, bool) {
    let s = trim(inner);
    let is_close = s.len() > 0 && s[0] == '/';
    let rest = if is_close {
        trim_start_by(s.skip(1), ws_pred())
    } else {
        s
    };
    let name = match first_where(rest, name_end_pred(), 0) {
        Some(k) => rest.take(k),
        None => rest,
    };
    (lower(name), is_close)
}

fn tag_info(inner: &Vec<char>) -> (r: (Vec<char>, bool))
    ensures
        (r.0@, r.1) == spec_tag_info(inner@),
{
    let s = trim_exec(inner);
    let is_close = s.len() > 0 && s[0] == '/';
    let rest = if is_close {
        let t = slice_of(&s, 1, s.len());
        assert(t@ =~= s@.skip(1));
        trim_start_exec(&t)
    } else {
        s
    };
    let mut k: usize = 0;
    while k < rest.len() && !(rest[k] == ' ' || rest[k] == '\t' || rest[k] == '\n' || rest[k] == '\x0C'
        || rest[k] == '\r' || rest[k] == '/' || rest[k] == '>')
        invariant
            k <= rest@.len(),
            first_where(rest@, name_end_pred(), 0) == first_where(rest@, name_end_pred(), k as int),
        decreases rest.len() - k,
    {
        k = k + 1;
    }
    let name = slice_of(&rest, 0, k);
    proof {
        if k < rest@.len() {
            assert(name@ =~= rest@.take(k as int));
        } else {
            assert(name@ =~= rest@);
        }
    }
    (to_lower(&name), is_close)
}

/// The first `>` at or after `i` outside quoted attribute values; `quote` is
/// the quote character of the value being read, or NUL outside values.
pub open spec fn tag_end_from(s: Seq<char>, i: int, quote: char) -> Option<int>
    decreases s.len() - i,
{
    if i < 0 || i >= s.len() {
        None
    } else {
        let c = s[i];
        if (c == '"' || c == '\'') && quote == '\0' {
            tag_end_from(s, i + 1, c)
        } else if c == '"' && quote == '"' {
            tag_end_from(s, i + 1, '\0')
        } else if c == '\'' && quote == '\'' {
            tag_end_from(s, i + 1, '\0')
        } else if c == '>' && quote == '\0' {
            Some(i)
        } else {
            tag_end_from(s, i + 1, quote)
        }
    }
}

/// The closing `>` of the tag whose `<` is at `start`, or the last position
/// when it is not closed.
pub open spec fn spec_find_tag_end(s: Seq<char>, start: int) -> int {
    match tag_end_from(s, start + 1, '\0') {
        Some(k) => k,
        None => if s.len() > 0 {
            s.len() - 1
        } else {
            0
        },
    }
}

proof fn lemma_tag_end_from(s: Seq<char>, i: int, quote: char)
    requires
        0 <= i,
    ensures
        tag_end_from(s, i, quote) matches Some(k) ==> i <= k < s.len(),
    decreases s.len() - i,
{
    if i < s.len() {
        let c = s[i];
        if (c == '"' || c == '\'') && quote == '\0' {
            lemma_tag_end_from(s, i + 1, c);
        } else if c == '"' && quote == '"' {
            lemma_tag_end_from(s, i + 1, '\0');
        } else if c == '\'' && quote == '\'' {
            lemma_tag_end_from(s, i + 1, '\0');
        } else if !(c == '>' && quote == '\0') {
            lemma_tag_end_from(s, i + 1, quote);
        }
    }
}

fn find_tag_end(s: &Vec<char>, start: usize) -> (r: usize)
    requires
        start < s@.len(),
    ensures
        r == spec_find_tag_end(s@, start as int),
        r < s@.len(),
        tag_end_from(s@, start + 1, '\0') is Some ==> start < r,
{
    proof {
        lemma_tag_end_from(s@, start + 1, '\0');
    }
    let n = s.len();
    let mut i = start + 1;
    let mut quote = '\0';
    while i < n
        invariant
            start < i <= n,
            n == s@.len(),
            tag_end_from(s@, start + 1, '\0') == tag_end_from(s@, i as int, quote),
        decreases n - i,
    {
        let c = s[i];
        if (c == '"' || c == '\'') && quote == '\0' {
            quote = c;
        } else if c == '"' && quote == '"' {
            quote = '\0';
        } else if c == '\'' && quote == '\'' {
            quote = '\0';
        } else if c == '>' && quote == '\0' {
            return i;
        }
        i = i + 1;
    }
    n - 1
}


// ── Content nodes ────────────────────────────────────────────────────────────

/// A structured content node from an HTML page.
#[derive(Debug, Clone)]
pub enum PageNode {
    Heading { level: u8, text: String },
    Paragraph(String),
    ListItem(String),
    Pre(String),
    HRule,
}

/// A content node as plain values.
pub enum NodeView {
    Heading { level: u8, text: Seq<char> },
    Paragraph(Seq<char>),
    ListItem(Seq<char>),
    Pre(Seq<char>),
    HRule,
}

impl View for PageNode {
    type V = NodeView;

    open spec fn view(&self) -> NodeView {
        match self {
            PageNode::Heading { level, text } => NodeView::Heading { level: *level, text: text@ },
            PageNode::Paragraph(t) => NodeView::Paragraph(t@),
            PageNode::ListItem(t) => NodeView::ListItem(t@),
            PageNode::Pre(t) => NodeView::Pre(t@),
            PageNode::HRule => NodeView::HRule,
        }
    }
}

pub open spec fn node_views(ns: Seq<PageNode>) -> Seq<NodeView> {
    ns.map_values(|n: PageNode| n@)
}

/// The block a text run belongs to.
#[derive(Clone, Copy, PartialEq, Eq, Structural)]
pub enum Block {
    Plain,
    H1,
    H2,
    H3,
    P,
    Li,
    Pre,
}

/// The non-empty trimmed lines of a list, joined with single spaces.
pub open spec fn join_nonempty(parts: Seq<Seq<char>>) -> Seq<char>
    decreases parts.len(),
{
    if parts.len() == 0 {
        Seq::empty()
    } else {
        let rest = join_nonempty(parts.drop_last());
        let last = trim(parts.last());
        if last.len() == 0 {
            rest
        } else if rest.len() == 0 {
            last
        } else {
            rest + seq![' '] + last
        }
    }
}

/// A text's lines, trimmed, without the empty ones, joined with spaces.
pub open spec fn joined_lines(t: Seq<char>) -> Seq<char> {
    join_nonempty(split_on(t, '\n'))
}

/// The node a finished block of text becomes.
pub open spec fn node_of(block: Block, t: Seq<char>) -> NodeView {
    match block {
        Block::H1 => NodeView::Heading { level: 1, text: t },
        Block::H2 => NodeView::Heading { level: 2, text: t },
        Block::H3 => NodeView::Heading { level: 3, text: t },
        Block::Li => NodeView::ListItem(t),
        Block::Pre => NodeView::Pre(t),
        _ => NodeView::Paragraph(t),
    }
}

/// The nodes after the pending text of `block` is flushed.
pub open spec fn flushed(nodes: Seq<NodeView>, cur: Seq<char>, block: Block) -> Seq<NodeView> {
    let t = joined_lines(cur);
    if t.len() == 0 {
        nodes
    } else {
        nodes.push(node_of(block, t))
    }
}

fn make_node(block: Block, t: Vec<char>) -> (n: PageNode)
    ensures
        n@ == node_of(block, t@),
{
    let s = string_of(&t);
    match block {
        Block::H1 => PageNode::Heading { level: 1, text: s },
        Block::H2 => PageNode::Heading { level: 2, text: s },
        Block::H3 => PageNode::Heading { level: 3, text: s },
        Block::Li => PageNode::ListItem(s),
        Block::Pre => PageNode::Pre(s),
        _ => PageNode::Paragraph(s),
    }
}

fn join_lines_exec(t: &Vec<char>) -> (r: Vec<char>)
    ensures
        r@ == joined_lines(t@),
{
    let parts = crate::omnibox::split_exec(t, '\n');
    let ghost pv = crate::omnibox::char_vec_views(parts@);
    let mut out: Vec<char> = Vec::new();
    let mut i: usize = 0;
    assert(pv.take(0) =~= Seq::<Seq<char>>::empty());
    while i < parts.len()
        invariant
            i <= parts@.len(),
            pv == crate::omnibox::char_vec_views(parts@),
            pv == split_on(t@, '\n'),
            out@ == join_nonempty(pv.take(i as int)),
        decreases parts.len() - i,
    {
        assert(pv.take(i + 1).drop_last() =~= pv.take(i as int));
        assert(pv.take(i + 1).last() == parts@[i as int]@);
        let line = trim_exec(&parts[i]);
        if line.len() > 0 {
            if out.len() > 0 {
                out.push(' ');
            }
            extend_chars(&mut out, &line);
        }
        i = i + 1;
        assert(out@ =~= join_nonempty(pv.take(i as int)));
    }
    assert(pv.take(parts@.len() as int) =~= pv);
    out
}

/// Ends the pending block: its text, joined into one line, becomes a node.
fn flush(text: &mut Vec<char>, block: Block, nodes: &mut Vec<PageNode>)
    ensures
        final(text)@.len() == 0,
        node_views(final(nodes)@) == flushed(node_views(old(nodes)@), old(text)@, block),
{
    let t = join_lines_exec(text);
    *text = Vec::new();
    if t.len() == 0 {
        return ;
    }
    let ghost n0 = nodes@;
    let node = make_node(block, t);
    nodes.push(node);
    assert(node_views(nodes@) =~= node_views(n0).push(node@));
}

// ── Walking the body ─────────────────────────────────────────────────────────

/// What the walker has gathered so far.
pub struct WalkState {
    pub nodes: Seq<NodeView>,
    pub block: Block,
    pub cur: Seq<char>,
    pub in_pre: bool,
}

/// The walk's state after flushing.
pub open spec fn flush_state(st: WalkState, block: Block) -> WalkState {
    WalkState { nodes: flushed(st.nodes, st.cur, st.block), block, cur: Seq::empty(), ..st }
}

pub open spec fn is_heading_3_6(name: Seq<char>) -> bool {
    name == "h3"@ || name == "h4"@ || name == "h5"@ || name == "h6"@
}

pub open spec fn is_block_container(name: Seq<char>) -> bool {
    name == "div"@ || name == "article"@ || name == "section"@ || name == "main"@ || name == "header"@
        || name == "footer"@ || name == "aside"@ || name == "nav"@ || name == "ul"@ || name == "ol"@
        || name == "table"@ || name == "tbody"@ || name == "thead"@ || name == "tr"@ || name == "td"@
        || name == "th"@ || name == "blockquote"@ || name == "figure"@ || name == "figcaption"@ || name
        == "details"@ || name == "summary"@
}

pub open spec fn opens_paragraph(name: Seq<char>) -> bool {
    name == "article"@ || name == "section"@ || name == "main"@ || name == "blockquote"@
}

/// What a tag does to the walk: structural tags end the pending block and
/// start another (or none); `pre` switches whitespace preservation; `hr`
/// adds a rule; `br` breaks the pending line; other tags change nothing.
pub open spec fn apply_tag(st: WalkState, name: Seq<char>, close: bool) -> WalkState {
    if name == "h1"@ {
        flush_state(st, if close { Block::Plain } else { Block::H1 })
    } else if name == "h2"@ {
        flush_state(st, if close { Block::Plain } else { Block::H2 })
    } else if is_heading_3_6(name) {
        flush_state(st, if close { Block::Plain } else { Block::H3 })
    } else if name == "p"@ {
        flush_state(st, if close { Block::Plain } else { Block::P })
    } else if name == "li"@ {
        flush_state(st, if close { Block::Plain } else { Block::Li })
    } else if name == "pre"@ && !close {
        WalkState { in_pre: true, ..flush_state(st, Block::Pre) }
    } else if name == "pre"@ {
        let t = trim(st.cur);
        WalkState {
            nodes: if t.len() > 0 {
                st.nodes.push(NodeView::Pre(t))
            } else {
                st.nodes
            },
            cur: Seq::empty(),
            in_pre: false,
            block: Block::Plain,
        }
    } else if name == "hr"@ {
        let f = flush_state(st, Block::Plain);
        WalkState { nodes: f.nodes.push(NodeView::HRule), ..f }
    } else if name == "br"@ {
        if trim(st.cur).len() > 0 {
            WalkState { cur: st.cur.push('\n'), ..st }
        } else {
            st
        }
    } else if close && is_block_container(name) {
        flush_state(st, Block::Plain)
    } else if !close && opens_paragraph(name) {
        flush_state(st, Block::P)
    } else {
        st
    }
}

/// The pending text after a text run `raw`: nothing changes when it decodes
/// to whitespace only; in `pre` it is kept as written; elsewhere it is
/// decoded, collapsed and appended after a separating space.
pub open spec fn add_text(st: WalkState, raw: Seq<char>) -> WalkState {
    let collapsed = spec_collapse_ws(spec_decode_entities(raw));
    if collapsed.len() == 0 {
        st
    } else if st.in_pre {
        WalkState { cur: st.cur + raw, ..st }
    } else {
        let sep = if st.cur.len() > 0 && st.cur.last() != ' ' {
            st.cur.push(' ')
        } else {
            st.cur
        };
        WalkState { cur: sep + collapsed, ..st }
    }
}

/// The first `<` at or after `i` (or the end).
pub open spec fn next_lt(s: Seq<char>, i: int) -> int {
    match first_where(s, eq_pred('<'), i) {
        Some(k) => k,
        None => s.len() as int,
    }
}

/// The nodes of `s` from position `i` on, given the state so far.
pub open spec fn walk_from(s: Seq<char>, i: int, st: WalkState) -> Seq<NodeView>
    decreases s.len() - i,
{
    if i < 0 || i >= s.len() {
        flushed(st.nodes, st.cur, st.block)
    } else if s[i] != '<' {
        let j = next_lt(s, i);
        if j <= i || j > s.len() {
            flushed(st.nodes, st.cur, st.block)
        } else {
            walk_from(s, j, add_text(st, s.subrange(i, j)))
        }
    } else {
        let te = spec_find_tag_end(s, i);
        if te < i + 1 || te >= s.len() {
            flushed(st.nodes, st.cur, st.block)
        } else {
            let (name, close) = spec_tag_info(s.subrange(i + 1, te));
            walk_from(s, te + 1, apply_tag(st, name, close))
        }
    }
}

pub open spec fn walk_start() -> WalkState {
    WalkState { nodes: Seq::empty(), block: Block::Plain, cur: Seq::empty(), in_pre: false }
}

/// Whether walking `s` from `i` reaches a tag whose contents cannot be cut
/// out: one left open at the very end of the text, or left open in a text
/// whose last character is not ASCII.
pub open spec fn walk_panics_from(s: Seq<char>, i: int) -> bool
    decreases s.len() - i,
{
    if i < 0 || i >= s.len() {
        false
    } else if s[i] != '<' {
        let j = next_lt(s, i);
        if j <= i || j > s.len() {
            false
        } else {
            walk_panics_from(s, j)
        }
    } else {
        match tag_end_from(s, i + 1, '\0') {
            Some(k) => if k <= i || k >= s.len() {
                false
            } else {
                walk_panics_from(s, k + 1)
            },
            None => i == s.len() - 1 || (s.last() as u32) >= 128,
        }
    }
}

fn apply_tag_exec(
    name: &Vec<char>,
    close: bool,
    block: &mut Block,
    cur: &mut Vec<char>,
    in_pre: &mut bool,
    nodes: &mut Vec<PageNode>,
)
    ensures
        ({
            let st0 = WalkState {
                nodes: node_views(old(nodes)@),
                block: *old(block),
                cur: old(cur)@,
                in_pre: *old(in_pre),
            };
            apply_tag(st0, name@, close) == WalkState {
                nodes: node_views(final(nodes)@),
                block: *final(block),
                cur: final(cur)@,
                in_pre: *final(in_pre),
            }
        }),
{
    let ghost st0 = WalkState { nodes: node_views(nodes@), block: *block, cur: cur@, in_pre: *in_pre };
    let is = |s: &str| -> (b: bool)
        ensures
            b == (name@ == s@),
        { seq_eq(name, &lit(s)) };
    if is("h1") {
        flush(cur, *block, nodes);
        *block = if close { Block::Plain } else { Block::H1 };
    } else if is("h2") {
        flush(cur, *block, nodes);
        *block = if close { Block::Plain } else { Block::H2 };
    } else if is("h3") || is("h4") || is("h5") || is("h6") {
        flush(cur, *block, nodes);
        *block = if close { Block::Plain } else { Block::H3 };
    } else if is("p") {
        flush(cur, *block, nodes);
        *block = if close { Block::Plain } else { Block::P };
    } else if is("li") {
        flush(cur, *block, nodes);
        *block = if close { Block::Plain } else { Block::Li };
    } else if is("pre") && !close {
        flush(cur, *block, nodes);
        *in_pre = true;
        *block = Block::Pre;
    } else if is("pre") {
        let t = trim_exec(cur);
        if t.len() > 0 {
            let ghost n0 = nodes@;
            nodes.push(PageNode::Pre(string_of(&t)));
            assert(node_views(nodes@) =~= node_views(n0).push(NodeView::Pre(t@)));
        }
        *cur = Vec::new();
        *in_pre = false;
        *block = Block::Plain;
    } else if is("hr") {
        flush(cur, *block, nodes);
        *block = Block::Plain;
        let ghost n0 = nodes@;
        nodes.push(PageNode::HRule);
        assert(node_views(nodes@) =~= node_views(n0).push(NodeView::HRule));
    } else if is("br") {
        if trim_exec(cur).len() > 0 {
            cur.push('\n');
        }
    } else if close && (is("div") || is("article") || is("section") || is("main") || is("header") || is(
        "footer",
    ) || is("aside") || is("nav") || is("ul") || is("ol") || is("table") || is("tbody") || is("thead")
        || is("tr") || is("td") || is("th") || is("blockquote") || is("figure") || is("figcaption") || is(
        "details",
    ) || is("summary")) {
        flush(cur, *block, nodes);
        *block = Block::Plain;
    } else if !close && (is("article") || is("section") || is("main") || is("blockquote")) {
        flush(cur, *block, nodes);
        *block = Block::P;
    }
    assert(cur@ =~= apply_tag(st0, name@, close).cur);
}

fn add_text_exec(raw: &Vec<char>, cur: &mut Vec<char>, in_pre: bool)
    ensures
        ({
            let st0 = WalkState { nodes: Seq::empty(), block: Block::Plain, cur: old(cur)@, in_pre };
            add_text(st0, raw@).cur == final(cur)@
        }),
{
    let collapsed = collapse_ws(&decode_chars(raw));
    if collapsed.len() == 0 {
        return ;
    }
    if in_pre {
        extend_chars(cur, raw);
    } else {
        let n = cur.len();
        if n > 0 && cur[n - 1] != ' ' {
            cur.push(' ');
        }
        extend_chars(cur, &collapsed);
    }
}

/// The content nodes of an HTML body: text grouped by the structural tag
/// around it.
fn walk_content(html: &Vec<char>) -> (r: Vec<PageNode>)
    requires
        !walk_panics_from(html@, 0),
    ensures
        node_views(r@) == walk_from(html@, 0, walk_start()),
{
    let n = html.len();
    let mut nodes: Vec<PageNode> = Vec::new();
    let mut block = Block::Plain;
    let mut cur: Vec<char> = Vec::new();
    let mut in_pre = false;
    let mut i: usize = 0;
    assert(node_views(nodes@) =~= Seq::<NodeView>::empty());
    while i < n
        invariant
            i <= n,
            n == html@.len(),
            !walk_panics_from(html@, i as int),
            walk_from(html@, i as int, WalkState { nodes: node_views(nodes@), block, cur: cur@, in_pre })
                == walk_from(html@, 0, walk_start()),
        decreases n - i,
    {
        if html[i] != '<' {
            let start = i;
            while i < n && html[i] != '<'
                invariant
                    start <= i <= n,
                    n == html@.len(),
                    start < n,
                    html@[start as int] != '<',
                    first_where(html@, eq_pred('<'), start as int) == first_where(
                        html@,
                        eq_pred('<'),
                        i as int,
                    ),
                decreases n - i,
            {
                i = i + 1;
            }
            proof {
                lemma_first_where_bounds(html@, eq_pred('<'), i as int);
                assert(next_lt(html@, start as int) == i);
            }
            let raw = slice_of(html, start, i);
            add_text_exec(&raw, &mut cur, in_pre);
        } else {
            proof {
                lemma_tag_end_from(html@, i + 1, '\0');
            }
            let tag_end = find_tag_end(html, i);
            let inner = slice_of(html, i + 1, tag_end);
            let (name, close) = tag_info(&inner);
            apply_tag_exec(&name, close, &mut block, &mut cur, &mut in_pre, &mut nodes);
            i = tag_end + 1;
        }
    }
    flush(&mut cur, block, &mut nodes);
    nodes
}


// ── Stripping noise blocks ───────────────────────────────────────────────────

/// Characters that may follow a tag's name.
pub open spec fn tag_boundary(c: char) -> bool {
    c == ' ' || c == '\t' || c == '\n' || c == '\r' || c == '>' || c == '/'
}

/// The first occurrence of `open` at or after `scan` that is followed by a
/// tag boundary (so `<script` but not `<scripting`).
pub open spec fn first_open_from(l: Seq<char>, open: Seq<char>, scan: int) -> Option<int>
    decreases l.len() - scan,
{
    match find_from(l, open, scan) {
        None => None,
        Some(abs) => {
            let next = abs + open.len();
            if 0 <= next < l.len() && tag_boundary(l[next]) {
                Some(abs)
            } else if next >= l.len() || next <= scan {
                None
            } else {
                first_open_from(l, open, next)
            }
        },
    }
}

/// `s` with every `<tag ...>...</tag>` block (case-insensitive) replaced by
/// a space, and everything from an unclosed one on dropped.
pub open spec fn remove_blocks(s: Seq<char>, open: Seq<char>, close: Seq<char>) -> Seq<char>
    decreases s.len(),
{
    let l = lower(s);
    match first_open_from(l, open, 0) {
        None => s,
        Some(st) => if st < 0 || st > s.len() {
            s
        } else {
            match find_from(l, close, st) {
                Some(p) => {
                    let e = p + close.len();
                    if e <= st + 1 || e > s.len() {
                        s
                    } else {
                        remove_blocks(s.take(st) + seq![' '] + s.skip(e), open, close)
                    }
                },
                None => s.take(st),
            }
        },
    }
}

/// `<tag` and `</tag>`.
pub open spec fn open_of(tag: Seq<char>) -> Seq<char> {
    seq!['<'] + tag
}

pub open spec fn close_of(tag: Seq<char>) -> Seq<char> {
    seq!['<', '/'] + tag + seq!['>']
}

fn first_open_exec(l: &Vec<char>, open: &Vec<char>) -> (r: Option<usize>)
    requires
        open@.len() > 0,
    ensures
        match r {
            Some(k) => first_open_from(l@, open@, 0) == Some(k as int),
            None => first_open_from(l@, open@, 0) is None,
        },
{
    let n = l.len();
    let mut scan: usize = 0;
    loop
        invariant
            scan <= n,
            n == l@.len(),
            open@.len() > 0,
            first_open_from(l@, open@, 0) == first_open_from(l@, open@, scan as int),
        decreases n - scan,
    {
        proof {
            lemma_find_from_bounds(l@, open@, scan as int);
        }
        match find_from_exec(l, open, scan) {
            None => {
                return None;
            },
            Some(abs) => {
                let next = abs + open.len();
                if next < n && (l[next] == ' ' || l[next] == '\t' || l[next] == '\n' || l[next] == '\r'
                    || l[next] == '>' || l[next] == '/') {
                    return Some(abs);
                }
                if next >= n {
                    return None;
                }
                scan = next;
            },
        }
    }
}

/// Remove all content between paired `<tag>…</tag>` blocks (case-insensitive).
fn remove_tag_blocks(html: &Vec<char>, tag: &str) -> (r: Vec<char>)
    ensures
        r@ == remove_blocks(html@, open_of(tag@), close_of(tag@)),
{
    let mut open = vec!['<'];
    extend_chars(&mut open, &chars_of(tag));
    let mut close = vec!['<', '/'];
    extend_chars(&mut close, &chars_of(tag));
    close.push('>');
    assert(open@ =~= open_of(tag@));
    assert(close@ =~= close_of(tag@));
    let mut result = slice_of(html, 0, html.len());
    assert(result@ =~= html@);
    loop
        invariant
            open@ == open_of(tag@),
            close@ == close_of(tag@),
            remove_blocks(result@, open@, close@) == remove_blocks(html@, open_of(tag@), close_of(tag@)),
        decreases result@.len(),
    {
        let l = to_lower(&result);
        let start = match first_open_exec(&l, &open) {
            None => {
                return result;
            },
            Some(s) => s,
        };
        proof {
            lemma_first_open_bounds(l@, open@, 0);
            lemma_find_from_bounds(l@, close@, start as int);
        }
        match find_from_exec(&l, &close, start) {
            Some(p) => {
                let e = p + close.len();
                let mut next = slice_of(&result, 0, start);
                next.push(' ');
                extend_chars(&mut next, &slice_of(&result, e, result.len()));
                assert(next@ =~= result@.take(start as int) + seq![' '] + result@.skip(e as int));
                result = next;
            },
            None => {
                let t = slice_of(&result, 0, start);
                assert(t@ =~= result@.take(start as int));
                return t;
            },
        }
    }
}

proof fn lemma_first_open_bounds(l: Seq<char>, open: Seq<char>, scan: int)
    requires
        0 <= scan,
        open.len() > 0,
    ensures
        first_open_from(l, open, scan) matches Some(k) ==> scan <= k && k + open.len() < l.len(),
    decreases l.len() - scan,
{
    lemma_find_from_bounds(l, open, scan);
    match find_from(l, open, scan) {
        None => {},
        Some(abs) => {
            let next = abs + open.len();
            if !(0 <= next < l.len() && tag_boundary(l[next])) && !(next >= l.len() || next <= scan) {
                lemma_first_open_bounds(l, open, next);
            }
        },
    }
}

// ── Body extraction ──────────────────────────────────────────────────────────

/// The HTML with script, style, noscript, svg, template and iframe blocks
/// removed.
pub open spec fn spec_clean(html: Seq<char>) -> Seq<char> {
    let a = remove_blocks(html, open_of("script"@), close_of("script"@));
    let b = remove_blocks(a, open_of("style"@), close_of("style"@));
    let c = remove_blocks(b, open_of("noscript"@), close_of("noscript"@));
    let d = remove_blocks(c, open_of("svg"@), close_of("svg"@));
    let e = remove_blocks(d, open_of("template"@), close_of("template"@));
    remove_blocks(e, open_of("iframe"@), close_of("iframe"@))
}

/// The part of the cleaned HTML after the `<body ...>` tag, when there is one.
pub open spec fn spec_body(html: Seq<char>) -> Seq<char> {
    let clean = spec_clean(html);
    let l = lower(clean);
    match find(l, "<body"@) {
        Some(bp) => match first_where(l, eq_pred('>'), bp) {
            Some(be) => clean.skip(be + 1),
            None => clean,
        },
        None => clean,
    }
}

/// The number of bytes of a text in UTF-8.
pub open spec fn utf8_len(s: Seq<char>) -> int
    decreases s.len(),
{
    if s.len() == 0 {
        0
    } else {
        utf8_len(s.drop_last()) + utf8_bytes(s.last()).len()
    }
}

/// How many characters of a text are alphabetic.
pub open spec fn alpha_count(s: Seq<char>) -> int
    decreases s.len(),
{
    if s.len() == 0 {
        0
    } else {
        alpha_count(s.drop_last()) + if char_is_alphabetic(s.last()) {
            1int
        } else {
            0
        }
    }
}

/// Whether a node is worth showing: text of at least twenty bytes or with
/// at least four letters (and four bytes); any non-blank heading or
/// preformatted block; any rule.
pub open spec fn keep_node(n: NodeView) -> bool {
    match n {
        NodeView::Paragraph(t) => {
            let t = trim(t);
            utf8_len(t) >= 20 || (utf8_len(t) >= 4 && alpha_count(t) >= 4)
        },
        NodeView::ListItem(t) => {
            let t = trim(t);
            utf8_len(t) >= 20 || (utf8_len(t) >= 4 && alpha_count(t) >= 4)
        },
        NodeView::Heading { level, text } => trim(text).len() > 0,
        NodeView::Pre(t) => trim(t).len() > 0,
        NodeView::HRule => true,
    }
}

pub open spec fn keep_pred() -> spec_fn(NodeView) -> bool {
    |n: NodeView| keep_node(n)
}

/// The nodes with each run of consecutive rules reduced to one.
pub open spec fn dedup_rules(ns: Seq<NodeView>) -> Seq<NodeView>
    decreases ns.len(),
{
    if ns.len() == 0 {
        Seq::empty()
    } else {
        let d = dedup_rules(ns.drop_last());
        if ns.last() is HRule && d.len() > 0 && d.last() is HRule {
            d
        } else {
            d.push(ns.last())
        }
    }
}

/// The most content nodes a page shows.
pub const MAX_NODES: usize = 120;

/// The content nodes of a page.
pub open spec fn spec_extract_nodes(html: Seq<char>) -> Seq<NodeView> {
    let d = dedup_rules(walk_from(spec_body(html), 0, walk_start()).filter(keep_pred()));
    if d.len() > MAX_NODES {
        d.take(MAX_NODES as int)
    } else {
        d
    }
}

/// Whether the content walk of a page would reach a tag it cannot cut out.
pub open spec fn nodes_would_panic(html: Seq<char>) -> bool {
    walk_panics_from(spec_body(html), 0)
}

fn copy_node(n: &PageNode) -> (r: PageNode)
    ensures
        r@ == n@,
{
    match n {
        PageNode::Heading { level, text } => PageNode::Heading { level: *level, text: text.clone() },
        PageNode::Paragraph(t) => PageNode::Paragraph(t.clone()),
        PageNode::ListItem(t) => PageNode::ListItem(t.clone()),
        PageNode::Pre(t) => PageNode::Pre(t.clone()),
        PageNode::HRule => PageNode::HRule,
    }
}

pub open spec fn min_int(a: int, b: int) -> int {
    if a < b {
        a
    } else {
        b
    }
}

proof fn lemma_utf8_len_nonneg(s: Seq<char>)
    ensures
        utf8_len(s) >= 0,
        alpha_count(s) >= 0,
    decreases s.len(),
{
    if s.len() > 0 {
        lemma_utf8_len_nonneg(s.drop_last());
    }
}

/// Whether a trimmed text is long or wordy enough to keep.
fn text_worth_keeping(t: &Vec<char>) -> (b: bool)
    ensures
        b == (utf8_len(t@) >= 20 || (utf8_len(t@) >= 4 && alpha_count(t@) >= 4)),
{
    let mut bytes: usize = 0;
    let mut alpha: usize = 0;
    let mut i: usize = 0;
    assert(t@.take(0) =~= Seq::<char>::empty());
    while i < t.len()
        invariant
            i <= t@.len(),
            bytes == min_int(utf8_len(t@.take(i as int)), 20),
            alpha == min_int(alpha_count(t@.take(i as int)), 4),
        decreases t.len() - i,
    {
        let c = t[i];
        let w = crate::omnibox::utf8_of(c).len();
        assert(utf8_bytes(c).len() == w);
        assert(w <= 4);
        assert(t@.take(i + 1).drop_last() =~= t@.take(i as int));
        assert(t@.take(i + 1).last() == c);
        proof {
            lemma_utf8_len_nonneg(t@.take(i as int));
        }
        bytes = if bytes + w > 20 {
            20
        } else {
            bytes + w
        };
        if is_alphabetic(c) && alpha < 4 {
            alpha = alpha + 1;
        }
        i = i + 1;
    }
    assert(t@.take(t@.len() as int) =~= t@);
    bytes >= 20 || (bytes >= 4 && alpha >= 4)
}

fn keep_node_exec(n: &PageNode) -> (b: bool)
    ensures
        b == keep_node(n@),
{
    match n {
        PageNode::Paragraph(t) | PageNode::ListItem(t) => {
            text_worth_keeping(&trim_exec(&chars_of(t.as_str())))
        },
        PageNode::Heading { text, .. } => trim_exec(&chars_of(text.as_str())).len() > 0,
        PageNode::Pre(t) => trim_exec(&chars_of(t.as_str())).len() > 0,
        PageNode::HRule => true,
    }
}

fn extract_nodes(html: &Vec<char>) -> (r: Vec<PageNode>)
    requires
        !nodes_would_panic(html@),
    ensures
        node_views(r@) == spec_extract_nodes(html@),
{
    let mut clean = remove_tag_blocks(html, "script");
    clean = remove_tag_blocks(&clean, "style");
    clean = remove_tag_blocks(&clean, "noscript");
    clean = remove_tag_blocks(&clean, "svg");
    clean = remove_tag_blocks(&clean, "template");
    clean = remove_tag_blocks(&clean, "iframe");
    let l = to_lower(&clean);
    let body = match find_exec(&l, &lit("<body")) {
        Some(bp) => match first_char_from(&l, '>', bp) {
            Some(be) => {
                proof {
                    lemma_first_where_bounds(l@, eq_pred('>'), bp as int);
                }
                let b = slice_of(&clean, be + 1, clean.len());
                assert(b@ =~= clean@.skip(be + 1));
                b
            },
            None => clean,
        },
        None => clean,
    };
    let nodes = walk_content(&body);
    let ghost nv = node_views(nodes@);
    let mut kept: Vec<PageNode> = Vec::new();
    let mut i: usize = 0;
    assert(nv.take(0).filter(keep_pred()) =~= Seq::<NodeView>::empty()) by {
        reveal(Seq::filter);
    }
    assert(node_views(kept@) =~= dedup_rules(nv.take(0).filter(keep_pred())));
    while i < nodes.len()
        invariant
            i <= nodes@.len(),
            nv == node_views(nodes@),
            node_views(kept@) == dedup_rules(nv.take(i as int).filter(keep_pred())),
        decreases nodes.len() - i,
    {
        let ghost k0 = node_views(kept@);
        let n = &nodes[i];
        assert(nv[i as int] == n@);
        assert(nv.take(i + 1) =~= nv.take(i as int).push(n@));
        proof {
            nv.take(i as int).lemma_filter_push(n@, keep_pred());
        }
        let keep = keep_node_exec(n);
        if keep {
            assert(nv.take(i + 1).filter(keep_pred()) == nv.take(i as int).filter(keep_pred()).push(n@));
            assert(nv.take(i as int).filter(keep_pred()).push(n@).drop_last() =~= nv.take(i as int).filter(
                keep_pred(),
            ));
            let kl = kept.len();
            let is_rule = match n {
                PageNode::HRule => true,
                _ => false,
            };
            let last_rule = kl > 0 && match &kept[kl - 1] {
                PageNode::HRule => true,
                _ => false,
            };
            assert(k0.len() == kl);
            assert(kl > 0 ==> k0.last() == kept@[kl - 1]@);
            assert(last_rule ==> k0.last() is HRule);
            assert(is_rule == (n@ is HRule));
            if !(is_rule && last_rule) {
                kept.push(copy_node(n));
                assert(node_views(kept@) =~= k0.push(n@));
            }
        } else {
            assert(nv.take(i + 1).filter(keep_pred()) == nv.take(i as int).filter(keep_pred()));
        }
        i = i + 1;
    }
    assert(nv.take(nodes@.len() as int) =~= nv);
    if kept.len() > MAX_NODES {
        let ghost k0 = node_views(kept@);
        kept.truncate(MAX_NODES);
        assert(node_views(kept@) =~= k0.take(MAX_NODES as int));
    }
    kept
}


// ── Titles ───────────────────────────────────────────────────────────────────

/// The decoded, trimmed text of the first `<title>` element, unless empty.
pub open spec fn spec_extract_title(html: Seq<char>) -> Option<Seq<char>> {
    let l = lower(html);
    match find(l, "<title"@) {
        None => None,
        Some(ts) => match first_where(l, eq_pred('>'), ts) {
            None => None,
            Some(g) => match find_from(l, "</title"@, g + 1) {
                None => None,
                Some(close) => {
                    let text = spec_decode_entities(trim(html.subrange(g + 1, close)));
                    if text.len() == 0 {
                        None
                    } else {
                        Some(text)
                    }
                },
            },
        },
    }
}

/// The decoded value of `attr="..."` in a tag (name matched in any case).
pub open spec fn spec_attr_value(tag: Seq<char>, attr: Seq<char>) -> Option<Seq<char>> {
    let key = attr + seq!['=', '"'];
    match find(lower(tag), key) {
        None => None,
        Some(k) => match first_where(tag, eq_pred('"'), k + key.len()) {
            None => None,
            Some(end) => Some(spec_decode_entities(tag.subrange(k + key.len(), end))),
        },
    }
}

/// The first non-empty `content` of a `<meta>` tag at or after `pos` that
/// mentions `og:title` or `twitter:title`.
pub open spec fn og_from(html: Seq<char>, l: Seq<char>, pos: int) -> Option<Seq<char>>
    decreases html.len() - pos,
{
    match find_from(l, "<meta"@, pos) {
        None => None,
        Some(abs) => {
            let tag_end = match first_where(l, eq_pred('>'), abs) {
                Some(e) => e,
                None => html.len() as int,
            };
            let last = if tag_end < html.len() - 1 {
                tag_end
            } else {
                html.len() - 1
            };
            let tag_lower = l.subrange(abs, last + 1);
            let tag_raw = html.subrange(abs, last + 1);
            let found = if contains(tag_lower, "og:title"@) || contains(tag_lower, "twitter:title"@) {
                match spec_attr_value(tag_raw, "content"@) {
                    Some(v) => if v.len() > 0 {
                        Some(v)
                    } else {
                        None
                    },
                    None => None,
                }
            } else {
                None
            };
            if found is Some {
                found
            } else if tag_end + 1 >= html.len() || tag_end + 1 <= pos {
                None
            } else {
                og_from(html, l, tag_end + 1)
            }
        },
    }
}

/// A page's title: its `<title>`, else an Open Graph or Twitter title.
pub open spec fn spec_page_title(html: Seq<char>) -> Option<Seq<char>> {
    match spec_extract_title(html) {
        Some(t) => Some(t),
        None => og_from(html, lower(html), 0),
    }
}

fn extract_title(html: &Vec<char>) -> (r: Option<Vec<char>>)
    ensures
        match r {
            Some(t) => spec_extract_title(html@) == Some(t@),
            None => spec_extract_title(html@) is None,
        },
{
    let l = to_lower(html);
    let ln = l.len();
    let ts = match find_exec(&l, &lit("<title")) {
        Some(t) => t,
        None => return None,
    };
    let g = match first_char_from(&l, '>', ts) {
        Some(g) => g,
        None => return None,
    };
    proof {
        lemma_first_where_bounds(l@, eq_pred('>'), ts as int);
    }
    assert(g < ln);
    let close = match find_from_exec(&l, &lit("</title"), g + 1) {
        Some(c) => c,
        None => return None,
    };
    proof {
        lemma_find_from_bounds(l@, "</title"@, g + 1);
    }
    let raw = slice_of(html, g + 1, close);
    let text = decode_chars(&trim_exec(&raw));
    if text.len() == 0 {
        None
    } else {
        Some(text)
    }
}

fn attr_value(tag: &Vec<char>, attr: &str) -> (r: Option<Vec<char>>)
    ensures
        match r {
            Some(v) => spec_attr_value(tag@, attr@) == Some(v@),
            None => spec_attr_value(tag@, attr@) is None,
        },
{
    let mut key = chars_of(attr);
    key.push('=');
    key.push('"');
    assert(key@ =~= attr@ + seq!['=', '"']);
    let l = to_lower(tag);
    let ln = l.len();
    let k = match find_exec(&l, &key) {
        Some(k) => k,
        None => return None,
    };
    proof {
        lemma_find_from_bounds(l@, key@, 0);
    }
    assert(k + key@.len() <= ln);
    let start = k + key.len();
    let end = match first_char_from(tag, '"', start) {
        Some(e) => e,
        None => return None,
    };
    proof {
        lemma_first_where_bounds(tag@, eq_pred('"'), start as int);
    }
    Some(decode_chars(&slice_of(tag, start, end)))
}

fn extract_og_title(html: &Vec<char>) -> (r: Option<Vec<char>>)
    ensures
        match r {
            Some(t) => og_from(html@, lower(html@), 0) == Some(t@),
            None => og_from(html@, lower(html@), 0) is None,
        },
{
    let l = to_lower(html);
    let n = html.len();
    let mut pos: usize = 0;
    loop
        invariant
            pos <= n,
            n == html@.len(),
            l@ == lower(html@),
            l@.len() == n,
            og_from(html@, l@, 0) == og_from(html@, l@, pos as int),
        decreases n - pos,
    {
        proof {
            lemma_find_from_bounds(l@, "<meta"@, pos as int);
        }
        let abs = match find_from_exec(&l, &lit("<meta"), pos) {
            Some(a) => a,
            None => return None,
        };
        proof {
            reveal_strlit("<meta");
        }
        assert(abs + 5 <= n);
        let tag_end = match first_char_from(&l, '>', abs) {
            Some(e) => e,
            None => n,
        };
        proof {
            lemma_first_where_bounds(l@, eq_pred('>'), abs as int);
        }
        let last = if tag_end < n - 1 {
            tag_end
        } else {
            n - 1
        };
        let tag_lower = slice_of(&l, abs, last + 1);
        let tag_raw = slice_of(html, abs, last + 1);
        if contains_exec(&tag_lower, &lit("og:title")) || contains_exec(&tag_lower, &lit("twitter:title")) {
            match attr_value(&tag_raw, "content") {
                Some(v) => {
                    if v.len() > 0 {
                        return Some(v);
                    }
                },
                None => {},
            }
        }
        if tag_end >= n - 1 {
            return None;
        }
        pos = tag_end + 1;
    }
}

// ── Entry point ──────────────────────────────────────────────────────────────

/// Parsed representation of a fetched HTML page.
#[derive(Debug, Clone)]
pub struct ParsedPage {
    pub title: Option<String>,
    pub nodes: Vec<PageNode>,
}

impl Default for ParsedPage {
    fn default() -> (p: Self)
        ensures
            p.title is None,
            p.nodes@.len() == 0,
    {
        ParsedPage { title: None, nodes: Vec::new() }
    }
}

/// Whether reading the body of `html` would reach a tag it cannot cut out.
pub fn parse_would_panic(html: &str) -> (b: bool)
    ensures
        b == nodes_would_panic(html@),
{
    let v = chars_of(html);
    let mut clean = remove_tag_blocks(&v, "script");
    clean = remove_tag_blocks(&clean, "style");
    clean = remove_tag_blocks(&clean, "noscript");
    clean = remove_tag_blocks(&clean, "svg");
    clean = remove_tag_blocks(&clean, "template");
    clean = remove_tag_blocks(&clean, "iframe");
    let l = to_lower(&clean);
    let body = match find_exec(&l, &lit("<body")) {
        Some(bp) => match first_char_from(&l, '>', bp) {
            Some(be) => {
                proof {
                    lemma_first_where_bounds(l@, eq_pred('>'), bp as int);
                }
                let b = slice_of(&clean, be + 1, clean.len());
                assert(b@ =~= clean@.skip(be + 1));
                b
            },
            None => clean,
        },
        None => clean,
    };
    let n = body.len();
    let mut i: usize = 0;
    while i < n
        invariant
            i <= n,
            n == body@.len(),
            body@ == spec_body(html@),
            walk_panics_from(body@, 0) == walk_panics_from(body@, i as int),
        decreases n - i,
    {
        if body[i] != '<' {
            let start = i;
            while i < n && body[i] != '<'
                invariant
                    start <= i <= n,
                    n == body@.len(),
                    start < n,
                    first_where(body@, eq_pred('<'), start as int) == first_where(
                        body@,
                        eq_pred('<'),
                        i as int,
                    ),
                decreases n - i,
            {
                i = i + 1;
            }
            proof {
                lemma_first_where_bounds(body@, eq_pred('<'), i as int);
            }
        } else {
            proof {
                lemma_tag_end_from(body@, i + 1, '\0');
            }
            let mut j = i + 1;
            let mut quote = '\0';
            let mut found = false;
            while j < n && !found
                invariant
                    i < j <= n,
                    n == body@.len(),
                    !found ==> tag_end_from(body@, i + 1, '\0') == tag_end_from(body@, j as int, quote),
                    found ==> tag_end_from(body@, i + 1, '\0') == Some(j as int) && j < n,
                decreases n - j + (if found {
                    0int
                } else {
                    1int
                }),
            {
                let c = body[j];
                if (c == '"' || c == '\'') && quote == '\0' {
                    quote = c;
                    j = j + 1;
                } else if c == '"' && quote == '"' {
                    quote = '\0';
                    j = j + 1;
                } else if c == '\'' && quote == '\'' {
                    quote = '\0';
                    j = j + 1;
                } else if c == '>' && quote == '\0' {
                    found = true;
                } else {
                    j = j + 1;
                }
            }
            if !found {
                return i == n - 1 || (body[n - 1] as u32) >= 128;
            }
            i = j + 1;
        }
    }
    false
}

/// Parses a page: its title (`<title>`, else an Open Graph or Twitter title)
/// and its content nodes.
pub fn parse_html(html: &str) -> (p: ParsedPage)
    requires
        !nodes_would_panic(html@),
    ensures
        match p.title {
            Some(t) => spec_page_title(html@) == Some(t@),
            None => spec_page_title(html@) is None,
        },
        node_views(p.nodes@) == spec_extract_nodes(html@),
{
    let v = chars_of(html);
    let title = match extract_title(&v) {
        Some(t) => Some(string_of(&t)),
        None => match extract_og_title(&v) {
            Some(t) => Some(string_of(&t)),
            None => None,
        },
    };
    let nodes = extract_nodes(&v);
    ParsedPage { title, nodes }
}

} // verus!
