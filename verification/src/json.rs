//! JSON string literals: how text is escaped when it is written out.
use vstd::prelude::*;

use crate::text::{chars_of, string_of};

verus! {

pub open spec fn hex_lower(d: nat) -> char {
    if d < 10 {
        ((d as int) + 48) as char
    } else {
        ((d as int) + 87) as char
    }
}

/// How one character is written inside a JSON string literal.
pub open spec fn json_escape_char(c: char) -> Seq<char> {
    if c == '"' {
        seq!['\\', '"']
    } else if c == '\\' {
        seq!['\\', '\\']
    } else if c == '\n' {
        seq!['\\', 'n']
    } else if c == '\r' {
        seq!['\\', 'r']
    } else if c == '\t' {
        seq!['\\', 't']
    } else if (c as int) < 0x20 {
        seq!['\\', 'u', '0', '0', hex_lower((c as nat) / 16), hex_lower((c as nat) % 16)]
    } else {
        seq![c]
    }
}

pub open spec fn json_escape(s: Seq<char>) -> Seq<char>
    decreases s.len(),
{
    if s.len() == 0 {
        Seq::empty()
    } else {
        json_escape(s.drop_last()) + json_escape_char(s.last())
    }
}

/// A JSON string literal holding `s`.
pub open spec fn spec_json_str(s: Seq<char>) -> Seq<char> {
    seq!['"'] + json_escape(s) + seq!['"']
}

pub(crate) fn hex_lower_exec(d: u32) -> (c: char)
    requires
        d < 16,
    ensures
        c == hex_lower(d as nat),
{
    let b: u8 = d as u8;
    if b < 10 {
        (b + 48) as char
    } else {
        (b + 87) as char
    }
}

pub(crate) fn push_json_escaped(out: &mut Vec<char>, c: char)
    ensures
        final(out)@ == old(out)@ + json_escape_char(c),
{
    if c == '"' {
        out.push('\\');
        out.push('"');
    } else if c == '\\' {
        out.push('\\');
        out.push('\\');
    } else if c == '\n' {
        out.push('\\');
        out.push('n');
    } else if c == '\r' {
        out.push('\\');
        out.push('r');
    } else if c == '\t' {
        out.push('\\');
        out.push('t');
    } else if (c as u32) < 0x20 {
        let v = c as u32;
        out.push('\\');
        out.push('u');
        out.push('0');
        out.push('0');
        out.push(hex_lower_exec(v / 16));
        out.push(hex_lower_exec(v % 16));
    } else {
        out.push(c);
    }
    assert(out@ =~= old(out)@ + json_escape_char(c));
}

pub(crate) fn json_str_chars(s: &Vec<char>) -> (r: Vec<char>)
    ensures
        r@ == spec_json_str(s@),
{
    let mut out = vec!['"'];
    let mut i: usize = 0;
    while i < s.len()
        invariant
            i <= s.len(),
            out@ == seq!['"'] + json_escape(s@.take(i as int)),
        decreases s.len() - i,
    {
        push_json_escaped(&mut out, s[i]);
        i = i + 1;
        assert(s@.take(i as int).drop_last() =~= s@.take(i - 1));
        assert(out@ =~= seq!['"'] + json_escape(s@.take(i as int)));
    }
    out.push('"');
    assert(s@.take(s.len() as int) =~= s@);
    assert(out@ =~= spec_json_str(s@));
    out
}

/// A JSON string literal holding `s`.
pub fn json_str(s: &str) -> (r: String)
    ensures
        r@ == spec_json_str(s@),
{
    string_of(&json_str_chars(&chars_of(s)))
}


/// The character an escape `\\c` inside a JSON string stands for, as the
/// readers of this crate decode it (`\\n`, `\\r` and `\\t`; any other
/// character stands for itself).
pub open spec fn unescape_char(c: char) -> char {
    if c == 'n' {
        '\n'
    } else if c == 'r' {
        '\r'
    } else if c == 't' {
        '\t'
    } else {
        c
    }
}

/// A character that a JSON string literal writes as itself or with a
/// one-letter escape (not as `\uXXXX`).
pub open spec fn simply_escaped(c: char) -> bool {
    (c as int) >= 0x20 || c == '\n' || c == '\r' || c == '\t'
}

/// Escaping a concatenation escapes each part.
pub proof fn lemma_json_escape_concat(a: Seq<char>, b: Seq<char>)
    ensures
        json_escape(a + b) == json_escape(a) + json_escape(b),
    decreases b.len(),
{
    if b.len() == 0 {
        assert(a + b =~= a);
        assert(json_escape(a) + json_escape(b) =~= json_escape(a));
    } else {
        assert((a + b).drop_last() =~= a + b.drop_last());
        assert((a + b).last() == b.last());
        lemma_json_escape_concat(a, b.drop_last());
        assert(json_escape(a + b) =~= json_escape(a) + json_escape(b));
    }
}

/// Escaping a text writes its first character's escape first.
pub proof fn lemma_json_escape_front(v: Seq<char>)
    requires
        v.len() > 0,
    ensures
        json_escape(v) == json_escape_char(v[0]) + json_escape(v.skip(1)),
{
    lemma_json_escape_concat(seq![v[0]], v.skip(1));
    assert(seq![v[0]] + v.skip(1) =~= v);
    let x = seq![v[0]];
    assert(x.drop_last() =~= Seq::<char>::empty());
    assert(x.last() == v[0]);
    assert(json_escape(x.drop_last()) =~= Seq::<char>::empty());
    assert(json_escape(x) == json_escape(x.drop_last()) + json_escape_char(x.last()));
    assert(json_escape(x) =~= json_escape_char(v[0]));
}

} // verus!
