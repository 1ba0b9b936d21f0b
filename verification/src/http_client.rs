//! HTTP client with integrated ad blocking: which requests go out, the stub
//! response the network process answers with, and how the output of the
//! `curl` fetcher is turned into page text or an error message.
use vstd::prelude::*;

use crate::adblock::{opt_view, spec_after_request, spec_block_decision, AdblockEngine, AdblockModel};
use crate::omnibox::dec_value;
use crate::protocol::{NetworkRequest, NetworkResponse};
use crate::text::{
    all_digits, chars_of, dec, dec_u64, extend_chars, is_ascii_digit, lit, occurs_at, occurs_at_exec,
    slice_of, string_of, trim, trim_exec,
};

verus! {

broadcast use vstd::string::group_string_axioms;

/// The HTTP client with integrated adblocking.
pub struct HttpClient {
    adblock: AdblockEngine,
}

/// The page the network process answers an allowed request with.
pub open spec fn stub_page() -> Seq<char> {
    "<html><body><h1>Rashamon Arc</h1><p>Network layer active. Adblock: OK</p></body></html>"@
}

/// The bytes of an ASCII text.
pub open spec fn ascii_bytes(s: Seq<char>) -> Seq<u8> {
    s.map_values(|c: char| c as u8)
}

pub open spec fn is_ascii_text(s: Seq<char>) -> bool {
    forall|i: int| 0 <= i < s.len() ==> (#[trigger] s[i] as int) < 128
}

pub(crate) fn ascii_bytes_exec(v: &Vec<char>) -> (r: Vec<u8>)
    requires
        is_ascii_text(v@),
    ensures
        r@ == ascii_bytes(v@),
{
    let mut r: Vec<u8> = Vec::new();
    let mut i: usize = 0;
    while i < v.len()
        invariant
            i <= v.len(),
            is_ascii_text(v@),
            r@ == ascii_bytes(v@.take(i as int)),
        decreases v.len() - i,
    {
        let c = v[i];
        assert((c as int) < 128);
        let b: u8 = c as u8;
        r.push(b);
        i = i + 1;
        assert(r@ =~= ascii_bytes(v@.take(i as int)));
    }
    assert(v@.take(v@.len() as int) =~= v@);
    r
}

impl HttpClient {
    /// The client's ad-blocking state.
    pub closed spec fn blocker(&self) -> AdblockModel {
        self.adblock@
    }

    pub closed spec fn wf(&self) -> bool {
        self.adblock.wf()
    }

    pub fn new() -> (c: Self)
        ensures
            c.wf(),
            c.blocker() == crate::adblock::spec_default_engine(),
    {
        Self { adblock: AdblockEngine::new() }
    }

    /// Answers a network request: a request the blocker stops gets an empty
    /// status-0 response carrying the blocking rule; any other gets the stub
    /// HTML page with status 200.
    pub fn execute(&mut self, req: NetworkRequest) -> (r: NetworkResponse)
        requires
            old(self).wf(),
            old(self).blocker().total < u64::MAX,
        ensures
            final(self).wf(),
            final(self).blocker() == spec_after_request(old(self).blocker(), req.url@, req.origin@, false),
            ({
                let (blocked, reason) = spec_block_decision(old(self).blocker(), req.url@, req.origin@, false);
                if blocked {
                    &&& r.status == 0
                    &&& r.headers@.len() == 0
                    &&& r.body@.len() == 0
                    &&& r.blocked
                    &&& opt_view(r.block_reason) == reason
                } else {
                    &&& r.status == 200
                    &&& r.headers@.len() == 1
                    &&& r.headers@[0].0@ == "content-type"@
                    &&& r.headers@[0].1@ == "text/html; charset=utf-8"@
                    &&& r.body@ == ascii_bytes(stub_page())
                    &&& !r.blocked
                    &&& r.block_reason is None
                }
            }),
    {
        let (blocked, block_reason) = self.adblock.should_block(req.url.as_str(), req.origin.as_str());
        if blocked {
            return NetworkResponse {
                status: 0,
                headers: Vec::new(),
                body: Vec::new(),
                blocked: true,
                block_reason,
            };
        }
        let mut headers: Vec<(String, String)> = Vec::new();
        headers.push(("content-type".to_string(), "text/html; charset=utf-8".to_string()));
        let page = lit("<html><body><h1>Rashamon Arc</h1><p>Network layer active. Adblock: OK</p></body></html>");
        proof {
            reveal_strlit("<html><body><h1>Rashamon Arc</h1><p>Network layer active. Adblock: OK</p></body></html>");
        }
        let body = ascii_bytes_exec(&page);
        NetworkResponse { status: 200, headers, body, blocked: false, block_reason: None }
    }

    /// The adblock counters: `(blocked, total)`.
    /// A client never reports more blocked requests than requests.
    pub proof fn law_stats_blocked_within_total(&self)
        requires
            self.wf(),
        ensures
            self.blocker().blocked <= self.blocker().total,
    {
        self.adblock.law_blocked_within_total();
    }

    pub fn adblock_stats(&self) -> (r: (u64, u64))
        ensures
            r == (self.blocker().blocked, self.blocker().total),
    {
        (self.adblock.blocked_count(), self.adblock.total_count())
    }

    /// Removes the rule with this text, or adds it when there is none.
    pub fn adblock_toggle(&mut self, rule: &str)
        requires
            old(self).wf(),
        ensures
            final(self).wf(),
            final(self).blocker() == crate::adblock::spec_toggle_rule(old(self).blocker(), rule@),
    {
        self.adblock.toggle_rule(rule);
    }

    /// The ad-blocking gate of a page fetch: `Err("Blocked: <rule>")` when the
    /// blocker stops the URL, else `Ok` and the fetch may go ahead.
    pub fn fetch_gate(&mut self, url: &str) -> (r: Result<(), String>)
        requires
            old(self).wf(),
            old(self).blocker().total < u64::MAX,
        ensures
            final(self).wf(),
            final(self).blocker() == spec_after_request(old(self).blocker(), url@, ""@, false),
            ({
                let (blocked, reason) = spec_block_decision(old(self).blocker(), url@, ""@, false);
                match r {
                    Ok(_) => !blocked,
                    Err(e) => blocked && e@ == "Blocked: "@ + match reason {
                        Some(t) => t,
                        None => Seq::empty(),
                    },
                }
            }),
    {
        let (blocked, reason) = self.adblock.should_block(url, "");
        if blocked {
            let mut msg = lit("Blocked: ");
            match reason {
                Some(t) => extend_chars(&mut msg, &chars_of(t.as_str())),
                None => {},
            }
            return Err(string_of(&msg));
        }
        Ok(())
    }
}

// ── Interpreting the fetcher's output ────────────────────────────────────────

/// The marker the fetcher writes between the body and the HTTP status code.
pub open spec fn status_marker() -> Seq<char> {
    "\x04RASHAMON_STATUS:"@
}

/// The last position below `j` where `pat` occurs.
pub open spec fn last_occurrence(s: Seq<char>, pat: Seq<char>, j: int) -> Option<int>
    decreases j,
{
    if j <= 0 {
        None
    } else if occurs_at(s, pat, j - 1) {
        Some(j - 1)
    } else {
        last_occurrence(s, pat, j - 1)
    }
}

/// A status code as `u16` reads it (an optional `+` and decimal digits up to
/// 65535), or 0 when it does not read.
pub open spec fn status_or_zero(t: Seq<char>) -> int {
    let d = if t.len() > 0 && t[0] == '+' {
        t.skip(1)
    } else {
        t
    };
    if d.len() > 0 && all_digits(d) && dec_value(d) <= 65535 {
        dec_value(d) as int
    } else {
        0
    }
}

/// A signed number in decimal.
pub open spec fn dec_int(n: int) -> Seq<char> {
    if n < 0 {
        seq!['-'] + dec((-n) as nat)
    } else {
        dec(n as nat)
    }
}

/// Why a fetch that printed nothing failed, by the fetcher's exit code.
pub open spec fn fetch_error_text(code: Option<i32>) -> Seq<char> {
    match code {
        Some(n) => if n == 6 {
            "Could not resolve host (DNS failure)"@
        } else if n == 7 {
            "Failed to connect to server"@
        } else if n == 28 {
            "Request timed out"@
        } else if n == 35 {
            "SSL/TLS handshake failed"@
        } else {
            "curl error "@ + dec_int(n as int)
        },
        None => "Connection failed"@,
    }
}

/// The message for an HTTP error status.
pub open spec fn http_error_text(status: int) -> Seq<char> {
    if status == 404 {
        "Page not found (HTTP 404)"@
    } else if status == 403 {
        "Access denied (HTTP 403)"@
    } else if 500 <= status <= 599 {
        "Server error (HTTP "@ + dec(status as nat) + ")"@
    } else {
        "HTTP error "@ + dec(status as nat)
    }
}

/// The page text, or why there is none, from what the fetcher printed (as
/// text), its exit code and whether it exited successfully.
pub open spec fn spec_fetch_outcome(raw: Seq<char>, code: Option<i32>, success: bool) -> Result<
    Seq<char>,
    Seq<char>,
> {
    if raw.len() == 0 {
        Err(fetch_error_text(code))
    } else {
        match last_occurrence(raw, status_marker(), raw.len() as int) {
            Some(sep) => {
                let status = status_or_zero(trim(raw.skip(sep + status_marker().len())));
                let body = raw.take(sep);
                if status == 0 && trim(body).len() == 0 {
                    Err("Connection failed (no response)"@)
                } else if status >= 400 {
                    Err(http_error_text(status))
                } else {
                    Ok(body)
                }
            },
            None => if success {
                Ok(raw)
            } else {
                Err("Connection failed"@)
            },
        }
    }
}

fn last_occurrence_exec(v: &Vec<char>, pat: &Vec<char>) -> (r: Option<usize>)
    ensures
        match r {
            Some(k) => last_occurrence(v@, pat@, v@.len() as int) == Some(k as int) && k + pat@.len()
                <= v@.len(),
            None => last_occurrence(v@, pat@, v@.len() as int) is None,
        },
{
    let mut j = v.len();
    while j > 0
        invariant
            j <= v@.len(),
            last_occurrence(v@, pat@, v@.len() as int) == last_occurrence(v@, pat@, j as int),
        decreases j,
    {
        if occurs_at_exec(v, pat, j - 1) {
            return Some(j - 1);
        }
        j = j - 1;
    }
    None
}

fn status_or_zero_exec(t: &Vec<char>) -> (r: u16)
    ensures
        r as int == status_or_zero(t@),
{
    let n = t.len();
    let d = if n > 0 && t[0] == '+' {
        slice_of(t, 1, n)
    } else {
        slice_of(t, 0, n)
    };
    assert(t@.len() > 0 && t@[0] == '+' ==> d@ =~= t@.skip(1));
    assert(!(t@.len() > 0 && t@[0] == '+') ==> d@ =~= t@);
    if d.len() == 0 {
        return 0;
    }
    let mut val: u32 = 0;
    let mut i: usize = 0;
    while i < d.len()
        invariant
            i <= d.len(),
            d@.len() > 0,
            status_or_zero(t@) == (if all_digits(d@) && dec_value(d@) <= 65535 {
                dec_value(d@) as int
            } else {
                0
            }),
            val == dec_value(d@.take(i as int)),
            val <= 65535,
            all_digits(d@.take(i as int)),
        decreases d.len() - i,
    {
        if !('0' <= d[i] && d[i] <= '9') {
            assert(!all_digits(d@)) by {
                assert(!is_ascii_digit(d@[i as int]));
            }
            return 0;
        }
        let digit = (d[i] as u32) - 48;
        assert(d@.take(i + 1).drop_last() =~= d@.take(i as int));
        let nv = val * 10 + digit;
        i = i + 1;
        if nv > 65535 {
            proof {
                if all_digits(d@) {
                    crate::omnibox::lemma_dec_value_grows(d@, i as int);
                }
            }
            return 0;
        }
        val = nv;
    }
    assert(d@.take(d@.len() as int) =~= d@);
    val as u16
}

fn dec_i32(n: i32) -> (r: Vec<char>)
    ensures
        r@ == dec_int(n as int),
{
    if n < 0 {
        let m: i64 = -(n as i64);
        let mut r = vec!['-'];
        extend_chars(&mut r, &dec_u64(m as u64));
        r
    } else {
        dec_u64(n as u64)
    }
}

fn fetch_error_exec(code: Option<i32>) -> (r: Vec<char>)
    ensures
        r@ == fetch_error_text(code),
{
    match code {
        Some(6) => lit("Could not resolve host (DNS failure)"),
        Some(7) => lit("Failed to connect to server"),
        Some(28) => lit("Request timed out"),
        Some(35) => lit("SSL/TLS handshake failed"),
        Some(n) => {
            let mut r = lit("curl error ");
            extend_chars(&mut r, &dec_i32(n));
            r
        },
        None => lit("Connection failed"),
    }
}

fn http_error_exec(status: u16) -> (r: Vec<char>)
    ensures
        r@ == http_error_text(status as int),
{
    if status == 404 {
        lit("Page not found (HTTP 404)")
    } else if status == 403 {
        lit("Access denied (HTTP 403)")
    } else if 500 <= status && status <= 599 {
        let mut r = lit("Server error (HTTP ");
        extend_chars(&mut r, &dec_u64(status as u64));
        extend_chars(&mut r, &lit(")"));
        r
    } else {
        let mut r = lit("HTTP error ");
        extend_chars(&mut r, &dec_u64(status as u64));
        r
    }
}

/// Turns what the page fetcher printed (as text), its exit code and whether
/// it exited successfully into the page text or an error message.
pub fn fetch_outcome(raw: &str, code: Option<i32>, success: bool) -> (r: Result<String, String>)
    ensures
        match r {
            Ok(b) => spec_fetch_outcome(raw@, code, success) == Ok::<Seq<char>, Seq<char>>(b@),
            Err(e) => spec_fetch_outcome(raw@, code, success) == Err::<Seq<char>, Seq<char>>(e@),
        },
{
    let v = chars_of(raw);
    if v.len() == 0 {
        return Err(string_of(&fetch_error_exec(code)));
    }
    let marker = lit("\x04RASHAMON_STATUS:");
    match last_occurrence_exec(&v, &marker) {
        Some(sep) => {
            let rest = slice_of(&v, sep + marker.len(), v.len());
            assert(rest@ =~= v@.skip(sep + marker@.len()));
            let status = status_or_zero_exec(&trim_exec(&rest));
            let body = slice_of(&v, 0, sep);
            assert(body@ =~= v@.take(sep as int));
            if status == 0 && trim_exec(&body).len() == 0 {
                return Err("Connection failed (no response)".to_string());
            }
            if status >= 400 {
                return Err(string_of(&http_error_exec(status)));
            }
            Ok(string_of(&body))
        },
        None => {
            if success {
                Ok(raw.to_string())
            } else {
                Err("Connection failed".to_string())
            }
        },
    }
}

// ── The status marker law ───────────────────────────────────────────────────

proof fn lemma_digit_char(d: nat)
    requires
        d < 10,
    ensures
        crate::text::digit_char(d) as int == d + 48,
{
}

proof fn lemma_dec_props(n: nat)
    ensures
        dec(n).len() >= 1,
        all_digits(dec(n)),
        dec_value(dec(n)) == n,
    decreases n,
{
    lemma_digit_char((n % 10) as nat);
    if n < 10 {
        assert(dec(n).drop_last() =~= Seq::<char>::empty());
        assert(dec(n).last() == crate::text::digit_char(n));
        assert(dec_value(dec(n)) == dec_value(Seq::<char>::empty()) * 10 + ((dec(n).last() as int)
            - 48) as nat);
    } else {
        lemma_dec_props(n / 10);
        let d = dec(n / 10);
        let s = d.push(crate::text::digit_char(n % 10));
        assert(s.drop_last() =~= d);
        assert(s.last() == crate::text::digit_char((n % 10) as nat));
        assert(dec_value(s) == dec_value(d) * 10 + ((s.last() as int) - 48) as nat);
        assert(n == (n / 10) * 10 + n % 10);
        assert forall|i: int| 0 <= i < s.len() implies is_ascii_digit(#[trigger] s[i]) by {
            if i < d.len() {
                assert(is_ascii_digit(d[i]));
            }
        }
    }
}

#[verifier::rlimit(40)]
proof fn lemma_last_marker(body: Seq<char>, tail: Seq<char>, j: int)
    requires
        all_digits(tail),
        body.len() < j <= body.len() + status_marker().len() + tail.len(),
    ensures
        last_occurrence(body + status_marker() + tail, status_marker(), j) == Some(
            body.len() as int,
        ),
    decreases j,
{
    reveal_strlit("\x04RASHAMON_STATUS:");
    let m = status_marker();
    let raw = body + m + tail;
    if j - 1 == body.len() {
        assert(raw.subrange(j - 1, j - 1 + m.len()) =~= m);
    } else {
        let k = j - 1;
        if k < body.len() + m.len() {
            assert(raw[k] == m[k - body.len()]);
        } else {
            assert(raw[k] == tail[k - body.len() - m.len()]);
            assert(is_ascii_digit(tail[k - body.len() - m.len()]));
        }
        if occurs_at(raw, m, k) {
            assert(raw.subrange(k, k + m.len())[0] == m[0]);
        }
        lemma_last_marker(body, tail, j - 1);
    }
}

/// When the fetcher prints a body followed by the status marker and a status
/// code, the code decides: an error status (400 and above) is reported with
/// its message, any other status gives the body, whatever the exit code.
pub proof fn law_status_after_marker(body: Seq<char>, code: nat, exit: Option<i32>, success: bool)
    requires
        0 < code <= 65535,
    ensures
        ({
            let raw = body + status_marker() + dec(code);
            &&& code >= 400 ==> spec_fetch_outcome(raw, exit, success) == Err::<Seq<char>, Seq<char>>(
                http_error_text(code as int),
            )
            &&& code < 400 ==> spec_fetch_outcome(raw, exit, success) == Ok::<Seq<char>, Seq<char>>(
                body,
            )
        }),
{
    reveal_strlit("\x04RASHAMON_STATUS:");
    let m = status_marker();
    let d = dec(code);
    let raw = body + m + d;
    lemma_dec_props(code);
    lemma_last_marker(body, d, raw.len() as int);
    assert(raw.skip((body.len() + m.len()) as int) =~= d);
    assert(raw.take(body.len() as int) =~= body);
    assert(is_ascii_digit(d[0]));
    assert(is_ascii_digit(d[d.len() - 1]));
    assert(crate::text::skip_while(d, crate::text::ws_pred(), 0) == 0);
    assert(d.skip(0) =~= d);
    assert(crate::text::back_while(d, crate::text::ws_pred(), d.len() as int) == d.len());
    assert(d.take(d.len() as int) =~= d);
    assert(trim(d) == d);
    assert(d[0] != '+');
}

} // verus!
