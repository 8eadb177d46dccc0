//! The HTTP `CONNECT` handshake with a forward proxy: when the response headers are complete,
//! and whether the proxy opened the tunnel.
use vstd::prelude::*;
use vstd::utf8::{decode_utf8, valid_utf8};
use vstd::string::StringSliceAdditionalSpecFns;

use crate::text::{char_is_unicode_whitespace, is_unicode_whitespace, push_all};

verus! {

/// The most header bytes a proxy may send before the response counts as too large.
pub const MAX_CONNECT_RESPONSE_SIZE: usize = 8192;

/// Why a proxy's `CONNECT` response does not open a tunnel.
#[derive(Clone, Debug, PartialEq, Eq)]
pub enum ConnectResponseError {
    NotUtf8,
    Empty,
    MissingStatusCode,
    /// The proxy answered with another status; the first response line is kept.
    Rejected { status: String },
}

impl ConnectResponseError {
    /// The error text that the proxy client reports.
    pub fn message(&self) -> (r: String)
        ensures
            (match self {
                ConnectResponseError::NotUtf8 => r@ == "proxy response is not UTF-8"@,
                ConnectResponseError::Empty => r@ == "proxy response is empty"@,
                ConnectResponseError::MissingStatusCode => r@
                    == "proxy response has no HTTP status code"@,
                ConnectResponseError::Rejected { status } => r@ == "proxy CONNECT failed: "@
                    + status@,
            }),
    {
        match self {
            ConnectResponseError::NotUtf8 => "proxy response is not UTF-8".to_owned(),
            ConnectResponseError::Empty => "proxy response is empty".to_owned(),
            ConnectResponseError::MissingStatusCode => "proxy response has no HTTP status code".to_owned(),
            ConnectResponseError::Rejected { status } => {
                let mut out = "proxy CONNECT failed: ".to_owned();
                let tail = crate::text::chars_of(status.as_str());
                push_all(&mut out, &tail);
                out
            },
        }
    }
}

/// `std::str::from_utf8`: the text the bytes encode, when they are valid UTF-8.
#[verifier::external_body]
pub(crate) fn utf8_text(bytes: &[u8]) -> (r: Option<&str>)
    ensures
        r is Some <==> valid_utf8(bytes@),
        r matches Some(s) ==> s.spec_bytes() == bytes@,
{
    std::str::from_utf8(bytes).ok()
}

/// The first index at or after `i` of a character that satisfies `ws == is_unicode_whitespace`.
pub open spec fn scan(s: Seq<char>, i: int, ws: bool) -> int
    decreases s.len() - i,
{
    if i >= s.len() || is_unicode_whitespace(s[i]) == ws {
        i
    } else {
        scan(s, i + 1, ws)
    }
}

/// The `n`-th word (from zero) of `s` from position `i` on, words being separated by white space
/// (`str::split_whitespace().nth(n)`).
pub open spec fn nth_word(s: Seq<char>, i: int, n: nat) -> Option<Seq<char>>
    decreases s.len() - i,
{
    let a = scan(s, i, false);
    if i < 0 || a >= s.len() {
        None
    } else {
        let b = scan(s, a, true);
        if n == 0 {
            Some(s.subrange(a, b))
        } else if b <= i || b > s.len() {
            None
        } else {
            nth_word(s, b, (n - 1) as nat)
        }
    }
}

/// The first line of a text (`str::lines().next()`): up to the first `\n`, without a `\r` just
/// before it; `None` for the empty text.
pub open spec fn first_line(s: Seq<char>) -> Option<Seq<char>> {
    if s.len() == 0 {
        None
    } else if exists|k: int| 0 <= k < s.len() && s[k] == '\n' {
        let k = choose|k: int| 0 <= k < s.len() && s[k] == '\n' && forall|j: int| 0 <= j < k ==> s[j] != '\n';
        if k > 0 && s[k - 1] == '\r' {
            Some(s.take(k - 1))
        } else {
            Some(s.take(k))
        }
    } else {
        Some(s)
    }
}

/// What a complete `CONNECT` response means.
pub enum ConnectVerdict {
    Open,
    NotUtf8,
    Empty,
    MissingStatusCode,
    /// Rejected, with the first response line.
    Rejected(Seq<char>),
}

/// The verdict on a complete `CONNECT` response: the tunnel is open exactly when the response
/// is UTF-8, has a first line, and the second word of that line is `200`.
pub open spec fn connect_verdict(bytes: Seq<u8>) -> ConnectVerdict {
    if !valid_utf8(bytes) {
        ConnectVerdict::NotUtf8
    } else {
        match first_line(decode_utf8(bytes)) {
            None => ConnectVerdict::Empty,
            Some(line) => match nth_word(line, 0, 1) {
                None => ConnectVerdict::MissingStatusCode,
                Some(code) => if code == seq!['2', '0', '0'] {
                    ConnectVerdict::Open
                } else {
                    ConnectVerdict::Rejected(line)
                },
            },
        }
    }
}

/// The verdict that a validation result reports.
pub open spec fn verdict_of(r: Result<(), ConnectResponseError>) -> ConnectVerdict {
    match r {
        Ok(()) => ConnectVerdict::Open,
        Err(ConnectResponseError::NotUtf8) => ConnectVerdict::NotUtf8,
        Err(ConnectResponseError::Empty) => ConnectVerdict::Empty,
        Err(ConnectResponseError::MissingStatusCode) => ConnectVerdict::MissingStatusCode,
        Err(ConnectResponseError::Rejected { status }) => ConnectVerdict::Rejected(status@),
    }
}

proof fn lemma_scan(s: Seq<char>, i: int, ws: bool)
    requires
        0 <= i <= s.len(),
    ensures
        i <= scan(s, i, ws) <= s.len(),
        scan(s, i, ws) < s.len() ==> is_unicode_whitespace(s[scan(s, i, ws)]) == ws,
    decreases s.len() - i,
{
    if i < s.len() && is_unicode_whitespace(s[i]) != ws {
        lemma_scan(s, i + 1, ws);
    }
}

fn scan_exec(s: &Vec<char>, i: usize, ws: bool) -> (r: usize)
    requires
        i <= s.len(),
    ensures
        r == scan(s@, i as int, ws),
        i <= r <= s.len(),
    decreases s.len() - i,
{
    if i >= s.len() || char_is_unicode_whitespace(s[i]) == ws {
        i
    } else {
        scan_exec(s, i + 1, ws)
    }
}

/// The second word of a line, if any.
fn second_word(line: &Vec<char>) -> (r: Option<(usize, usize)>)
    ensures
        match nth_word(line@, 0, 1) {
            None => r is None,
            Some(w) => r matches Some((a, b)) && a <= b <= line.len() && line@.subrange(
                a as int,
                b as int,
            ) == w,
        },
{
    let a0 = scan_exec(line, 0, false);
    if a0 >= line.len() {
        return None;
    }
    let b0 = scan_exec(line, a0, true);
    proof {
        lemma_scan(line@, 0, false);
        lemma_scan(line@, a0 as int, true);
        assert(!is_unicode_whitespace(line@[a0 as int]));
        assert(b0 > a0);
    }
    let a1 = scan_exec(line, b0, false);
    proof {
        reveal_with_fuel(nth_word, 2);
        lemma_scan(line@, b0 as int, false);
    }
    if a1 >= line.len() {
        return None;
    }
    let b1 = scan_exec(line, a1, true);
    Some((a1, b1))
}

/// Decides whether a complete `CONNECT` response opened the tunnel.
pub fn validate_connect_response(response: &[u8]) -> (r: Result<(), ConnectResponseError>)
    ensures
        verdict_of(r) == connect_verdict(response@),
{
    let text = match utf8_text(response) {
        Some(t) => t,
        None => return Err(ConnectResponseError::NotUtf8),
    };
    proof {
        vstd::utf8::encode_utf8_decode_utf8(text@);
    }
    let chars = crate::text::chars_of(text);
    assert(chars@ == decode_utf8(response@));
    if chars.len() == 0 {
        return Err(ConnectResponseError::Empty);
    }
    let mut k: usize = 0;
    while k < chars.len() && chars[k] != '\n'
        invariant
            k <= chars.len(),
            forall|j: int| 0 <= j < k ==> chars@[j] != '\n',
        decreases chars.len() - k,
    {
        k = k + 1;
    }
    let mut end = k;
    if k < chars.len() && k > 0 && chars[k - 1] == '\r' {
        end = k - 1;
    }
    let mut line: Vec<char> = Vec::new();
    let mut i: usize = 0;
    while i < end
        invariant
            end <= chars.len(),
            i <= end,
            line@ == chars@.take(i as int),
        decreases end - i,
    {
        line.push(chars[i]);
        i = i + 1;
        assert(line@ =~= chars@.take(i as int));
    }
    proof {
        let s = chars@;
        if k < chars.len() {
            assert(s[k as int] == '\n');
            let c = choose|c: int| 0 <= c < s.len() && s[c] == '\n' && forall|j: int| 0 <= j < c ==> s[j] != '\n';
            if c < k {
                assert(s[c] != '\n');
            } else if c > k {
                assert(s[k as int] != '\n');
            }
            assert(first_line(s) == Some(line@));
        } else {
            assert(!(exists|q: int| 0 <= q < s.len() && s[q] == '\n'));
            assert(s.take(k as int) =~= s);
            assert(first_line(s) == Some(line@));
        }
    }
    match second_word(&line) {
        None => Err(ConnectResponseError::MissingStatusCode),
        Some((a, b)) => {
            if b - a == 3 && line[a] == '2' && line[a + 1] == '0' && line[a + 2] == '0' {
                assert(line@.subrange(a as int, b as int) =~= seq!['2', '0', '0']);
                Ok(())
            } else {
                proof {
                    if line@.subrange(a as int, b as int) == seq!['2', '0', '0'] {
                        assert(line@.subrange(a as int, b as int).len() == 3);
                        assert(b - a == 3);
                        assert(line@.subrange(a as int, b as int)[0] == line@[a as int]);
                        assert(line@.subrange(a as int, b as int)[1] == line@[a + 1]);
                        assert(line@.subrange(a as int, b as int)[2] == line@[a + 2]);
                    }
                }
                Err(ConnectResponseError::Rejected { status: crate::text::string_of(&line) })
            }
        },
    }
}

/// How far a partial `CONNECT` response has come.
#[derive(Clone, Copy, Debug, PartialEq, Eq)]
pub enum HeaderProgress {
    /// The blank line that ends the headers has arrived.
    Complete,
    /// The headers are too large; the handshake is abandoned.
    TooLarge,
    /// Another byte must be read.
    NeedMore,
}

pub open spec fn ends_with_blank_line(bytes: Seq<u8>) -> bool {
    seq![13u8, 10u8, 13u8, 10u8].is_suffix_of(bytes)
}

/// Decides what the handshake does next with the bytes received so far.
pub fn connect_response_progress(response: &Vec<u8>, limit: usize) -> (r: HeaderProgress)
    ensures
        ends_with_blank_line(response@) ==> r == HeaderProgress::Complete,
        !ends_with_blank_line(response@) && response.len() >= limit ==> r == HeaderProgress::TooLarge,
        !ends_with_blank_line(response@) && response.len() < limit ==> r == HeaderProgress::NeedMore,
{
    let n = response.len();
    if n >= 4 && response[n - 4] == 13 && response[n - 3] == 10 && response[n - 2] == 13
        && response[n - 1] == 10 {
        assert(seq![13u8, 10u8, 13u8, 10u8] =~= response@.subrange(n - 4, n as int));
        return HeaderProgress::Complete;
    }
    proof {
        if ends_with_blank_line(response@) {
            let t = response@.subrange(n - 4, n as int);
            assert(t[0] == response@[n - 4]);
            assert(t[1] == response@[n - 3]);
            assert(t[2] == response@[n - 2]);
            assert(t[3] == response@[n - 1]);
        }
    }
    if n >= limit {
        HeaderProgress::TooLarge
    } else {
        HeaderProgress::NeedMore
    }
}

/// Whether a tunnel response starts with an HTTP/1.1 or HTTP/1.0 `200` status.
pub open spec fn tunnel_established(bytes: Seq<u8>) -> bool {
    let v11 = seq![72u8, 84u8, 84u8, 80u8, 47u8, 49u8, 46u8, 49u8, 32u8, 50u8, 48u8, 48u8];
    let v10 = seq![72u8, 84u8, 84u8, 80u8, 47u8, 49u8, 46u8, 48u8, 32u8, 50u8, 48u8, 48u8];
    v11.is_prefix_of(bytes) || v10.is_prefix_of(bytes)
}

/// Whether a websocket tunnel response starts with `HTTP/1.1 200` or `HTTP/1.0 200`.
pub fn is_tunnel_established(response: &Vec<u8>) -> (r: bool)
    ensures
        r == tunnel_established(response@),
{
    let ghost v11 = seq![72u8, 84u8, 84u8, 80u8, 47u8, 49u8, 46u8, 49u8, 32u8, 50u8, 48u8, 48u8];
    let ghost v10 = seq![72u8, 84u8, 84u8, 80u8, 47u8, 49u8, 46u8, 48u8, 32u8, 50u8, 48u8, 48u8];
    if response.len() < 12 {
        return false;
    }
    let head = response[0] == 72 && response[1] == 84 && response[2] == 84 && response[3] == 80
        && response[4] == 47 && response[5] == 49 && response[6] == 46;
    let tail = response[8] == 32 && response[9] == 50 && response[10] == 48 && response[11] == 48;
    let minor = response[7];
    let r = head && tail && (minor == 49 || minor == 48);
    proof {
        let t = response@.subrange(0, 12);
        if r {
            if minor == 49 {
                assert(v11 =~= t);
            } else {
                assert(v10 =~= t);
            }
        } else {
            if v11.is_prefix_of(response@) || v10.is_prefix_of(response@) {
                assert(t[0] == response@[0]);
                assert(t[1] == response@[1]);
                assert(t[2] == response@[2]);
                assert(t[3] == response@[3]);
                assert(t[4] == response@[4]);
                assert(t[5] == response@[5]);
                assert(t[6] == response@[6]);
                assert(t[7] == response@[7]);
                assert(t[8] == response@[8]);
                assert(t[9] == response@[9]);
                assert(t[10] == response@[10]);
                assert(t[11] == response@[11]);
            }
        }
    }
    r
}


fn push_text(out: &mut String, s: &str)
    ensures
        final(out)@ == old(out)@ + s@,
{
    let v = crate::text::chars_of(s);
    push_all(out, &v);
}

/// The `CONNECT` request that asks a proxy for a tunnel to `target` (`host:port`).
pub open spec fn connect_request_text(target: Seq<char>) -> Seq<char> {
    "CONNECT "@ + target + " HTTP/1.1\r\nHost: "@ + target + "\r\n\r\n"@
}

/// The `CONNECT` request of the collector.
pub fn connect_request(target: &str) -> (r: String)
    ensures
        r@ == connect_request_text(target@),
{
    let mut out = String::new();
    push_text(&mut out, "CONNECT ");
    push_text(&mut out, target);
    push_text(&mut out, " HTTP/1.1\r\nHost: ");
    push_text(&mut out, target);
    push_text(&mut out, "\r\n\r\n");
    assert(out@ =~= connect_request_text(target@));
    out
}

/// The authority of a tunnel: the host, a colon and the port in decimal.
pub fn tunnel_authority(host: &str, port: u16) -> (r: String)
    ensures
        r@ == host@ + seq![':'] + crate::binance::decimal_digits(port as nat),
{
    let mut out = String::new();
    push_text(&mut out, host);
    out.push(':');
    crate::binance::push_decimal_digits(&mut out, port as u64);
    out
}

/// The `CONNECT` request of the WebSocket transport, which asks the proxy to keep the
/// connection alive.
pub open spec fn tunnel_request_text(authority: Seq<char>) -> Seq<char> {
    "CONNECT "@ + authority + " HTTP/1.1\r\nHost: "@ + authority + "\r\nProxy-Connection: Keep-Alive\r\n\r\n"@
}

pub fn tunnel_request(authority: &str) -> (r: String)
    ensures
        r@ == tunnel_request_text(authority@),
{
    let mut out = String::new();
    push_text(&mut out, "CONNECT ");
    push_text(&mut out, authority);
    push_text(&mut out, " HTTP/1.1\r\nHost: ");
    push_text(&mut out, authority);
    push_text(&mut out, "\r\nProxy-Connection: Keep-Alive\r\n\r\n");
    assert(out@ =~= tunnel_request_text(authority@));
    out
}

/// The port a WebSocket URL without an explicit one is reached on through a tunnel.
pub fn tunnel_target_port(port: Option<u16>) -> (r: u16)
    ensures
        r == (match port {
            Some(p) => p,
            None => 443u16,
        }),
{
    match port {
        Some(p) => p,
        None => 443,
    }
}

} // verus!
