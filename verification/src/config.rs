//! Validation of the adapter's configuration: endpoints, credentials, safety settings, and the
//! rule that orders are only ever sent to a matched Binance environment.
use vstd::prelude::*;

use crate::id::valid_prefix;
use crate::ports::RunMode;
use crate::protocol::BinanceConfig;
use crate::safety::SafetyConfig;
use crate::text::{chars_of, is_ascii_digit, is_blank, str_equal, str_is_blank};

verus! {

// Text helpers.

/// An ASCII upper-case letter's code taken to lower case; any other code unchanged.
pub open spec fn ascii_lower(v: u32) -> u32 {
    if 65 <= v <= 90 {
        (v + 32) as u32
    } else {
        v
    }
}

/// `str::eq_ignore_ascii_case`.
pub open spec fn eq_ignore_ascii_case(a: Seq<char>, b: Seq<char>) -> bool {
    a.len() == b.len() && forall|i: int| 0 <= i < a.len() ==> ascii_lower(a[i] as u32) == ascii_lower(b[i] as u32)
}

pub fn chars_eq_ignore_ascii_case(a: &Vec<char>, b: &Vec<char>) -> (r: bool)
    ensures
        r == eq_ignore_ascii_case(a@, b@),
{
    if a.len() != b.len() {
        return false;
    }
    let mut i: usize = 0;
    while i < a.len()
        invariant
            i <= a.len(),
            a.len() == b.len(),
            forall|j: int| 0 <= j < i ==> ascii_lower(a@[j] as u32) == ascii_lower(b@[j] as u32),
        decreases a.len() - i,
    {
        let x = a[i] as u32;
        let y = b[i] as u32;
        let lx = if 65 <= x && x <= 90 {
            x + 32
        } else {
            x
        };
        let ly = if 65 <= y && y <= 90 {
            y + 32
        } else {
            y
        };
        if lx != ly {
            return false;
        }
        i = i + 1;
    }
    true
}

/// `pattern` occurs in `s` at position `i`.
pub open spec fn occurs_at(s: Seq<char>, pattern: Seq<char>, i: int) -> bool {
    0 <= i && i + pattern.len() <= s.len() && s.subrange(i, i + pattern.len()) == pattern
}

/// `str::contains` with a text pattern.
pub open spec fn has_substring(s: Seq<char>, pattern: Seq<char>) -> bool {
    exists|i: int| occurs_at(s, pattern, i)
}

pub fn contains_text(s: &Vec<char>, pattern: &Vec<char>) -> (r: bool)
    ensures
        r == has_substring(s@, pattern@),
{
    if pattern.len() > s.len() {
        assert forall|i: int| !occurs_at(s@, pattern@, i) by {}
        return false;
    }
    if pattern.len() == 0 {
        assert(s@.subrange(0, 0) =~= pattern@);
        assert(occurs_at(s@, pattern@, 0));
        return true;
    }
    let mut i: usize = 0;
    while i <= s.len() - pattern.len()
        invariant
            pattern.len() <= s.len(),
            pattern.len() > 0,
            i <= s.len() - pattern.len() + 1,
            forall|j: int| 0 <= j < i ==> !occurs_at(s@, pattern@, j),
        decreases s.len() - pattern.len() + 1 - i,
    {
        if matches_at(s, pattern, i) {
            return true;
        }
        i = i + 1;
    }
    assert forall|j: int| !occurs_at(s@, pattern@, j) by {
        if 0 <= j < i {
        }
    }
    false
}

fn matches_at(s: &Vec<char>, pattern: &Vec<char>, i: usize) -> (r: bool)
    requires
        i + pattern.len() <= s.len(),
    ensures
        r == occurs_at(s@, pattern@, i as int),
{
    let mut k: usize = 0;
    while k < pattern.len()
        invariant
            k <= pattern.len(),
            i + pattern.len() <= s.len(),
            forall|m: int| 0 <= m < k ==> s@[i + m] == pattern@[m],
        decreases pattern.len() - k,
    {
        if s[i + k] != pattern[k] {
            assert(s@.subrange(i as int, i + pattern.len())[k as int] != pattern@[k as int]);
            return false;
        }
        k = k + 1;
    }
    assert(s@.subrange(i as int, i + pattern.len()) =~= pattern@);
    true
}

/// `str::replace`: each occurrence of `from`, left to right and without overlap, becomes `to`.
pub open spec fn replaced(s: Seq<char>, from: Seq<char>, to: Seq<char>) -> Seq<char>
    decreases s.len(),
{
    if from.len() == 0 || s.len() < from.len() {
        s
    } else if s.take(from.len() as int) == from {
        to + replaced(s.skip(from.len() as int), from, to)
    } else {
        seq![s[0]] + replaced(s.skip(1), from, to)
    }
}

pub fn replace_text(s: &Vec<char>, from: &Vec<char>, to: &Vec<char>) -> (r: Vec<char>)
    requires
        from.len() > 0,
    ensures
        r@ == replaced(s@, from@, to@),
{
    let mut out: Vec<char> = Vec::new();
    let mut i: usize = 0;
    assert(s@.skip(0) =~= s@);
    while i < s.len()
        invariant
            i <= s.len(),
            from.len() > 0,
            out@ + replaced(s@.skip(i as int), from@, to@) == replaced(s@, from@, to@),
        decreases s.len() - i,
    {
        let ghost rest = s@.skip(i as int);
        if from.len() <= s.len() - i && matches_at(s, from, i) {
            assert(rest.take(from.len() as int) =~= s@.subrange(i as int, i + from.len()));
            assert(rest.skip(from.len() as int) =~= s@.skip(i + from.len()));
            let mut k: usize = 0;
            let ghost start = out@;
            while k < to.len()
                invariant
                    k <= to.len(),
                    out@ == start + to@.take(k as int),
                decreases to.len() - k,
            {
                out.push(to[k]);
                k = k + 1;
                assert(out@ =~= start + to@.take(k as int));
            }
            assert(to@.take(to.len() as int) =~= to@);
            assert(out@ + replaced(s@.skip(i + from.len()), from@, to@) =~= start + replaced(rest, from@, to@));
            i = i + from.len();
        } else {
            proof {
                if rest.len() >= from.len() {
                    assert(rest.take(from.len() as int) =~= s@.subrange(i as int, i + from.len()));
                }
            }
            assert(rest.skip(1) =~= s@.skip(i + 1));
            let ghost start = out@;
            out.push(s[i]);
            proof {
                if rest.len() < from.len() {
                    assert(rest =~= seq![s@[i as int]] + rest.skip(1));
                    assert(replaced(rest.skip(1), from@, to@) == rest.skip(1));
                }
            }
            assert(out@ + replaced(s@.skip(i + 1), from@, to@) =~= start + replaced(rest, from@, to@));
            i = i + 1;
        }
    }
    assert(s@.skip(i as int) =~= Seq::<char>::empty());
    assert(out@ + Seq::<char>::empty() =~= out@);
    out
}


// IPv4 address text, as `std`'s address parser reads it.

/// The value of a run of decimal digits.
pub open spec fn decimal_value(g: Seq<char>) -> nat
    decreases g.len(),
{
    if g.len() == 0 {
        0
    } else {
        decimal_value(g.drop_last()) * 10 + ((g.last() as u32) - 48) as nat
    }
}

/// A dotted-decimal group of an IPv4 address: one to three digits, no leading zero, at most
/// 255.
pub open spec fn valid_octet_text(g: Seq<char>) -> bool {
    &&& 1 <= g.len() <= 3
    &&& forall|i: int| 0 <= i < g.len() ==> is_ascii_digit(#[trigger] g[i])
    &&& (g.len() == 1 || g[0] != '0')
    &&& decimal_value(g) <= 255
}

/// The groups of `s` between dots, as `str::split('.')` yields them.
pub open spec fn dot_groups(s: Seq<char>) -> Seq<Seq<char>>
    decreases s.len(),
{
    if s.len() == 0 {
        seq![Seq::empty()]
    } else {
        let g = dot_groups(s.drop_last());
        if s.last() == '.' {
            g.push(Seq::empty())
        } else {
            g.update(g.len() - 1, g.last().push(s.last()))
        }
    }
}

proof fn lemma_dot_groups_nonempty(s: Seq<char>)
    ensures
        dot_groups(s).len() >= 1,
    decreases s.len(),
{
    if s.len() > 0 {
        lemma_dot_groups_nonempty(s.drop_last());
    }
}

/// The text of an address of the IPv4 loopback range 127.0.0.0/8.
pub open spec fn is_loopback_ipv4_text(s: Seq<char>) -> bool {
    let g = dot_groups(s);
    &&& g.len() == 4
    &&& forall|i: int| 0 <= i < 4 ==> valid_octet_text(#[trigger] g[i])
    &&& g[0] == seq!['1', '2', '7']
}

fn octet_ok(g: &Vec<char>) -> (r: bool)
    ensures
        r == valid_octet_text(g@),
{
    if g.len() == 0 || g.len() > 3 {
        return false;
    }
    if g.len() > 1 && g[0] == '0' {
        return false;
    }
    let mut v: u32 = 0;
    let mut k: usize = 0;
    while k < g.len()
        invariant
            1 <= g.len() <= 3,
            k <= g.len(),
            forall|i: int| 0 <= i < k ==> is_ascii_digit(#[trigger] g@[i]),
            v == decimal_value(g@.take(k as int)),
            v < 1000,
            k == 0 ==> v == 0,
            k == 1 ==> v < 10,
            k == 2 ==> v < 100,
        decreases g.len() - k,
    {
        let c = g[k];
        if !('0' <= c && c <= '9') {
            return false;
        }
        assert(g@.take(k + 1).drop_last() =~= g@.take(k as int));
        v = v * 10 + (c as u32 - 48);
        k = k + 1;
    }
    assert(g@.take(g.len() as int) =~= g@);
    v <= 255
}

pub fn chars_are_loopback_ipv4(s: &Vec<char>) -> (r: bool)
    ensures
        r == is_loopback_ipv4_text(s@),
{
    let mut done: Vec<Vec<char>> = Vec::new();
    let mut cur: Vec<char> = Vec::new();
    let mut i: usize = 0;
    assert(s@.take(0) =~= Seq::<char>::empty());
    while i < s.len()
        invariant
            i <= s.len(),
            done@.map_values(|v: Vec<char>| v@).push(cur@) == dot_groups(s@.take(i as int)),
        decreases s.len() - i,
    {
        let ghost before = dot_groups(s@.take(i as int));
        assert(s@.take(i + 1).drop_last() =~= s@.take(i as int));
        if s[i] == '.' {
            let finished = cur;
            done.push(finished);
            cur = Vec::new();
            assert(done@.map_values(|v: Vec<char>| v@).push(cur@) =~= before.push(Seq::empty()));
        } else {
            cur.push(s[i]);
            assert(done@.map_values(|v: Vec<char>| v@).push(cur@) =~= before.update(
                before.len() - 1,
                before.last().push(s@[i as int]),
            ));
        }
        i = i + 1;
    }
    assert(s@.take(s.len() as int) =~= s@);
    let ghost g = dot_groups(s@);
    if done.len() != 3 {
        return false;
    }
    assert(g[0] == done@[0]@ && g[1] == done@[1]@ && g[2] == done@[2]@ && g[3] == cur@);
    let first = octet_ok(&done[0]);
    let second = octet_ok(&done[1]);
    let third = octet_ok(&done[2]);
    let fourth = octet_ok(&cur);
    if !(first && second && third && fourth) {
        return false;
    }
    let head = &done[0];
    let is127 = head.len() == 3 && head[0] == '1' && head[1] == '2' && head[2] == '7';
    proof {
        if is127 {
            assert(head@ =~= seq!['1', '2', '7']);
        }
    }
    is127
}


// Parsed URLs.

/// The parts of a parsed URL that the endpoint rules read: `host` is the host text as the
/// parser writes it (an IPv6 address in brackets).
#[derive(Clone, Debug)]
pub struct UrlParts {
    pub scheme: String,
    pub host: Option<String>,
    pub username: String,
    pub has_password: bool,
    pub port: Option<u16>,
    pub path: String,
    pub has_query: bool,
    pub has_fragment: bool,
}

/// `UrlParts` with texts as character sequences.
pub struct UrlView {
    pub scheme: Seq<char>,
    pub host: Option<Seq<char>>,
    pub username: Seq<char>,
    pub has_password: bool,
    pub port: Option<u16>,
    pub path: Seq<char>,
    pub has_query: bool,
    pub has_fragment: bool,
}

impl View for UrlParts {
    type V = UrlView;

    open spec fn view(&self) -> UrlView {
        UrlView {
            scheme: self.scheme@,
            host: match self.host {
                Some(h) => Some(h@),
                None => None,
            },
            username: self.username@,
            has_password: self.has_password,
            port: self.port,
            path: self.path@,
            has_query: self.has_query,
            has_fragment: self.has_fragment,
        }
    }
}

/// What the URL parser makes of `raw`, if it accepts it.
pub uninterp spec fn parsed_url(raw: Seq<char>) -> Option<UrlView>;

/// The shape of a host text the URL parser writes: an IPv6 address in brackets, or a text
/// without ':' (domain and opaque hosts refuse it, IPv4 addresses are dotted decimals).
pub open spec fn host_text_shape(h: Seq<char>) -> bool {
    (h.len() > 0 && h[0] == '[') || !h.contains(':')
}

/// `reqwest::Url::parse`, the `url` crate's WHATWG URL parser, read into plain parts. What it
/// makes of a text is named `parsed_url`; the contract states besides only the shape of the host
/// text, which the `url` crate's host parser and host serialisation give.
#[verifier::external_body]
fn parse_url(raw: &str) -> (r: Option<UrlParts>)
    ensures
        match r {
            Some(p) => parsed_url(raw@) == Some(p@),
            None => parsed_url(raw@) is None,
        },
        r matches Some(p) ==> (p.host matches Some(h) ==> host_text_shape(h@)),
{
    match reqwest::Url::parse(raw) {
        Ok(url) => Some(UrlParts {
            scheme: url.scheme().to_string(),
            host: url.host_str().map(|h| h.to_string()),
            username: url.username().to_string(),
            has_password: url.password().is_some(),
            port: url.port(),
            path: url.path().to_string(),
            has_query: url.query().is_some(),
            has_fragment: url.fragment().is_some(),
        }),
        Err(_) => None,
    }
}

pub open spec fn localhost() -> Seq<char> {
    seq!['l', 'o', 'c', 'a', 'l', 'h', 'o', 's', 't']
}

/// A host that names the machine itself: `localhost` in any ASCII case, or an address of the
/// IPv4 loopback range. A bracketed IPv6 host text is no address to `std`'s parser.
pub open spec fn is_loopback_host(h: Seq<char>) -> bool {
    eq_ignore_ascii_case(h, localhost()) || is_loopback_ipv4_text(h)
}

pub open spec fn spec_is_loopback(u: UrlView) -> bool {
    u.host matches Some(h) && is_loopback_host(h)
}

/// A URL with a host whose scheme is the secure one, or the plain one on a loopback host.
pub open spec fn spec_valid_transport(u: Option<UrlView>, secure: Seq<char>, plain: Seq<char>) -> bool {
    match u {
        Some(u) => u.host is Some && (u.scheme == secure || (u.scheme == plain && spec_is_loopback(u))),
        None => false,
    }
}

/// A URL that is exactly `scheme://host` and `path`: no user, password, port, query or
/// fragment.
pub open spec fn spec_matches_endpoint(u: UrlView, scheme: Seq<char>, host: Seq<char>, path: Seq<char>) -> bool {
    &&& u.scheme == scheme
    &&& u.host == Some(host)
    &&& u.username.len() == 0
    &&& !u.has_password
    &&& u.port is None
    &&& u.path == path
    &&& !u.has_query
    &&& !u.has_fragment
}

pub open spec fn spec_matches_profile(
    api: UrlView,
    public_stream: UrlView,
    private_stream: UrlView,
    api_host: Seq<char>,
    stream_host: Seq<char>,
    public_path: Seq<char>,
    private_path: Seq<char>,
) -> bool {
    &&& spec_matches_endpoint(api, "https"@, api_host, "/"@)
    &&& spec_matches_endpoint(public_stream, "wss"@, stream_host, public_path)
    &&& spec_matches_endpoint(private_stream, "wss"@, stream_host, private_path)
}

/// The three endpoints form one of Binance's environments (production, demo, testnet), or,
/// where test endpoints are allowed, plain HTTP and WebSocket endpoints on loopback hosts.
pub open spec fn spec_matched_environment(
    api: Option<UrlView>,
    public_stream: Option<UrlView>,
    private_stream: Option<UrlView>,
    allow_test_endpoints: bool,
) -> bool {
    match (api, public_stream, private_stream) {
        (Some(a), Some(p), Some(q)) => {
            ||| (allow_test_endpoints && spec_is_loopback(a) && spec_is_loopback(p) && spec_is_loopback(q)
                && a.scheme == "http"@ && p.scheme == "ws"@ && q.scheme == "ws"@)
            ||| spec_matches_profile(a, p, q, "fapi.binance.com"@, "fstream.binance.com"@, "/public/stream"@, "/private/ws/configured-listen-key"@)
            ||| spec_matches_profile(a, p, q, "demo-fapi.binance.com"@, "demo-fstream.binance.com"@, "/ws"@, "/ws/configured-listen-key"@)
            ||| spec_matches_profile(a, p, q, "testnet.binancefuture.com"@, "stream.binancefuture.com"@, "/ws"@, "/ws/configured-listen-key"@)
        },
        _ => false,
    }
}

/// Whether the URL's host names the machine itself.
pub fn is_loopback(url: &UrlParts) -> (r: bool)
    requires
        url.host matches Some(h) ==> host_text_shape(h@),
    ensures
        r == spec_is_loopback(url@),
{
    match &url.host {
        None => false,
        Some(host) => {
            let h = chars_of(host.as_str());
            let name = chars_of("localhost");
            proof {
                reveal_strlit("localhost");
                assert(name@ =~= localhost());
            }
            chars_eq_ignore_ascii_case(&h, &name) || chars_are_loopback_ipv4(&h)
        },
    }
}

/// Whether the URL is exactly `scheme://host` with `path`.
pub fn matches_endpoint(url: &UrlParts, scheme: &str, host: &str, path: &str) -> (r: bool)
    ensures
        r == spec_matches_endpoint(url@, scheme@, host@, path@),
{
    let host_matches = match &url.host {
        Some(h) => str_equal(h.as_str(), host),
        None => false,
    };
    str_equal(url.scheme.as_str(), scheme) && host_matches && url.username.as_str().is_empty()
        && !url.has_password && url.port.is_none() && str_equal(url.path.as_str(), path)
        && !url.has_query && !url.has_fragment
}

pub fn matches_execution_profile(
    api: &UrlParts,
    public_stream: &UrlParts,
    private_stream: &UrlParts,
    api_host: &str,
    stream_host: &str,
    public_stream_path: &str,
    private_stream_path: &str,
) -> (r: bool)
    ensures
        r == spec_matches_profile(
            api@,
            public_stream@,
            private_stream@,
            api_host@,
            stream_host@,
            public_stream_path@,
            private_stream_path@,
        ),
{
    matches_endpoint(api, "https", api_host, "/") && matches_endpoint(public_stream, "wss", stream_host, public_stream_path)
        && matches_endpoint(private_stream, "wss", stream_host, private_stream_path)
}

/// Whether the parsed endpoints form a matched execution environment.
pub fn execution_environment_matches(
    api: &Option<UrlParts>,
    public_stream: &Option<UrlParts>,
    private_stream: &Option<UrlParts>,
    allow_test_endpoints: bool,
) -> (r: bool)
    requires
        api matches Some(u) ==> (u.host matches Some(h) ==> host_text_shape(h@)),
        public_stream matches Some(u) ==> (u.host matches Some(h) ==> host_text_shape(h@)),
        private_stream matches Some(u) ==> (u.host matches Some(h) ==> host_text_shape(h@)),
    ensures
        r == spec_matched_environment(
            match api { Some(u) => Some(u@), None => None },
            match public_stream { Some(u) => Some(u@), None => None },
            match private_stream { Some(u) => Some(u@), None => None },
            allow_test_endpoints,
        ),
{
    let (api, public_stream, private_stream) = match (api, public_stream, private_stream) {
        (Some(a), Some(p), Some(q)) => (a, p, q),
        _ => return false,
    };
    if allow_test_endpoints && is_loopback(api) && is_loopback(public_stream) && is_loopback(private_stream)
        && str_equal(api.scheme.as_str(), "http") && str_equal(public_stream.scheme.as_str(), "ws")
        && str_equal(private_stream.scheme.as_str(), "ws") {
        return true;
    }
    matches_execution_profile(
        api,
        public_stream,
        private_stream,
        "fapi.binance.com",
        "fstream.binance.com",
        "/public/stream",
        "/private/ws/configured-listen-key",
    ) || matches_execution_profile(
        api,
        public_stream,
        private_stream,
        "demo-fapi.binance.com",
        "demo-fstream.binance.com",
        "/ws",
        "/ws/configured-listen-key",
    ) || matches_execution_profile(
        api,
        public_stream,
        private_stream,
        "testnet.binancefuture.com",
        "stream.binancefuture.com",
        "/ws",
        "/ws/configured-listen-key",
    )
}

/// Whether the three endpoint texts parse and form a matched execution environment.
pub fn matched_execution_environment(api: &str, public_stream: &str, private_stream: &str, allow_test_endpoints: bool) -> (r: bool)
    ensures
        r == spec_matched_environment(
            parsed_url(api@),
            parsed_url(public_stream@),
            parsed_url(private_stream@),
            allow_test_endpoints,
        ),
{
    let a = parse_url(api);
    let p = parse_url(public_stream);
    let q = parse_url(private_stream);
    execution_environment_matches(&a, &p, &q, allow_test_endpoints)
}

/// Whether a parsed URL has a host and either the secure scheme or, on a loopback host, the
/// plain one.
pub fn transport_is_valid(url: &Option<UrlParts>, secure_scheme: &str, loopback_scheme: &str) -> (r: bool)
    requires
        url matches Some(u) ==> (u.host matches Some(h) ==> host_text_shape(h@)),
    ensures
        r == spec_valid_transport(
            match url { Some(u) => Some(u@), None => None },
            secure_scheme@,
            loopback_scheme@,
        ),
{
    match url {
        None => false,
        Some(u) => {
            if u.host.is_none() {
                return false;
            }
            if str_equal(u.scheme.as_str(), secure_scheme) {
                return true;
            }
            str_equal(u.scheme.as_str(), loopback_scheme) && is_loopback(u)
        },
    }
}

/// Whether `raw` parses to a URL with a host and either the secure scheme or, on a loopback
/// host, the plain one.
pub fn valid_transport(raw: &str, secure_scheme: &str, loopback_scheme: &str) -> (r: bool)
    ensures
        r == spec_valid_transport(parsed_url(raw@), secure_scheme@, loopback_scheme@),
{
    let url = parse_url(raw);
    transport_is_valid(&url, secure_scheme, loopback_scheme)
}


// The configuration rules.

/// Why a configuration is refused.
#[derive(Clone, Copy, Debug, Eq, PartialEq, Structural)]
pub enum ConfigError {
    InvalidToml,
    MissingPublicEndpoint,
    InsecureEndpoint,
    PartialCredentials,
    MissingCredentials,
    InvalidPrivateStream,
    InvalidRisk,
    InvalidOrderPrefix,
    InvalidSafety,
    UntrustedExecutionEndpoint,
}

/// The text shown for each configuration error.
pub open spec fn config_error_text(e: ConfigError) -> Seq<char> {
    match e {
        ConfigError::InvalidToml => "invalid TOML configuration"@,
        ConfigError::MissingPublicEndpoint => "public_stream_url and api_url are required"@,
        ConfigError::InsecureEndpoint => "remote Binance endpoints must use wss/https"@,
        ConfigError::PartialCredentials => "api_key and secret must be configured together"@,
        ConfigError::MissingCredentials => "execute mode requires API credentials"@,
        ConfigError::InvalidPrivateStream => "execute mode requires a secure private_stream_url with {listen_key}"@,
        ConfigError::InvalidRisk => "risk limits must be finite and positive"@,
        ConfigError::InvalidOrderPrefix => "order_prefix must contain 1-12 Binance-safe characters"@,
        ConfigError::InvalidSafety => "invalid live safety configuration"@,
        ConfigError::UntrustedExecutionEndpoint => "execute mode requires a matched Binance endpoint environment"@,
    }
}

impl ConfigError {
    /// The text shown for the error.
    pub fn message(&self) -> (r: &'static str)
        ensures
            r@ == config_error_text(*self),
    {
        match self {
            ConfigError::InvalidToml => "invalid TOML configuration",
            ConfigError::MissingPublicEndpoint => "public_stream_url and api_url are required",
            ConfigError::InsecureEndpoint => "remote Binance endpoints must use wss/https",
            ConfigError::PartialCredentials => "api_key and secret must be configured together",
            ConfigError::MissingCredentials => "execute mode requires API credentials",
            ConfigError::InvalidPrivateStream => "execute mode requires a secure private_stream_url with {listen_key}",
            ConfigError::InvalidRisk => "risk limits must be finite and positive",
            ConfigError::InvalidOrderPrefix => "order_prefix must contain 1-12 Binance-safe characters",
            ConfigError::InvalidSafety => "invalid live safety configuration",
            ConfigError::UntrustedExecutionEndpoint => "execute mode requires a matched Binance endpoint environment",
        }
    }
}

/// Whether `prefix` can prefix client order ids.
pub fn validate_order_prefix(prefix: &str) -> (r: Result<(), crate::id::ClientOrderIdError>)
    ensures
        r is Ok <==> valid_prefix(prefix@),
        r matches Err(e) ==> e == crate::id::ClientOrderIdError::InvalidPrefix,
{
    match crate::id::ClientOrderIdCodec::new(prefix) {
        Ok(_) => Ok(()),
        Err(e) => Err(e),
    }
}

pub open spec fn listen_key_placeholder() -> Seq<char> {
    "{listen_key}"@
}

/// The private stream URL with a listen key in place of its placeholder.
pub open spec fn private_stream_probe(private_stream_url: Seq<char>) -> Seq<char> {
    replaced(private_stream_url, listen_key_placeholder(), "configured-listen-key"@)
}

/// The verdict on a configuration, checks in order: the risk limits, the safety settings, the
/// order prefix, that public endpoints are given and use secure transports, that credentials
/// come in pairs; in execute mode, that credentials, a secure private stream template and a
/// matched endpoint environment are configured.
pub open spec fn config_verdict(
    exchange: BinanceConfig,
    safety: SafetyConfig,
    risk_is_valid: bool,
    mode: RunMode,
) -> Result<(), ConfigError> {
    let has_key = !is_blank(exchange.api_key@);
    let has_secret = !is_blank(exchange.secret@);
    let trading = mode == RunMode::Execute;
    let probe = private_stream_probe(exchange.private_stream_url@);
    if !risk_is_valid {
        Err(ConfigError::InvalidRisk)
    } else if !safety.spec_valid() {
        Err(ConfigError::InvalidSafety)
    } else if !valid_prefix(exchange.order_prefix@) {
        Err(ConfigError::InvalidOrderPrefix)
    } else if is_blank(exchange.public_stream_url@) || is_blank(exchange.api_url@) {
        Err(ConfigError::MissingPublicEndpoint)
    } else if !spec_valid_transport(parsed_url(exchange.public_stream_url@), "wss"@, "ws"@)
        || !spec_valid_transport(parsed_url(exchange.api_url@), "https"@, "http"@) {
        Err(ConfigError::InsecureEndpoint)
    } else if has_key != has_secret {
        Err(ConfigError::PartialCredentials)
    } else if trading && !has_key {
        Err(ConfigError::MissingCredentials)
    } else if trading && (!has_substring(exchange.private_stream_url@, listen_key_placeholder())
        || !spec_valid_transport(parsed_url(probe), "wss"@, "ws"@)) {
        Err(ConfigError::InvalidPrivateStream)
    } else if trading && !spec_matched_environment(
        parsed_url(exchange.api_url@),
        parsed_url(exchange.public_stream_url@),
        parsed_url(probe),
        exchange.allow_test_endpoints,
    ) {
        Err(ConfigError::UntrustedExecutionEndpoint)
    } else {
        Ok(())
    }
}

/// Validates the adapter's configuration for `mode`. The risk limits are floating point and
/// are checked by the caller, which passes the outcome as `risk_is_valid`.
pub fn validate_app_config(
    exchange: &BinanceConfig,
    safety: &SafetyConfig,
    risk_is_valid: bool,
    mode: RunMode,
) -> (r: Result<(), ConfigError>)
    ensures
        r == config_verdict(*exchange, *safety, risk_is_valid, mode),
{
    if !risk_is_valid {
        return Err(ConfigError::InvalidRisk);
    }
    if safety.validate().is_err() {
        return Err(ConfigError::InvalidSafety);
    }
    if validate_order_prefix(exchange.order_prefix.as_str()).is_err() {
        return Err(ConfigError::InvalidOrderPrefix);
    }
    if str_is_blank(exchange.public_stream_url.as_str()) || str_is_blank(exchange.api_url.as_str()) {
        return Err(ConfigError::MissingPublicEndpoint);
    }
    if !valid_transport(exchange.public_stream_url.as_str(), "wss", "ws") || !valid_transport(
        exchange.api_url.as_str(),
        "https",
        "http",
    ) {
        return Err(ConfigError::InsecureEndpoint);
    }
    let has_key = !str_is_blank(exchange.api_key.as_str());
    let has_secret = !str_is_blank(exchange.secret.as_str());
    if has_key != has_secret {
        return Err(ConfigError::PartialCredentials);
    }
    let trading = mode.allows_trading();
    if trading && !has_key {
        return Err(ConfigError::MissingCredentials);
    }
    if trading {
        let template = chars_of(exchange.private_stream_url.as_str());
        let placeholder = chars_of("{listen_key}");
        let listen_key = chars_of("configured-listen-key");
        proof {
            reveal_strlit("{listen_key}");
        }
        let probe_chars = replace_text(&template, &placeholder, &listen_key);
        let probe = crate::text::string_of(&probe_chars);
        if !contains_text(&template, &placeholder) || !valid_transport(probe.as_str(), "wss", "ws") {
            return Err(ConfigError::InvalidPrivateStream);
        }
        if !matched_execution_environment(
            exchange.api_url.as_str(),
            exchange.public_stream_url.as_str(),
            probe.as_str(),
            exchange.allow_test_endpoints,
        ) {
            return Err(ConfigError::UntrustedExecutionEndpoint);
        }
    }
    Ok(())
}


/// A configuration accepted for execution has valid risk and safety settings and order prefix,
/// both credentials, public endpoints on secure (or loopback) transports, a private stream
/// template with the listen-key placeholder, and endpoints that form a matched environment:
/// credentials only ever go to one of Binance's environments, or, by explicit choice, to the
/// local machine.
pub proof fn accepted_execution_configs_are_matched(exchange: BinanceConfig, safety: SafetyConfig, risk_is_valid: bool)
    requires
        config_verdict(exchange, safety, risk_is_valid, RunMode::Execute) is Ok,
    ensures
        risk_is_valid,
        safety.spec_valid(),
        valid_prefix(exchange.order_prefix@),
        !is_blank(exchange.api_key@) && !is_blank(exchange.secret@),
        spec_valid_transport(parsed_url(exchange.public_stream_url@), "wss"@, "ws"@),
        spec_valid_transport(parsed_url(exchange.api_url@), "https"@, "http"@),
        has_substring(exchange.private_stream_url@, listen_key_placeholder()),
        spec_matched_environment(
            parsed_url(exchange.api_url@),
            parsed_url(exchange.public_stream_url@),
            parsed_url(private_stream_probe(exchange.private_stream_url@)),
            exchange.allow_test_endpoints,
        ),
{
}

/// In every mode, an accepted configuration has both credentials or neither.
pub proof fn credentials_come_in_pairs(exchange: BinanceConfig, safety: SafetyConfig, risk_is_valid: bool, mode: RunMode)
    requires
        config_verdict(exchange, safety, risk_is_valid, mode) is Ok,
    ensures
        is_blank(exchange.api_key@) == is_blank(exchange.secret@),
{
}

/// Without the explicit opt-in, an execution environment must be one of Binance's, reached
/// over TLS on its canonical hosts and paths.
pub proof fn loopback_endpoints_need_the_opt_in(api: UrlView, public_stream: UrlView, private_stream: UrlView)
    requires
        spec_matched_environment(Some(api), Some(public_stream), Some(private_stream), false),
    ensures
        api.scheme == "https"@,
        public_stream.scheme == "wss"@,
        private_stream.scheme == "wss"@,
        api.port is None && public_stream.port is None && private_stream.port is None,
        !api.has_query && !public_stream.has_query && !private_stream.has_query,
{
}

} // verus!
