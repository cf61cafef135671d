//! Where captures go: the collector endpoint (a loopback collector that
//! keeps captures in the local spool, or an HTTPS collector that receives
//! them), its access token, and the retry schedule of remote delivery.
use vstd::prelude::*;

use crate::text::{
    ascii_lower, ascii_lower_seq, chars_eq, chars_of, eq_str, find_from, first_occurrence,
    is_control, is_control_spec, push_all, push_str, string_from_chars, sub_vec,
};
use crate::trust::{hex_lower, hex_lower_spec, sha256_of_utf8, sha256_text};

verus! {

/// Where captures are delivered.
#[derive(Clone, Copy, Debug, PartialEq, Eq, Structural)]
pub enum CollectorMode {
    Local,
    Remote,
}

/// Failures of collector configuration and delivery. Payloads from other
/// components are carried as their messages.
#[derive(Clone, Debug, PartialEq, Eq)]
pub enum CollectorError {
    InvalidEndpoint(String),
    InsecureRemoteEndpoint,
    RemoteTokenRequired,
    InvalidToken,
    InvalidConfig,
    InvalidRemoteCapture,
    Unauthorized,
    CaptureConflict,
    StatePoisoned,
    Clock,
    MissingParent,
    Io(String),
    Json(String),
    Http(String),
    Spool(crate::spool::SpoolError),
    Envelope(String),
}

/// The collector protocol version.
pub const COLLECTOR_PROTOCOL_VERSION: u8 = 1;

/// The loopback port of the local collector.
pub const DEFAULT_LOCAL_COLLECTOR_PORT: u16 = 42130;

/// How long a remote result may wait for delivery.
pub const REMOTE_RESULT_RETENTION_US: i64 = 86_400_000_000;

// ---------------------------------------------------------------------------
// URL facts (url crate)
// ---------------------------------------------------------------------------
/// What this library reads of a URL the `url` crate parsed.
#[derive(Clone, Debug, PartialEq, Eq)]
pub struct UrlParts {
    pub scheme: String,
    pub username: String,
    pub has_password: bool,
    pub cannot_be_a_base: bool,
    pub has_host: bool,
    pub path: String,
    pub has_query: bool,
    pub has_fragment: bool,
    pub port: Option<u16>,
    /// The ASCII serialisation of the URL's origin.
    pub origin: String,
}

/// The value of parsed URL facts.
pub struct UrlPartsView {
    pub scheme: Seq<char>,
    pub username: Seq<char>,
    pub has_password: bool,
    pub cannot_be_a_base: bool,
    pub has_host: bool,
    pub path: Seq<char>,
    pub has_query: bool,
    pub has_fragment: bool,
    pub port: Option<u16>,
    pub origin: Seq<char>,
}

pub open spec fn url_parts_view(p: UrlParts) -> UrlPartsView {
    UrlPartsView {
        scheme: p.scheme@,
        username: p.username@,
        has_password: p.has_password,
        cannot_be_a_base: p.cannot_be_a_base,
        has_host: p.has_host,
        path: p.path@,
        has_query: p.has_query,
        has_fragment: p.has_fragment,
        port: p.port,
        origin: p.origin@,
    }
}

#[verifier::external_type_specification]
#[verifier::external_body]
pub struct ExUrl(url::Url);

/// What `url::Url::parse` makes of a text: the URL, or the parse error's
/// message.
pub uninterp spec fn url_parsed(input: Seq<char>) -> Result<url::Url, Seq<char>>;

/// What the `url` accessors read of a URL.
pub uninterp spec fn url_facts(u: url::Url) -> UrlPartsView;

/// The facts of the URL a text parses as, or the parse error's message.
pub open spec fn parsed_url(input: Seq<char>) -> Result<UrlPartsView, Seq<char>> {
    match url_parsed(input) {
        Ok(u) => Ok(url_facts(u)),
        Err(m) => Err(m),
    }
}

/// Parses a URL with `url::Url::parse`. The contract names the result as a
/// function of the input only; the WHATWG parsing rules themselves are not
/// restated.
#[verifier::external_body]
fn parse_url(input: &str) -> (r: Result<url::Url, String>)
    ensures
        match url_parsed(input@) {
            Ok(u) => r == Ok::<url::Url, String>(u),
            Err(m) => r matches Err(e) && e@ == m,
        },
{
    url::Url::parse(input).map_err(|e| e.to_string())
}

/// Reads a parsed URL's scheme, userinfo, base-ness, host presence, path,
/// query, fragment, explicit port and origin serialisation with the `url`
/// accessors.
#[verifier::external_body]
fn url_parts(u: &url::Url) -> (r: UrlParts)
    ensures
        url_parts_view(r) == url_facts(*u),
{
    UrlParts {
        scheme: u.scheme().to_owned(),
        username: u.username().to_owned(),
        has_password: u.password().is_some(),
        cannot_be_a_base: u.cannot_be_a_base(),
        has_host: u.host().is_some(),
        path: u.path().to_owned(),
        has_query: u.query().is_some(),
        has_fragment: u.fragment().is_some(),
        port: u.port(),
        origin: u.origin().ascii_serialization(),
    }
}

// ---------------------------------------------------------------------------
// The raw host of an address
// ---------------------------------------------------------------------------
/// The index of the last `c` in `s`.
pub open spec fn last_index(s: Seq<char>, c: char) -> Option<int>
    decreases s.len(),
{
    if s.len() == 0 {
        None
    } else if s.last() == c {
        Some(s.len() - 1)
    } else {
        last_index(s.drop_last(), c)
    }
}

pub open spec fn all_ascii_digits(s: Seq<char>) -> bool {
    forall|i: int| 0 <= i < s.len() ==> '0' <= #[trigger] s[i] && s[i] <= '9'
}

/// The host written in an address, as typed: after `://`, before any path,
/// query or fragment; without brackets for an IPv6 literal; without a
/// numeric port. None when there is no `://`, the authority holds `@`, or a
/// bracket is not closed.
pub open spec fn raw_host_spec(input: Seq<char>) -> Option<Seq<char>> {
    match first_occurrence(input, "://"@) {
        None => None,
        Some(i) => {
            let rest = input.skip(i + 3);
            let authority = rest.take(first_separator(rest));
            if authority.contains('@') {
                None
            } else if authority.len() > 0 && authority[0] == '[' {
                let bracketed = authority.drop_first();
                match first_occurrence(bracketed, seq![']']) {
                    Some(k) => Some(bracketed.take(k)),
                    None => None,
                }
            } else {
                match last_index(authority, ':') {
                    Some(k) => if k > 0 && all_ascii_digits(authority.skip(k + 1)) {
                        Some(authority.take(k))
                    } else {
                        Some(authority)
                    },
                    None => Some(authority),
                }
            }
        },
    }
}

/// The index of the first `/`, `?` or `#` (the length when there is none).
pub open spec fn first_separator(s: Seq<char>) -> int
    decreases s.len(),
{
    if s.len() == 0 {
        0
    } else if s[0] == '/' || s[0] == '?' || s[0] == '#' {
        0
    } else {
        1 + first_separator(s.drop_first())
    }
}

fn first_separator_exec(s: &[char]) -> (r: usize)
    ensures
        r == first_separator(s@),
        r <= s@.len(),
{
    let mut i: usize = 0;
    assert(s@.skip(0) =~= s@);
    while i < s.len() && !(s[i] == '/' || s[i] == '?' || s[i] == '#')
        invariant
            i <= s@.len(),
            first_separator(s@) == i + first_separator(s@.skip(i as int)),
        decreases s.len() - i,
    {
        assert(s@.skip(i as int)[0] == s@[i as int]);
        assert(s@.skip(i as int).drop_first() =~= s@.skip(i + 1));
        i = i + 1;
    }
    if i < s.len() {
        assert(s@.skip(i as int)[0] == s@[i as int]);
    } else {
        assert(s@.skip(i as int).len() == 0);
    }
    i
}

pub(crate) fn last_index_exec(s: &[char], c: char) -> (r: Option<usize>)
    ensures
        r matches Some(k) ==> last_index(s@, c) == Some(k as int),
        r is None ==> last_index(s@, c) is None,
{
    let mut k = s.len();
    assert(s@.take(k as int) =~= s@);
    while k > 0
        invariant
            k <= s@.len(),
            last_index(s@, c) == last_index(s@.take(k as int), c),
        decreases k,
    {
        assert(s@.take(k as int).last() == s@[k - 1]);
        if s[k - 1] == c {
            return Some(k - 1);
        }
        assert(s@.take(k as int).drop_last() =~= s@.take(k - 1));
        k = k - 1;
    }
    None
}

fn all_digits_exec(s: &[char]) -> (r: bool)
    ensures
        r == all_ascii_digits(s@),
{
    let mut i: usize = 0;
    while i < s.len()
        invariant
            i <= s@.len(),
            forall|j: int| 0 <= j < i ==> '0' <= #[trigger] s@[j] && s@[j] <= '9',
        decreases s.len() - i,
    {
        if !('0' <= s[i] && s[i] <= '9') {
            return false;
        }
        i = i + 1;
    }
    true
}

/// The host written in an address (see `raw_host_spec`).
pub fn raw_authority_host(input: &str) -> (r: Option<String>)
    ensures
        r matches Some(h) ==> raw_host_spec(input@) == Some(h@),
        r is None ==> raw_host_spec(input@) is None,
{
    let s = chars_of(input);
    let sep = chars_of("://");
    proof {
        reveal_strlit("://");
    }
    let i = match find_from(s.as_slice(), sep.as_slice(), 0) {
        Some(i) => i,
        None => return None,
    };
    proof {
        crate::text::lemma_first_occurrence_from(s@, sep@, 0);
    }
    let s_len = s.len();
    assert(i + 3 <= s_len);
    let rest = sub_vec(s.as_slice(), i + 3, s_len);
    assert(rest@ =~= input@.skip(i + 3));
    let end = first_separator_exec(rest.as_slice());
    let authority = sub_vec(rest.as_slice(), 0, end);
    assert(authority@ =~= rest@.take(end as int));
    if crate::text::contains_char(authority.as_slice(), '@') {
        return None;
    }
    if authority.len() > 0 && authority[0] == '[' {
        let bracketed = sub_vec(authority.as_slice(), 1, authority.len());
        assert(bracketed@ =~= authority@.drop_first());
        let close: Vec<char> = vec![']'];
        assert(close@ =~= seq![']']);
        return match find_from(bracketed.as_slice(), close.as_slice(), 0) {
            Some(k) => {
                proof {
                    crate::text::lemma_first_occurrence_from(bracketed@, close@, 0);
                }
                let host = sub_vec(bracketed.as_slice(), 0, k);
                assert(host@ =~= bracketed@.take(k as int));
                Some(string_from_chars(host.as_slice()))
            },
            None => None,
        };
    }
    match last_index_exec(authority.as_slice(), ':') {
        Some(k) => {
            proof {
                lemma_last_index_bound(authority@, ':');
            }
            let port = sub_vec(authority.as_slice(), k + 1, authority.len());
            assert(port@ =~= authority@.skip(k + 1));
            if k > 0 && all_digits_exec(port.as_slice()) {
                let host = sub_vec(authority.as_slice(), 0, k);
                assert(host@ =~= authority@.take(k as int));
                Some(string_from_chars(host.as_slice()))
            } else {
                Some(string_from_chars(authority.as_slice()))
            }
        },
        None => Some(string_from_chars(authority.as_slice())),
    }
}

pub(crate) proof fn lemma_last_index_bound(s: Seq<char>, c: char)
    ensures
        last_index(s, c) matches Some(k) ==> 0 <= k < s.len() && s[k] == c,
    decreases s.len(),
{
    if s.len() > 0 && s.last() != c {
        lemma_last_index_bound(s.drop_last(), c);
    }
}

// ---------------------------------------------------------------------------
// The endpoint
// ---------------------------------------------------------------------------
/// A validated collector address: its canonical origin and where it routes.
#[derive(Clone, Debug, PartialEq, Eq)]
pub struct CollectorEndpoint {
    canonical: String,
    mode: CollectorMode,
}

impl View for CollectorEndpoint {
    type V = (Seq<char>, CollectorMode);

    closed spec fn view(&self) -> (Seq<char>, CollectorMode) {
        (self.canonical@, self.mode)
    }
}

/// Why an address is refused: `Some(reason)` for an invalid address, `None`
/// for a remote address without HTTPS.
pub type EndpointRefusal = Option<Seq<char>>;

#[verifier::external_type_specification]
#[verifier::external_body]
pub struct ExIpAddr(core::net::IpAddr);

/// An IP address as plain values: the four octets of an IPv4 address, or the
/// eight segments of an IPv6 address.
pub enum IpView {
    V4(Seq<u8>),
    V6(Seq<u16>),
}

/// The octets or segments of an IP address.
pub uninterp spec fn ip_view(a: core::net::IpAddr) -> IpView;

/// What `IpAddr::from_str` makes of a raw host text.
pub uninterp spec fn parsed_ip(host: Seq<char>) -> Option<core::net::IpAddr>;

/// The numeric value of a run of decimal digits.
pub open spec fn digits_value(p: Seq<char>) -> int
    decreases p.len(),
{
    if p.len() == 0 {
        0
    } else {
        digits_value(p.drop_last()) * 10 + (p.last() as int - '0' as int)
    }
}

/// A decimal octet written without leading zeros: 0 to 255.
pub open spec fn decimal_octet(p: Seq<char>) -> bool {
    &&& 1 <= p.len() <= 3
    &&& forall|i: int| 0 <= i < p.len() ==> '0' <= #[trigger] p[i] <= '9'
    &&& (p.len() == 1 || p[0] != '0')
    &&& digits_value(p) <= 255
}

/// A dotted-decimal IPv4 literal with these four octets.
pub open spec fn dotted_quad(h: Seq<char>, octets: Seq<u8>) -> bool {
    exists|a: Seq<char>, b: Seq<char>, c: Seq<char>, d: Seq<char>|
        decimal_octet(a) && decimal_octet(b) && decimal_octet(c) && decimal_octet(d) && h == a + "."@
            + b + "."@ + c + "."@ + d && octets == seq![
            digits_value(a) as u8,
            digits_value(b) as u8,
            digits_value(c) as u8,
            digits_value(d) as u8,
        ]
}

/// The IPv6 loopback address `::1`, segment by segment.
pub open spec fn ipv6_loopback_segments() -> Seq<u16> {
    seq![0u16, 0u16, 0u16, 0u16, 0u16, 0u16, 0u16, 1u16]
}

/// A character that can occur in an IPv4 or IPv6 address literal.
pub open spec fn ip_literal_char(c: char) -> bool {
    ('0' <= c <= '9') || ('a' <= c <= 'f') || ('A' <= c <= 'F') || c == ':' || c == '.'
}

/// Parses a raw host as an IP address (`IpAddr::from_str`). The result is
/// named as a function of the host; besides, the contract states what std
/// documents: a dotted-decimal IPv4 literal gives those four octets, `::1`
/// the IPv6 loopback address, and an address literal holds only
/// hexadecimal digits, `:` and `.`. The full address grammar is not
/// restated.
#[verifier::external_body]
fn parse_ip(host: &str) -> (r: Option<core::net::IpAddr>)
    ensures
        r == parsed_ip(host@),
        forall|o: Seq<u8>| dotted_quad(host@, o) ==> r is Some && ip_view(r->0) == IpView::V4(o),
        host@ == "::1"@ ==> r is Some && ip_view(r->0) == IpView::V6(ipv6_loopback_segments()),
        r is Some ==> forall|i: int| 0 <= i < host@.len() ==> ip_literal_char(#[trigger] host@[i]),
{
    host.parse::<core::net::IpAddr>().ok()
}

/// Whether an IP address view is a loopback address: an IPv4 address in
/// 127.0.0.0/8, or the IPv6 address `::1`.
pub open spec fn loopback_view(v: IpView) -> bool {
    match v {
        IpView::V4(o) => o.len() == 4 && o[0] == 127,
        IpView::V6(s) => s == ipv6_loopback_segments(),
    }
}

/// `IpAddr::is_loopback`, as std documents it: 127.0.0.0/8 for IPv4, `::1`
/// for IPv6.
#[verifier::external_body]
fn ip_is_loopback(a: &core::net::IpAddr) -> (r: bool)
    ensures
        r == loopback_view(ip_view(*a)),
{
    a.is_loopback()
}

/// Whether a raw host parses as a loopback IP address.
pub open spec fn loopback_ip(host: Seq<char>) -> bool {
    match parsed_ip(host) {
        Some(a) => loopback_view(ip_view(a)),
        None => false,
    }
}

/// Whether a raw host is a loopback IP address, deciding it with std.
fn raw_host_is_loopback_ip(host: &str) -> (r: bool)
    ensures
        r == loopback_ip(host@),
        forall|o: Seq<u8>| dotted_quad(host@, o) ==> (r <==> o[0] == 127),
        host@ == "::1"@ ==> r,
        r ==> forall|i: int| 0 <= i < host@.len() ==> ip_literal_char(#[trigger] host@[i]),
{
    match parse_ip(host) {
        Some(a) => ip_is_loopback(&a),
        None => false,
    }
}

/// The routing of an address host: loopback (`localhost` in any ASCII case,
/// or a loopback IP address) is local; anything else is remote.
pub open spec fn host_mode(host: Seq<char>) -> CollectorMode {
    if ascii_lower_seq(host) == "localhost"@ || loopback_ip(host) {
        CollectorMode::Local
    } else {
        CollectorMode::Remote
    }
}

/// The endpoint an address gives.
pub open spec fn endpoint_spec(input: Seq<char>) -> Result<
    (Seq<char>, CollectorMode),
    EndpointRefusal,
> {
    if input.len() == 0 || vstd::utf8::encode_utf8(input).len() > 2048 || exists|i: int|
        0 <= i < input.len() && is_control_spec(#[trigger] input[i]) {
        Err(Some("address must be non-empty and bounded"@))
    } else {
        match parsed_url(input) {
            Err(e) => Err(Some("address is not a valid URL: "@ + e)),
            Ok(u) => if !(u.scheme == "http"@ || u.scheme == "https"@) {
                Err(Some("only http and https schemes are supported"@))
            } else if u.username.len() > 0 || u.has_password {
                Err(Some("userinfo is not allowed"@))
            } else if u.cannot_be_a_base || !u.has_host || u.path != "/"@ || u.has_query
                || u.has_fragment {
                Err(Some("address must contain only scheme, host, and optional port"@))
            } else if u.port == Some(0u16) {
                Err(Some("port zero is not a connectable destination"@))
            } else {
                match raw_host_spec(input) {
                    None => Err(Some("address has an invalid authority"@)),
                    Some(h) => {
                        let n = ascii_lower_seq(h);
                        if n == "localhost."@ || all_ascii_digits(n) {
                            Err(Some("address host is ambiguous"@))
                        } else {
                            let mode = host_mode(h);
                            if mode == CollectorMode::Local && u.scheme != "http"@ {
                                Err(Some("loopback collectors use http"@))
                            } else if mode == CollectorMode::Remote && u.scheme != "https"@ {
                                Err(None)
                            } else {
                                match parsed_url(u.origin) {
                                    Err(e) => Err(Some("address could not be normalized: "@ + e)),
                                    Ok(_) => Ok((u.origin, mode)),
                                }
                            }
                        }
                    },
                }
            },
        }
    }
}

pub open spec fn refusal_matches(r: Result<CollectorEndpoint, CollectorError>, refusal: EndpointRefusal) -> bool {
    match refusal {
        Some(m) => r matches Err(CollectorError::InvalidEndpoint(x)) && x@ == m,
        None => r matches Err(CollectorError::InsecureRemoteEndpoint),
    }
}

fn invalid_endpoint(reason: &str) -> (r: CollectorError)
    ensures
        r matches CollectorError::InvalidEndpoint(x) && x@ == reason@,
{
    CollectorError::InvalidEndpoint(reason.to_owned())
}

fn invalid_endpoint_with(reason: &str, detail: &str) -> (r: CollectorError)
    ensures
        r matches CollectorError::InvalidEndpoint(x) && x@ == reason@ + detail@,
{
    let mut out: Vec<char> = Vec::new();
    push_str(&mut out, reason);
    push_str(&mut out, detail);
    CollectorError::InvalidEndpoint(string_from_chars(out.as_slice()))
}

impl CollectorEndpoint {
    /// Validates a collector address (see `endpoint_spec`).
    pub fn parse(input: &str) -> (r: Result<Self, CollectorError>)
        ensures
            match endpoint_spec(input@) {
                Ok(v) => r matches Ok(e) && e@ == v,
                Err(refusal) => refusal_matches(r, refusal),
            },
            r matches Ok(e) ==> (raw_host_spec(input@) matches Some(h) && (ascii_lower_seq(h)
                == "localhost"@ || (exists|o: Seq<u8>| dotted_quad(h, o) && o[0] == 127) || h == "::1"@)
                ==> e@.1 == CollectorMode::Local),
            r matches Ok(e) ==> (raw_host_spec(input@) matches Some(h) && ascii_lower_seq(h)
                != "localhost"@ && (exists|o: Seq<u8>| dotted_quad(h, o) && o[0] != 127)
                ==> e@.1 == CollectorMode::Remote),
            r matches Ok(e) ==> (raw_host_spec(input@) matches Some(h) && ascii_lower_seq(h)
                != "localhost"@ && (exists|i: int| 0 <= i < h.len() && !ip_literal_char(h[i]))
                ==> e@.1 == CollectorMode::Remote),
    {
        let c = chars_of(input);
        let mut has_control = false;
        let mut i: usize = 0;
        while i < c.len()
            invariant
                i <= c@.len(),
                c@ == input@,
                has_control == exists|j: int| 0 <= j < i && is_control_spec(#[trigger] input@[j]),
            decreases c.len() - i,
        {
            if is_control(c[i]) {
                has_control = true;
            }
            i = i + 1;
        }
        let byte_len = input.as_bytes().len();
        if c.len() == 0 || byte_len > 2048 || has_control {
            return Err(invalid_endpoint("address must be non-empty and bounded"));
        }
        let url = match parse_url(input) {
            Ok(u) => url_parts(&u),
            Err(e) => {
                return Err(invalid_endpoint_with("address is not a valid URL: ", e.as_str()));
            },
        };
        proof {
            reveal_strlit("http");
            reveal_strlit("https");
            reveal_strlit("/");
            reveal_strlit("localhost");
            reveal_strlit("localhost.");
        }
        let scheme = chars_of(url.scheme.as_str());
        let is_http = eq_str(scheme.as_slice(), "http");
        let is_https = eq_str(scheme.as_slice(), "https");
        if !(is_http || is_https) {
            return Err(invalid_endpoint("only http and https schemes are supported"));
        }
        if !url.username.as_str().is_empty() || url.has_password {
            return Err(invalid_endpoint("userinfo is not allowed"));
        }
        let path_is_root = eq_str(chars_of(url.path.as_str()).as_slice(), "/");
        if url.cannot_be_a_base || !url.has_host || !path_is_root || url.has_query
            || url.has_fragment {
            return Err(invalid_endpoint("address must contain only scheme, host, and optional port"));
        }
        if url.port == Some(0u16) {
            return Err(invalid_endpoint("port zero is not a connectable destination"));
        }
        let host = match raw_authority_host(input) {
            Some(h) => h,
            None => return Err(invalid_endpoint("address has an invalid authority")),
        };
        let lower = ascii_lower(chars_of(host.as_str()).as_slice());
        if eq_str(lower.as_slice(), "localhost.") || all_digits_exec(lower.as_slice()) {
            return Err(invalid_endpoint("address host is ambiguous"));
        }
        let ip_loopback = raw_host_is_loopback_ip(host.as_str());
        let mode = if eq_str(lower.as_slice(), "localhost") || ip_loopback {
            CollectorMode::Local
        } else {
            CollectorMode::Remote
        };
        if mode == CollectorMode::Local && !is_http {
            return Err(invalid_endpoint("loopback collectors use http"));
        }
        if mode == CollectorMode::Remote && !is_https {
            return Err(CollectorError::InsecureRemoteEndpoint);
        }
        match parse_url(url.origin.as_str()) {
            Err(e) => Err(invalid_endpoint_with("address could not be normalized: ", e.as_str())),
            Ok(_) => Ok(CollectorEndpoint { canonical: url.origin, mode }),
        }
    }

    /// The canonical address.
    pub fn as_str(&self) -> (r: &str)
        ensures
            r@ == self@.0,
    {
        self.canonical.as_str()
    }

    pub fn mode(&self) -> (r: CollectorMode)
        ensures
            r == self@.1,
    {
        self.mode
    }

    /// Whether two endpoints are the same destination.
    pub fn same_as(&self, other: &CollectorEndpoint) -> (r: bool)
        ensures
            r == (self@ == other@),
    {
        let same_mode = match (self.mode, other.mode) {
            (CollectorMode::Local, CollectorMode::Local) => true,
            (CollectorMode::Remote, CollectorMode::Remote) => true,
            _ => false,
        };
        same_mode && chars_eq(
            chars_of(self.canonical.as_str()).as_slice(),
            chars_of(other.canonical.as_str()).as_slice(),
        )
    }
}

/// What `url::Url::join` makes of a relative reference against a URL: the
/// joined URL's text, or the error's message.
pub uninterp spec fn url_joined(base: url::Url, reference: Seq<char>) -> Result<Seq<char>, Seq<char>>;

/// A reference resolved against the URL a base text parses as.
pub open spec fn joined_url(base: Seq<char>, reference: Seq<char>) -> Result<Seq<char>, Seq<char>> {
    match url_parsed(base) {
        Ok(u) => url_joined(u, reference),
        Err(m) => Err(m),
    }
}

/// Resolves `reference` against `base` with `url::Url::join`. The contract
/// names the result as a function of its arguments only.
#[verifier::external_body]
fn url_join(base: &url::Url, reference: &str) -> (r: Result<String, String>)
    ensures
        match url_joined(*base, reference@) {
            Ok(v) => r matches Ok(s) && s@ == v,
            Err(m) => r matches Err(e) && e@ == m,
        },
{
    match base.join(reference) {
        Ok(u) => Ok(u.to_string()),
        Err(e) => Err(e.to_string()),
    }
}

impl CollectorEndpoint {
    /// The address of a collector route, such as `v1/collector/ingest`.
    pub fn route(&self, path: &str) -> (r: Result<String, CollectorError>)
        ensures
            match joined_url(self@.0, path@) {
                Ok(v) => r matches Ok(s) && s@ == v,
                Err(m) => r matches Err(CollectorError::InvalidEndpoint(x)) && x@ == m,
            },
    {
        match parse_url(self.canonical.as_str()) {
            Err(m) => Err(CollectorError::InvalidEndpoint(m)),
            Ok(base) => match url_join(&base, path) {
                Ok(s) => Ok(s),
                Err(m) => Err(CollectorError::InvalidEndpoint(m)),
            },
        }
    }
}

// ---------------------------------------------------------------------------
// Tokens
// ---------------------------------------------------------------------------
/// A token character: printable ASCII other than `"` and `\\`.
pub open spec fn token_char(c: char) -> bool {
    '!' <= c && c <= '~' && c != '"' && c != '\\'
}

/// A token is 1 to 4096 token characters.
pub open spec fn valid_token_spec(t: Seq<char>) -> bool {
    0 < t.len() <= 4096 && forall|i: int| 0 <= i < t.len() ==> token_char(#[trigger] t[i])
}

/// A collector access token. It is never printed.
pub struct CollectorToken(String);

impl View for CollectorToken {
    type V = Seq<char>;

    closed spec fn view(&self) -> Seq<char> {
        self.0@
    }
}

impl CollectorToken {
    /// Accepts a token (see `valid_token_spec`).
    pub fn parse(value: String) -> (r: Result<Self, CollectorError>)
        ensures
            valid_token_spec(value@) ==> (r matches Ok(t) && t@ == value@),
            !valid_token_spec(value@) ==> (r matches Err(CollectorError::InvalidToken)),
    {
        let c = chars_of(value.as_str());
        if c.len() == 0 || c.len() > 4096 {
            return Err(CollectorError::InvalidToken);
        }
        let mut i: usize = 0;
        while i < c.len()
            invariant
                i <= c@.len(),
                c@ == value@,
                forall|j: int| 0 <= j < i ==> token_char(#[trigger] c@[j]),
            decreases c.len() - i,
        {
            let ch = c[i];
            if !('!' <= ch && ch <= '~' && ch != '"' && ch != '\\') {
                assert(!token_char(value@[i as int]));
                return Err(CollectorError::InvalidToken);
            }
            i = i + 1;
        }
        Ok(CollectorToken(value))
    }

    /// The token's text, for the request that presents it.
    pub fn expose_secret(&self) -> (r: &str)
        ensures
            r@ == self@,
    {
        self.0.as_str()
    }

    /// What a debug listing shows instead of the token.
    pub fn redacted(&self) -> (r: &'static str)
        ensures
            r@ == "CollectorToken([REDACTED])"@,
    {
        "CollectorToken([REDACTED])"
    }

    /// A copy of the token.
    pub fn duplicate(&self) -> (r: Self)
        ensures
            r@ == self@,
    {
        CollectorToken(self.0.clone())
    }
}

// ---------------------------------------------------------------------------
// Configuration
// ---------------------------------------------------------------------------
pub open spec fn is_hex_byte(b: u8) -> bool {
    (48 <= b && b <= 57) || (65 <= b && b <= 70) || (97 <= b && b <= 102)
}

/// 36 bytes: hexadecimal digits with `-` at positions 8, 13, 18 and 23.
pub open spec fn hyphenated_uuid(b: Seq<u8>) -> bool {
    b.len() == 36 && forall|i: int|
        0 <= i < 36 ==> if i == 8 || i == 13 || i == 18 || i == 23 {
            #[trigger] b[i] == 45
        } else {
            is_hex_byte(b[i])
        }
}

pub open spec fn lower_byte(b: u8) -> u8 {
    if 65 <= b && b <= 90 {
        (b + 32) as u8
    } else {
        b
    }
}

/// The text forms `uuid::Uuid::parse_str` accepts: 32 hexadecimal digits,
/// the hyphenated form, the hyphenated form in braces, or the hyphenated
/// form after `urn:uuid:` (in any ASCII case).
pub open spec fn uuid_text_spec(s: Seq<char>) -> bool {
    let b = vstd::utf8::encode_utf8(s);
    ||| b.len() == 32 && forall|i: int| 0 <= i < 32 ==> is_hex_byte(#[trigger] b[i])
    ||| hyphenated_uuid(b)
    ||| b.len() == 38 && b[0] == 123 && b[37] == 125 && hyphenated_uuid(b.subrange(1, 37))
    ||| b.len() == 45 && b.take(9).map_values(|x: u8| lower_byte(x)) == seq![117u8, 114, 110, 58, 117, 117, 105, 100, 58]
        && hyphenated_uuid(b.skip(9))
}

/// Whether `uuid::Uuid::parse_str` accepts a text: the forms of
/// `uuid_text_spec`, read from the crate's parser.
#[verifier::external_body]
fn uuid_is_valid(s: &str) -> (r: bool)
    ensures
        r == uuid_text_spec(s@),
{
    uuid::Uuid::parse_str(s).is_ok()
}

/// What a remote capture carries besides its envelope.
#[derive(Clone, Debug, PartialEq, Eq)]
pub struct RemoteCaptureHeader {
    pub protocol_version: u8,
    pub capture_id: String,
    pub source_instance_id: String,
    pub destination_id: String,
}

/// An ASCII hexadecimal digit, in either case.
pub open spec fn hex_char(c: char) -> bool {
    ('0' <= c && c <= '9') || ('a' <= c && c <= 'f') || ('A' <= c && c <= 'F')
}

/// A capture header is valid with the current protocol, UUID capture and
/// source ids, and a destination of 64 hexadecimal digits.
pub open spec fn remote_header_ok(h: RemoteCaptureHeader) -> bool {
    &&& h.protocol_version == COLLECTOR_PROTOCOL_VERSION
    &&& uuid_text_spec(h.capture_id@)
    &&& uuid_text_spec(h.source_instance_id@)
    &&& h.destination_id@.len() == 64
    &&& forall|i: int| 0 <= i < 64 ==> hex_char(#[trigger] h.destination_id@[i])
}

fn destination_text_ok(d: &str) -> (r: bool)
    ensures
        r == (d@.len() == 64 && forall|i: int| 0 <= i < 64 ==> hex_char(#[trigger] d@[i])),
{
    let c = chars_of(d);
    if c.len() != 64 {
        return false;
    }
    let mut i: usize = 0;
    while i < 64
        invariant
            i <= 64,
            c@ == d@,
            c@.len() == 64,
            forall|j: int| 0 <= j < i ==> hex_char(#[trigger] d@[j]),
        decreases 64 - i,
    {
        let ch = c[i];
        if !(('0' <= ch && ch <= '9') || ('a' <= ch && ch <= 'f') || ('A' <= ch && ch <= 'F')) {
            return false;
        }
        i = i + 1;
    }
    true
}

/// Checks a received capture: its header, its envelope, a Codex provider
/// and a payload the Codex adapter consumes (`payload` is the decoded hook).
pub fn remote_capture_check(
    header: &RemoteCaptureHeader,
    envelope: &crate::spool::CaptureEnvelopeFields,
    payload: crate::adapter::CodexHook,
) -> (r: Result<(), CollectorError>)
    ensures
        !remote_header_ok(*header) ==> r == Err::<(), CollectorError>(CollectorError::InvalidRemoteCapture),
        remote_header_ok(*header) ==> match crate::spool::envelope_check(*envelope) {
            Err(e) => r matches Err(CollectorError::Envelope(m)) && m@
                == crate::spool::envelope_error_message_spec(e),
            Ok(()) => if envelope.provider@ != "codex"@ {
                r == Err::<(), CollectorError>(CollectorError::InvalidRemoteCapture)
            } else {
                match payload {
                    crate::adapter::CodexHook::Other(_) => r == Err::<(), CollectorError>(
                        CollectorError::InvalidRemoteCapture,
                    ),
                    _ => r == Ok::<(), CollectorError>(()),
                }
            },
        },
{
    if header.protocol_version != COLLECTOR_PROTOCOL_VERSION || !uuid_is_valid(
        header.capture_id.as_str(),
    ) || !uuid_is_valid(header.source_instance_id.as_str()) || !destination_text_ok(
        header.destination_id.as_str(),
    ) {
        return Err(CollectorError::InvalidRemoteCapture);
    }
    if let Err(e) = envelope.validate() {
        return Err(CollectorError::Envelope(e.message()));
    }
    if !eq_str(chars_of(envelope.provider.as_str()).as_slice(), "codex") {
        return Err(CollectorError::InvalidRemoteCapture);
    }
    match crate::adapter::CodexAdapter::normalize_capture(payload) {
        Ok(_) => Ok(()),
        Err(_) => Err(CollectorError::InvalidRemoteCapture),
    }
}

/// The digest a receipt records: lowercase hex SHA-256 of the capture's
/// JSON.
pub fn receipt_digest(capture_json: &str) -> (r: String)
    ensures
        r@ == hex_lower_spec(sha256_of_utf8(capture_json@)),
{
    let digest = sha256_text(capture_json);
    string_from_chars(hex_lower(digest.as_slice()).as_slice())
}

/// A capture id seen before is a duplicate when its digest matches the
/// receipt and a conflict otherwise; an unseen one is received (`None`).
pub fn receipt_decision(recorded_digest: Option<&str>, digest: &str) -> (r: Result<
    Option<ReceiveOutcome>,
    CollectorError,
>)
    ensures
        recorded_digest is None ==> r == Ok::<Option<ReceiveOutcome>, CollectorError>(None),
        recorded_digest matches Some(d) && d@ == digest@ ==> r == Ok::<
            Option<ReceiveOutcome>,
            CollectorError,
        >(Some(ReceiveOutcome::Duplicate)),
        recorded_digest matches Some(d) && d@ != digest@ ==> r == Err::<
            Option<ReceiveOutcome>,
            CollectorError,
        >(CollectorError::CaptureConflict),
{
    match recorded_digest {
        None => Ok(None),
        Some(d) => if eq_str(chars_of(d).as_slice(), digest) {
            Ok(Some(ReceiveOutcome::Duplicate))
        } else {
            Err(CollectorError::CaptureConflict)
        },
    }
}

/// 32 lowercase hexadecimal digits: a UUID as `uuid` prints it in its
/// simple form.
pub open spec fn simple_uuid_spec(k: Seq<char>) -> bool {
    k.len() == 32 && forall|i: int| 0 <= i < 32 ==> crate::spool::lower_hex_char(#[trigger] k[i])
}

/// A fresh random `uuid::Uuid::new_v4` in its simple text form. Only the
/// form is stated; the value is random.
#[verifier::external_body]
fn new_simple_uuid() -> (r: String)
    ensures
        simple_uuid_spec(r@),
{
    uuid::Uuid::new_v4().simple().to_string()
}

/// A new ingest token: `akra_collector_` and two random simple UUIDs.
pub fn new_ingest_token() -> (r: CollectorToken)
    ensures
        r@.len() == 79,
        r@.take(15) == "akra_collector_"@,
        simple_uuid_spec(r@.subrange(15, 47)),
        simple_uuid_spec(r@.skip(47)),
        valid_token_spec(r@),
{
    let first = new_simple_uuid();
    let second = new_simple_uuid();
    let mut text: Vec<char> = Vec::new();
    push_str(&mut text, "akra_collector_");
    push_str(&mut text, first.as_str());
    push_str(&mut text, second.as_str());
    proof {
        reveal_strlit("akra_collector_");
        let t = text@;
        assert(t.take(15) =~= "akra_collector_"@);
        assert(t.subrange(15, 47) =~= first@);
        assert(t.skip(47) =~= second@);
        assert forall|i: int| 0 <= i < t.len() implies token_char(#[trigger] t[i]) by {
            if i < 15 {
                assert(t[i] == "akra_collector_"@[i]);
            } else if i < 47 {
                assert(t[i] == first@[i - 15]);
            } else {
                assert(t[i] == second@[i - 47]);
            }
        }
    }
    CollectorToken(string_from_chars(text.as_slice()))
}

/// The configuration an installation starts with: the local collector and
/// a fresh source id.
pub fn default_persisted_config() -> (r: PersistedConfig)
    ensures
        r.schema_version == COLLECTOR_PROTOCOL_VERSION,
        r.endpoint@ == "http://127.0.0.1:42130"@,
        crate::spool::spool_key_spec(r.source_instance_id@),
{
    PersistedConfig {
        schema_version: COLLECTOR_PROTOCOL_VERSION,
        endpoint: "http://127.0.0.1:42130".to_owned(),
        source_instance_id: crate::spool::new_spool_key(),
    }
}

/// The persisted collector configuration, read.
#[derive(Clone, Debug, PartialEq, Eq)]
pub struct PersistedConfig {
    pub schema_version: u8,
    pub endpoint: String,
    pub source_instance_id: String,
}

/// The persisted remote credential, read.
#[derive(Clone, PartialEq, Eq)]
pub struct PersistedRemoteCredential {
    pub schema_version: u8,
    pub endpoint: String,
    pub token: String,
}

/// What a caller asks to configure.
#[derive(Clone, PartialEq, Eq)]
pub struct CollectorConfigInput {
    pub endpoint: String,
    pub token: Option<String>,
}

/// What is shown of a configuration: never the token itself.
#[derive(Clone, Debug, PartialEq, Eq)]
pub struct CollectorConfigView {
    pub endpoint: String,
    pub mode: CollectorMode,
    pub has_token: bool,
}

/// A loaded collector configuration.
pub struct CollectorConfig {
    pub endpoint: CollectorEndpoint,
    pub remote_token: Option<CollectorToken>,
    pub source_instance_id: String,
    pub destination_id: String,
}

impl CollectorConfig {
    pub fn view(&self) -> (r: CollectorConfigView)
        ensures
            r.endpoint@ == self.endpoint@.0,
            r.mode == self.endpoint@.1,
            r.has_token == self.remote_token is Some,
    {
        CollectorConfigView {
            endpoint: self.endpoint.as_str().to_owned(),
            mode: self.endpoint.mode(),
            has_token: self.remote_token.is_some(),
        }
    }
}

/// The text hashed to identify a destination.
pub open spec fn destination_text(canonical: Seq<char>) -> Seq<char> {
    "akra-collector-destination\0"@ + canonical
}

/// The identity of a destination: hex SHA-256 of a fixed label, a NUL and
/// the canonical address.
pub open spec fn destination_id_spec(canonical: Seq<char>) -> Seq<char> {
    hex_lower_spec(sha256_of_utf8(destination_text(canonical)))
}

pub fn destination_id(endpoint: &CollectorEndpoint) -> (r: String)
    ensures
        r@ == destination_id_spec(endpoint@.0),
{
    let mut text: Vec<char> = Vec::new();
    push_str(&mut text, "akra-collector-destination\0");
    push_str(&mut text, endpoint.as_str());
    let joined = string_from_chars(text.as_slice());
    let digest = sha256_text(joined.as_str());
    string_from_chars(hex_lower(digest.as_slice()).as_slice())
}

/// How a persisted configuration decodes.
pub open spec fn decode_ok(
    config: PersistedConfig,
    credential: Option<PersistedRemoteCredential>,
) -> bool {
    &&& config.schema_version == 1
    &&& uuid_text_spec(config.source_instance_id@)
    &&& endpoint_spec(config.endpoint@) matches Ok(e) && (e.1 == CollectorMode::Remote
        ==> (credential matches Some(c) && c.schema_version == 1 && endpoint_spec(c.endpoint@) == Ok::<(Seq<char>, CollectorMode), EndpointRefusal>(e) && valid_token_spec(c.token@)))
}

/// Decodes a persisted configuration and its remote credential: the schema
/// must be current and the source id a UUID; a remote endpoint needs a
/// credential of the current schema for the same endpoint.
pub fn decode_config(
    config: PersistedConfig,
    credential: Option<PersistedRemoteCredential>,
) -> (r: Result<CollectorConfig, CollectorError>)
    ensures
        decode_ok(config, credential) <==> r is Ok,
        r matches Ok(c) ==> c.endpoint@ == endpoint_spec(config.endpoint@)->Ok_0
            && c.source_instance_id == config.source_instance_id && c.destination_id@
            == destination_id_spec(c.endpoint@.0) && (c.endpoint@.1 == CollectorMode::Local
            ==> c.remote_token is None) && (c.endpoint@.1 == CollectorMode::Remote ==> (c.remote_token matches Some(t)
            && credential matches Some(cr) && t@ == cr.token@)),
        (config.schema_version != 1 || !uuid_text_spec(config.source_instance_id@)) ==> r
            == Err::<CollectorConfig, CollectorError>(CollectorError::InvalidConfig),
{
    if config.schema_version != 1 || !uuid_is_valid(config.source_instance_id.as_str()) {
        return Err(CollectorError::InvalidConfig);
    }
    let endpoint = CollectorEndpoint::parse(config.endpoint.as_str())?;
    let remote_token = match endpoint.mode() {
        CollectorMode::Local => None,
        CollectorMode::Remote => {
            let credential = match credential {
                Some(c) => c,
                None => return Err(CollectorError::RemoteTokenRequired),
            };
            let credential_endpoint = CollectorEndpoint::parse(credential.endpoint.as_str())?;
            if credential.schema_version != 1 || !credential_endpoint.same_as(&endpoint) {
                return Err(CollectorError::RemoteTokenRequired);
            }
            Some(CollectorToken::parse(credential.token)?)
        },
    };
    Ok(
        CollectorConfig {
            destination_id: destination_id(&endpoint),
            endpoint,
            remote_token,
            source_instance_id: config.source_instance_id,
        },
    )
}

/// What loading the collector configuration does before decoding it.
#[derive(Clone, PartialEq, Eq)]
pub struct ConfigLoadPlan {
    /// The configuration to decode: the stored one, or a new default.
    pub config: PersistedConfig,
    /// Whether `config` is written back (a new default, or a legacy inline
    /// token moved out of it).
    pub persist_config: bool,
    /// A credential made from a legacy inline token, to be written.
    pub persist_credential: Option<PersistedRemoteCredential>,
    /// Whether the credential file is removed.
    pub clear_credential: bool,
    /// The credential to decode with.
    pub credential: Option<PersistedRemoteCredential>,
}

/// The error a refused address gives.
pub open spec fn refusal_error(refusal: EndpointRefusal, e: CollectorError) -> bool {
    match refusal {
        Some(m) => e matches CollectorError::InvalidEndpoint(x) && x@ == m,
        None => e == CollectorError::InsecureRemoteEndpoint,
    }
}

/// Plans the loading of the stored configuration (`None`: there is none),
/// its legacy inline token and the credential file. Without a stored
/// configuration the default is created and any credential removed. A
/// legacy token becomes the credential of a remote endpoint and is dropped
/// from the configuration; a local endpoint keeps no credential.
pub fn plan_config_load(
    stored: Option<PersistedConfig>,
    legacy_token: Option<String>,
    credential: Option<PersistedRemoteCredential>,
) -> (r: Result<ConfigLoadPlan, CollectorError>)
    ensures
        stored is None ==> (r matches Ok(p) && p.config.schema_version == COLLECTOR_PROTOCOL_VERSION
            && p.config.endpoint@ == "http://127.0.0.1:42130"@ && crate::spool::spool_key_spec(
            p.config.source_instance_id@,
        ) && p.persist_config && p.persist_credential is None && p.clear_credential
            && p.credential is None),
        stored matches Some(c) ==> match endpoint_spec(c.endpoint@) {
            Err(refusal) => r matches Err(e) && refusal_error(refusal, e),
            Ok(v) => r matches Ok(p) && p.config == c && p.persist_config == legacy_token is Some
                && if v.1 == CollectorMode::Remote {
                !p.clear_credential && match legacy_token {
                    Some(t) => (p.persist_credential matches Some(m) && m.schema_version
                        == COLLECTOR_PROTOCOL_VERSION && m.endpoint@ == v.0 && m.token@ == t@)
                        && (p.credential matches Some(k) && k.schema_version
                        == COLLECTOR_PROTOCOL_VERSION && k.endpoint@ == v.0 && k.token@ == t@),
                    None => p.persist_credential is None && p.credential == credential,
                }
            } else {
                p.persist_credential is None && p.credential is None && p.clear_credential
                    == credential is Some
            },
        },
{
    let config = match stored {
        None => {
            return Ok(
                ConfigLoadPlan {
                    config: default_persisted_config(),
                    persist_config: true,
                    persist_credential: None,
                    clear_credential: true,
                    credential: None,
                },
            );
        },
        Some(c) => c,
    };
    let endpoint = CollectorEndpoint::parse(config.endpoint.as_str())?;
    let persist_config = legacy_token.is_some();
    match endpoint.mode() {
        CollectorMode::Remote => {
            let (persist_credential, credential) = match legacy_token {
                Some(token) => {
                    let written = PersistedRemoteCredential {
                        schema_version: COLLECTOR_PROTOCOL_VERSION,
                        endpoint: endpoint.as_str().to_owned(),
                        token: token.clone(),
                    };
                    let used = PersistedRemoteCredential {
                        schema_version: COLLECTOR_PROTOCOL_VERSION,
                        endpoint: endpoint.as_str().to_owned(),
                        token,
                    };
                    (Some(written), Some(used))
                },
                None => (None, credential),
            };
            Ok(ConfigLoadPlan { config, persist_config, persist_credential, clear_credential: false, credential })
        },
        CollectorMode::Local => {
            let clear_credential = credential.is_some();
            Ok(ConfigLoadPlan { config, persist_config, persist_credential: None, clear_credential, credential: None })
        },
    }
}

/// Where the collector keeps its state.
#[derive(Clone, Debug)]
pub struct CollectorStore {
    pub data_dir: String,
}

/// The endpoint and token an update leaves.
pub struct CollectorUpdate {
    pub endpoint: CollectorEndpoint,
    pub remote_token: Option<CollectorToken>,
}

impl CollectorStore {
    pub fn new(data_dir: &str) -> (r: Self)
        ensures
            r.data_dir@ == data_dir@,
    {
        CollectorStore { data_dir: data_dir.to_owned() }
    }

    /// The endpoint and token a configuration request leaves, given the
    /// current configuration: a local endpoint drops any token; a remote one
    /// takes the token given, or keeps the current token when the endpoint is
    /// unchanged, and otherwise needs one.
    pub fn update(
        &self,
        current: &CollectorConfig,
        input: CollectorConfigInput,
    ) -> (r: Result<CollectorUpdate, CollectorError>)
        ensures
            match endpoint_spec(input.endpoint@) {
                Err(refusal) => match refusal {
                    Some(m) => r matches Err(CollectorError::InvalidEndpoint(x)) && x@ == m,
                    None => r matches Err(CollectorError::InsecureRemoteEndpoint),
                },
                Ok(e) => if e.1 == CollectorMode::Local {
                    r matches Ok(u) && u.endpoint@ == e && u.remote_token is None
                } else {
                    match input.token {
                        Some(t) => if valid_token_spec(t@) {
                            r matches Ok(u) && u.endpoint@ == e && (u.remote_token matches Some(k) && k@ == t@)
                        } else {
                            r matches Err(CollectorError::InvalidToken)
                        },
                        None => if e == current.endpoint@ {
                            r matches Ok(u) && u.endpoint@ == e && (u.remote_token is None
                                <==> current.remote_token is None) && (u.remote_token matches Some(k)
                                ==> (current.remote_token matches Some(c) && k@ == c@))
                        } else {
                            r matches Err(CollectorError::RemoteTokenRequired)
                        },
                    }
                },
            },
    {
        let endpoint = CollectorEndpoint::parse(input.endpoint.as_str())?;
        let remote_token = match endpoint.mode() {
            CollectorMode::Local => None,
            CollectorMode::Remote => match input.token {
                Some(token) => Some(CollectorToken::parse(token)?),
                None => if endpoint.same_as(&current.endpoint) {
                    match &current.remote_token {
                        Some(t) => Some(t.duplicate()),
                        None => None,
                    }
                } else {
                    return Err(CollectorError::RemoteTokenRequired);
                },
            },
        };
        Ok(CollectorUpdate { endpoint, remote_token })
    }
}

// ---------------------------------------------------------------------------
// Delivery schedule and checks
// ---------------------------------------------------------------------------
/// The seconds before retrying after `attempts` failures: doubling from one
/// second, at most 256 s before the five-minute cap applies.
pub open spec fn exponential_retry_spec(attempts: u8) -> u64 {
    let shift: nat = if attempts == 0 {
        0
    } else if attempts - 1 > 8 {
        8
    } else {
        (attempts - 1) as nat
    };
    let secs = vstd::arithmetic::power2::pow2(shift);
    if secs > 300 {
        300
    } else {
        secs as u64
    }
}

pub fn exponential_retry_delay(attempts: u8) -> (r: u64)
    ensures
        r == exponential_retry_spec(attempts),
        1 <= r <= 300,
{
    let shift: u8 = if attempts == 0 {
        0
    } else if attempts - 1 > 8 {
        8
    } else {
        attempts - 1
    };
    let mut secs: u64 = 1;
    let mut k: u8 = 0;
    proof {
        vstd::arithmetic::power2::lemma2_to64();
    }
    while k < shift
        invariant
            k <= shift <= 8,
            secs == vstd::arithmetic::power2::pow2(k as nat),
        decreases shift - k,
    {
        proof {
            vstd::arithmetic::power2::lemma_pow2_unfold((k + 1) as nat);
            vstd::arithmetic::power2::lemma2_to64();
        }
        secs = secs * 2;
        k = k + 1;
    }
    if secs > 300 {
        300
    } else {
        secs
    }
}

/// The seconds before retrying after an HTTP response: five minutes for a
/// configuration problem (400, 401, 403, 404, 413, 422); for 429 the
/// server's `Retry-After` (or the exponential delay), at most five minutes;
/// otherwise the exponential delay.
pub open spec fn response_retry_spec(status: u16, retry_after: Option<u64>, attempts: u8) -> u64 {
    if status == 400 || status == 401 || status == 403 || status == 404 || status == 413
        || status == 422 {
        300
    } else if status == 429 {
        let d = match retry_after {
            Some(s) => s,
            None => exponential_retry_spec(attempts),
        };
        if d > 300 {
            300
        } else {
            d
        }
    } else {
        exponential_retry_spec(attempts)
    }
}

pub fn response_retry_delay(status: u16, retry_after_seconds: Option<u64>, attempts: u8) -> (r:
    u64)
    ensures
        r == response_retry_spec(status, retry_after_seconds, attempts),
        r <= 300,
{
    if status == 400 || status == 401 || status == 403 || status == 404 || status == 413 || status
        == 422 {
        300
    } else if status == 429 {
        let d = match retry_after_seconds {
            Some(s) => s,
            None => exponential_retry_delay(attempts),
        };
        if d > 300 {
            300
        } else {
            d
        }
    } else {
        exponential_retry_delay(attempts)
    }
}

/// Compares two secrets in time that depends only on their lengths.
pub fn constant_time_equal(expected: &[u8], presented: &[u8]) -> (r: bool)
    ensures
        r == (expected@ == presented@),
{
    let n = if expected.len() >= presented.len() {
        expected.len()
    } else {
        presented.len()
    };
    let mut difference: usize = expected.len() ^ presented.len();
    proof {
        let a = expected.len();
        let b = presented.len();
        assert((a ^ b) == 0usize <==> a == b) by (bit_vector);
    }
    let mut index: usize = 0;
    while index < n
        invariant
            index <= n,
            n == if expected@.len() >= presented@.len() { expected@.len() } else { presented@.len() },
            (difference == 0) <==> (expected@.len() == presented@.len() && forall|j: int|
                0 <= j < index ==> expected@[j] == presented@[j]),
        decreases n - index,
    {
        let a: u8 = if index < expected.len() {
            expected[index]
        } else {
            0
        };
        let b: u8 = if index < presented.len() {
            presented[index]
        } else {
            0
        };
        let x: u8 = a ^ b;
        let before = difference;
        difference = difference | (x as usize);
        proof {
            assert((x == 0u8) <==> a == b) by (bit_vector)
                requires
                    x == a ^ b,
            ;
            assert((difference == 0usize) <==> (before == 0usize && x == 0u8)) by (bit_vector)
                requires
                    difference == before | (x as usize),
            ;
        }
        index = index + 1;
    }
    proof {
        if difference == 0 {
            assert(expected@ =~= presented@);
        }
    }
    difference == 0
}

/// Where a capture went.
#[derive(Clone, Debug, PartialEq, Eq)]
pub enum CaptureRoute {
    LocalQueued,
    RemoteQueued { capture_id: String, destination_id: String },
}

/// What a collector made of a received capture.
#[derive(Clone, Copy, Debug, PartialEq, Eq, Structural)]
pub enum ReceiveOutcome {
    Accepted,
    Duplicate,
}

/// The state of capture delivery.
#[derive(Clone, Debug, PartialEq, Eq)]
pub struct CollectorStatus {
    pub config: CollectorConfigView,
    pub pending: usize,
    pub connected: Option<bool>,
    pub last_delivery_at_us: Option<i64>,
    pub last_error: Option<String>,
}

/// What one relay pass did.
#[derive(Clone, Debug, PartialEq, Eq)]
pub struct RelayReport {
    pub attempted: usize,
    pub delivered: usize,
    pub blocked_destination: usize,
    pub expired_results: usize,
    pub pending: usize,
    pub last_error: Option<String>,
}

impl RelayReport {
    /// A pass that did nothing.
    pub fn empty() -> (r: Self)
        ensures
            r.attempted == 0 && r.delivered == 0 && r.blocked_destination == 0
                && r.expired_results == 0 && r.pending == 0 && r.last_error is None,
    {
        RelayReport {
            attempted: 0,
            delivered: 0,
            blocked_destination: 0,
            expired_results: 0,
            pending: 0,
            last_error: None,
        }
    }
}

/// Whether a collector answered a verification request.
#[derive(Clone, Debug, PartialEq, Eq)]
pub struct VerifyReport {
    pub mode: CollectorMode,
    pub reachable: bool,
    pub status: Option<u16>,
}

} // verus!
