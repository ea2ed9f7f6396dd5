//! The `http_get` tool's network policy: which targets it may reach, and how far it
//! follows redirects.
use vstd::prelude::*;
use crate::text::{chars_of, chars_eq, ends_with_chars, has_suffix, lower_ascii, lower_ascii_chars,
    owned};

verus! {

/// An IP address: four octets, or eight 16-bit segments.
#[derive(Debug, Clone, Copy)]
pub enum IpAddress {
    V4([u8; 4]),
    V6([u16; 8]),
}

/// The IPv4 ranges that are blocked, for the address `a.b.c.d`: private (10/8,
/// 172.16/12, 192.168/16), loopback (127/8), link-local (169.254/16), multicast (224/4),
/// unspecified (0.0.0.0) and the broadcast address.
pub open spec fn blocked_octets(a: u8, b: u8, c: u8, d: u8) -> bool {
    ||| a == 10
    ||| a == 172 && 16 <= b <= 31
    ||| a == 192 && b == 168
    ||| a == 127
    ||| a == 169 && b == 254
    ||| 224 <= a <= 239
    ||| a == 0 && b == 0 && c == 0 && d == 0
    ||| a == 255 && b == 255 && c == 255 && d == 255
}

/// A blocked IPv4 address.
pub open spec fn blocked_v4(o: [u8; 4]) -> bool {
    blocked_octets(o[0], o[1], o[2], o[3])
}

/// `s` is an IPv4-mapped IPv6 address, `::ffff:a.b.c.d`.
pub open spec fn v4_mapped(s: [u16; 8]) -> bool {
    s[0] == 0 && s[1] == 0 && s[2] == 0 && s[3] == 0 && s[4] == 0 && s[5] == 0xffff
}

/// The IPv6 ranges that are blocked: loopback (::1), multicast (ff00::/8), unspecified
/// (::), unique local (fc00::/7), unicast link-local (fe80::/10), and the IPv4-mapped
/// form `::ffff:a.b.c.d` of every blocked IPv4 address.
pub open spec fn blocked_v6(s: [u16; 8]) -> bool {
    let zero_prefix = s[0] == 0 && s[1] == 0 && s[2] == 0 && s[3] == 0 && s[4] == 0 && s[5] == 0
        && s[6] == 0;
    ||| zero_prefix && s[7] == 1
    ||| s[0] >= 0xff00
    ||| zero_prefix && s[7] == 0
    ||| 0xfc00 <= s[0] <= 0xfdff
    ||| 0xfe80 <= s[0] <= 0xfebf
    ||| v4_mapped(s) && blocked_octets(
        (s[6] / 256) as u8,
        (s[6] % 256) as u8,
        (s[7] / 256) as u8,
        (s[7] % 256) as u8,
    )
}

/// Whether an address is private, loopback, link-local, multicast, unspecified or
/// broadcast, directly or as an IPv4-mapped IPv6 address.
pub open spec fn blocked_ip(ip: IpAddress) -> bool {
    match ip {
        IpAddress::V4(o) => blocked_v4(o),
        IpAddress::V6(s) => blocked_v6(s),
    }
}

/// Which IPv4 addresses are blocked, by number: `a.b.c.d` is blocked exactly when it lies
/// in 10.0.0.0–10.255.255.255, 172.16.0.0–172.31.255.255, 192.168.0.0–192.168.255.255,
/// 127.0.0.0–127.255.255.255, 169.254.0.0–169.254.255.255 or 224.0.0.0–239.255.255.255,
/// or is 0.0.0.0 or 255.255.255.255. In particular an address `192.b.c.d` is blocked
/// exactly when `b` is 168, and every address outside those ranges (such as 192.0.78.9 or
/// 8.8.8.8) may be contacted.
pub proof fn law_blocked_ipv4_ranges(a: u8, b: u8, c: u8, d: u8)
    ensures
        ({
            let n = a * 16777216 + b * 65536 + c * 256 + d;
            blocked_ip(IpAddress::V4([a, b, c, d])) <==> {
                ||| 167772160 <= n <= 184549375
                ||| 2886729728 <= n <= 2887778303
                ||| 3232235520 <= n <= 3232301055
                ||| 2130706432 <= n <= 2147483647
                ||| 2851995648 <= n <= 2852061183
                ||| 3758096384 <= n <= 4026531839
                ||| n == 0
                ||| n == 4294967295
            }
        }),
        a == 192 ==> (blocked_ip(IpAddress::V4([a, b, c, d])) <==> b == 168),
        !blocked_ip(IpAddress::V4([192, 0, 78, 9])),
        !blocked_ip(IpAddress::V4([8, 8, 8, 8])),
{
    let n = a * 16777216 + b * 65536 + c * 256 + d;
    assert(a * 16777216 <= n < (a + 1) * 16777216) by (nonlinear_arith)
        requires
            n == a * 16777216 + b * 65536 + c * 256 + d,
            0 <= b < 256,
            0 <= c < 256,
            0 <= d < 256,
    ;
    assert(a * 16777216 + b * 65536 <= n < a * 16777216 + (b + 1) * 65536) by (nonlinear_arith)
        requires
            n == a * 16777216 + b * 65536 + c * 256 + d,
            0 <= c < 256,
            0 <= d < 256,
    ;
    assert(n == 0 <==> (a == 0 && b == 0 && c == 0 && d == 0)) by (nonlinear_arith)
        requires
            n == a * 16777216 + b * 65536 + c * 256 + d,
            0 <= a < 256,
            0 <= b < 256,
            0 <= c < 256,
            0 <= d < 256,
    ;
    assert(n == 4294967295 <==> (a == 255 && b == 255 && c == 255 && d == 255)) by (nonlinear_arith)
        requires
            n == a * 16777216 + b * 65536 + c * 256 + d,
            0 <= a < 256,
            0 <= b < 256,
            0 <= c < 256,
            0 <= d < 256,
    ;
    // The first octet is fixed by the range of `n`, and within a first octet so is the second.
    assert(forall|x: int| #![trigger x * 16777216] 0 <= x < 256 ==> (x * 16777216 <= n < (x + 1)
        * 16777216 <==> x == a)) by (nonlinear_arith)
        requires
            a * 16777216 <= n < (a + 1) * 16777216,
            0 <= a < 256,
    ;
    assert(forall|y: int| #![trigger y * 65536] 0 <= y < 256 ==> (a * 16777216 + y * 65536 <= n < a
        * 16777216 + (y + 1) * 65536 <==> y == b)) by (nonlinear_arith)
        requires
            a * 16777216 + b * 65536 <= n < a * 16777216 + (b + 1) * 65536,
            0 <= b < 256,
    ;
}

/// Executable [`blocked_octets`].
fn octets_blocked(a: u8, b: u8, c: u8, d: u8) -> (r: bool)
    ensures
        r == blocked_octets(a, b, c, d),
{
    a == 10 || (a == 172 && 16 <= b && b <= 31) || (a == 192 && b == 168) || a == 127 || (a == 169
        && b == 254) || (224 <= a && a <= 239) || (a == 0 && b == 0 && c == 0 && d == 0) || (a
        == 255 && b == 255 && c == 255 && d == 255)
}

/// Whether the tool refuses to contact `ip`.
pub fn is_blocked_ip(ip: &IpAddress) -> (b: bool)
    ensures
        b == blocked_ip(*ip),
{
    match ip {
        IpAddress::V4(o) => octets_blocked(o[0], o[1], o[2], o[3]),
        IpAddress::V6(s) => {
            let zero_prefix = s[0] == 0 && s[1] == 0 && s[2] == 0 && s[3] == 0 && s[4] == 0 && s[5]
                == 0 && s[6] == 0;
            let mapped = s[0] == 0 && s[1] == 0 && s[2] == 0 && s[3] == 0 && s[4] == 0 && s[5]
                == 0xffff;
            (zero_prefix && s[7] == 1) || s[0] >= 0xff00 || (zero_prefix && s[7] == 0) || (0xfc00
                <= s[0] && s[0] <= 0xfdff) || (0xfe80 <= s[0] && s[0] <= 0xfebf) || (mapped
                && octets_blocked(
                (s[6] / 256) as u8,
                (s[6] % 256) as u8,
                (s[7] / 256) as u8,
                (s[7] % 256) as u8,
            ))
        },
    }
}

/// Why a request was refused.
#[derive(Debug, Clone, Copy, PartialEq, Eq, Structural)]
pub enum HttpPolicyError {
    UnsupportedScheme,
    MissingHost,
    LocalhostBlocked,
    MissingPort,
    BlockedIp,
    NoAddresses,
    TooManyRedirects,
    MissingLocation,
}

/// The message of an [`HttpPolicyError`].
pub open spec fn http_policy_error_text(e: HttpPolicyError) -> Seq<char> {
    match e {
        HttpPolicyError::UnsupportedScheme => "unsupported scheme"@,
        HttpPolicyError::MissingHost => "url missing host"@,
        HttpPolicyError::LocalhostBlocked => "localhost domains are blocked"@,
        HttpPolicyError::MissingPort => "url missing port"@,
        HttpPolicyError::BlockedIp => "private/loopback/link-local IPs are blocked"@,
        HttpPolicyError::NoAddresses => "host did not resolve to any IPs"@,
        HttpPolicyError::TooManyRedirects => "too many redirects"@,
        HttpPolicyError::MissingLocation => "redirect missing Location header"@,
    }
}

impl HttpPolicyError {
    /// The error's message.
    pub fn message(&self) -> (m: String)
        ensures
            m@ == http_policy_error_text(*self),
    {
        match self {
            HttpPolicyError::UnsupportedScheme => owned("unsupported scheme"),
            HttpPolicyError::MissingHost => owned("url missing host"),
            HttpPolicyError::LocalhostBlocked => owned("localhost domains are blocked"),
            HttpPolicyError::MissingPort => owned("url missing port"),
            HttpPolicyError::BlockedIp => owned("private/loopback/link-local IPs are blocked"),
            HttpPolicyError::NoAddresses => owned("host did not resolve to any IPs"),
            HttpPolicyError::TooManyRedirects => owned("too many redirects"),
            HttpPolicyError::MissingLocation => owned("redirect missing Location header"),
        }
    }
}

/// A parsed absolute URL: its serialization and the parts the policy reads (the host as
/// `Url::host_str` gives it, the port as `Url::port_or_known_default` gives it).
#[derive(Debug, Clone)]
pub struct HttpUrl {
    pub href: String,
    pub scheme: String,
    pub host: Option<String>,
    pub port: Option<u16>,
}

/// An [`HttpUrl`] with its strings as character sequences.
pub struct UrlView {
    pub href: Seq<char>,
    pub scheme: Seq<char>,
    pub host: Option<Seq<char>>,
    pub port: Option<u16>,
}

impl View for HttpUrl {
    type V = UrlView;

    open spec fn view(&self) -> UrlView {
        UrlView {
            href: self.href@,
            scheme: self.scheme@,
            host: match self.host {
                Some(h) => Some(h@),
                None => None,
            },
            port: self.port,
        }
    }
}

/// The view of a URL parser's result.
pub open spec fn url_result(r: Result<HttpUrl, String>) -> Result<UrlView, Seq<char>> {
    match r {
        Ok(u) => Ok(u@),
        Err(m) => Err(m@),
    }
}

/// What `Url::parse` yields for a text: the parsed URL, or the parser's message.
pub uninterp spec fn url_parse(text: Seq<char>) -> Result<UrlView, Seq<char>>;

/// What `Url::join` yields for a reference resolved against the URL `base`: the resolved
/// URL, or the parser's message.
pub uninterp spec fn url_join(base: Seq<char>, reference: Seq<char>) -> Result<UrlView, Seq<char>>;

/// `Url::parse` (the `url` crate, through `reqwest`): the URL's serialization, scheme,
/// host and port (explicit or the scheme's default), or the parser's message. The result
/// is named by [`url_parse`] of the text.
#[verifier::external_body]
fn url_from_text(text: &str) -> (r: Result<HttpUrl, String>)
    ensures
        url_result(r) == url_parse(text@),
{
    let u = reqwest::Url::parse(text).map_err(|e| e.to_string())?;
    Ok(HttpUrl {
        href: u.as_str().to_string(),
        scheme: u.scheme().to_string(),
        host: u.host_str().map(|h| h.to_string()),
        port: u.port_or_known_default(),
    })
}

/// `Url::join` (the `url` crate, through `reqwest`) of `reference` onto the URL whose
/// serialization is `base`: the resolved URL's parts as in [`url_from_text`], or the
/// parser's message. The result is named by [`url_join`] of the two texts.
#[verifier::external_body]
fn url_joined(base: &str, reference: &str) -> (r: Result<HttpUrl, String>)
    ensures
        url_result(r) == url_join(base@, reference@),
{
    let base = reqwest::Url::parse(base).map_err(|e| e.to_string())?;
    let u = base.join(reference).map_err(|e| e.to_string())?;
    Ok(HttpUrl {
        href: u.as_str().to_string(),
        scheme: u.scheme().to_string(),
        host: u.host_str().map(|h| h.to_string()),
        port: u.port_or_known_default(),
    })
}

/// Parses the URL a request is made to; the error is the parser's message.
pub fn parse_http_url(text: &str) -> (r: Result<HttpUrl, String>)
    ensures
        url_result(r) == url_parse(text@),
{
    url_from_text(text)
}

/// The URL a redirect's location points to, resolved against the current URL; the error
/// is the parser's message.
pub fn resolve_location(current: &HttpUrl, location: &str) -> (r: Result<HttpUrl, String>)
    ensures
        url_result(r) == url_join(current.href@, location@),
{
    url_joined(current.href.as_str(), location)
}

/// What remains to check of an allowed URL.
#[derive(Debug, Clone)]
pub enum UrlTarget {
    /// The host is an address literal that is allowed.
    Literal,
    /// The host is a name: each address it resolves to must be checked.
    Resolve { host: String, port: u16 },
}

/// The host names the tool never contacts: `localhost` and names under `.localhost` or
/// `.local`, compared case-insensitively.
pub open spec fn local_host_name(host: Seq<char>) -> bool {
    let h = lower_ascii(host);
    h == "localhost"@ || has_suffix(h, ".localhost"@) || has_suffix(h, ".local"@)
}

/// The policy on a URL, checked in order: the scheme is `http` or `https`; there is a
/// host; the host is not a local name; there is a port (explicit or the scheme's
/// default); a host that is an address literal (`host_ip`, the host read as an IP
/// address) must not be blocked.
pub fn check_url_target(url: &HttpUrl, host_ip: Option<IpAddress>) -> (r: Result<UrlTarget, HttpPolicyError>)
    ensures
        !(url@.scheme == "http"@ || url@.scheme == "https"@) ==> r matches Err(HttpPolicyError::UnsupportedScheme),
        (url@.scheme == "http"@ || url@.scheme == "https"@) ==> match url@.host {
            None => r matches Err(HttpPolicyError::MissingHost),
            Some(h) => if local_host_name(h) {
                r matches Err(HttpPolicyError::LocalhostBlocked)
            } else {
                match url.port {
                    None => r matches Err(HttpPolicyError::MissingPort),
                    Some(p) => match host_ip {
                        Some(ip) => if blocked_ip(ip) {
                            r matches Err(HttpPolicyError::BlockedIp)
                        } else {
                            r matches Ok(UrlTarget::Literal)
                        },
                        None => r matches Ok(UrlTarget::Resolve { host: hh, port: pp }) && hh@
                            == h && pp == p,
                    },
                }
            },
        },
{
    let s = chars_of(url.scheme.as_str());
    if !(chars_eq(&s, &chars_of("http")) || chars_eq(&s, &chars_of("https"))) {
        return Err(HttpPolicyError::UnsupportedScheme);
    }
    let h = match &url.host {
        None => {
            return Err(HttpPolicyError::MissingHost);
        },
        Some(h) => h,
    };
    let lc = lower_ascii_chars(&chars_of(h.as_str()));
    if chars_eq(&lc, &chars_of("localhost")) || ends_with_chars(&lc, &chars_of(".localhost"))
        || ends_with_chars(&lc, &chars_of(".local")) {
        return Err(HttpPolicyError::LocalhostBlocked);
    }
    let p = match url.port {
        None => {
            return Err(HttpPolicyError::MissingPort);
        },
        Some(p) => p,
    };
    match host_ip {
        Some(ip) => if is_blocked_ip(&ip) {
            Err(HttpPolicyError::BlockedIp)
        } else {
            Ok(UrlTarget::Literal)
        },
        None => Ok(UrlTarget::Resolve { host: owned(h.as_str()), port: p }),
    }
}

/// The addresses a host name resolved to are acceptable: none is blocked, and there is
/// at least one.
pub fn check_resolved(ips: &Vec<IpAddress>) -> (r: Result<(), HttpPolicyError>)
    ensures
        (exists|i: int| 0 <= i < ips@.len() && blocked_ip(#[trigger] ips@[i])) ==> r matches Err(
            HttpPolicyError::BlockedIp,
        ),
        !(exists|i: int| 0 <= i < ips@.len() && blocked_ip(#[trigger] ips@[i])) && ips@.len() == 0
            ==> r matches Err(HttpPolicyError::NoAddresses),
        !(exists|i: int| 0 <= i < ips@.len() && blocked_ip(#[trigger] ips@[i])) && ips@.len() > 0
            ==> r == Ok::<(), HttpPolicyError>(()),
{
    let mut i: usize = 0;
    while i < ips.len()
        invariant
            i <= ips@.len(),
            forall|m: int| 0 <= m < i ==> !blocked_ip(#[trigger] ips@[m]),
        decreases ips.len() - i,
    {
        if is_blocked_ip(&ips[i]) {
            return Err(HttpPolicyError::BlockedIp);
        }
        i += 1;
    }
    if ips.len() == 0 {
        Err(HttpPolicyError::NoAddresses)
    } else {
        Ok(())
    }
}

/// A requested value, `default` when absent, capped at `cap`.
pub fn bounded_request(requested: Option<u64>, default: u64, cap: u64) -> (r: u64)
    ensures
        r == (match requested {
            Some(v) => if v < cap {
                v
            } else {
                cap
            },
            None => if default < cap {
                default
            } else {
                cap
            },
        }),
{
    let v = match requested {
        Some(v) => v,
        None => default,
    };
    if v < cap {
        v
    } else {
        cap
    }
}

/// The most redirects a request follows.
pub const MAX_REDIRECTS: usize = 5;

/// The redirects a request has followed.
pub struct Redirects {
    followed: usize,
}

impl Redirects {
    /// The number of redirects followed so far.
    pub closed spec fn count(&self) -> usize {
        self.followed
    }

    /// No redirect followed yet.
    pub fn new() -> (r: Redirects)
        ensures
            r.count() == 0,
    {
        Redirects { followed: 0 }
    }

    /// Decides a redirect response with the given `Location` header: refused after
    /// [`MAX_REDIRECTS`] redirects, and without a location; otherwise the location is
    /// followed.
    pub fn follow(&mut self, location: Option<String>) -> (r: Result<String, HttpPolicyError>)
        requires
            old(self).count() <= MAX_REDIRECTS,
        ensures
            final(self).count() <= MAX_REDIRECTS,
            old(self).count() == MAX_REDIRECTS ==> (r matches Err(HttpPolicyError::TooManyRedirects)
                && final(self).count() == old(self).count()),
            old(self).count() < MAX_REDIRECTS && location is None ==> (r matches Err(
                HttpPolicyError::MissingLocation,
            ) && final(self).count() == old(self).count()),
            old(self).count() < MAX_REDIRECTS && location is Some ==> r == Ok::<
                String,
                HttpPolicyError,
            >(location.unwrap()) && final(self).count() == old(self).count() + 1,
    {
        if self.followed == MAX_REDIRECTS {
            return Err(HttpPolicyError::TooManyRedirects);
        }
        match location {
            None => Err(HttpPolicyError::MissingLocation),
            Some(loc) => {
                self.followed = self.followed + 1;
                Ok(loc)
            },
        }
    }
}

/// A copy of a parsed URL.
fn copy_url(u: &HttpUrl) -> (r: HttpUrl)
    ensures
        r@ == u@,
{
    HttpUrl {
        href: owned(u.href.as_str()),
        scheme: owned(u.scheme.as_str()),
        host: match &u.host {
            Some(h) => Some(owned(h.as_str())),
            None => None,
        },
        port: u.port,
    }
}

/// Why a redirect was not followed.
#[derive(Debug, Clone)]
pub enum RedirectError {
    /// Too many redirects, or no location.
    Policy(HttpPolicyError),
    /// The location does not resolve against the current URL; the parser's message.
    InvalidLocation(String),
}

impl RedirectError {
    /// The error's message.
    pub fn message(&self) -> (m: String)
        ensures
            m@ == match *self {
                RedirectError::Policy(e) => http_policy_error_text(e),
                RedirectError::InvalidLocation(detail) => detail@,
            },
    {
        match self {
            RedirectError::Policy(e) => e.message(),
            RedirectError::InvalidLocation(detail) => owned(detail.as_str()),
        }
    }
}

/// Whether some address in `ips` is blocked.
pub open spec fn any_blocked(ips: Seq<IpAddress>) -> bool {
    exists|i: int| 0 <= i < ips.len() && blocked_ip(#[trigger] ips[i])
}

/// The policy's verdict on a URL: the checks of [`check_url_target`] in order, and for a
/// host that is a name, those of [`check_resolved`] on the addresses it resolved to.
/// `host_ip` is the host read as an IP address, where it is one.
pub open spec fn policy_verdict(url: UrlView, host_ip: Option<IpAddress>, resolved: Seq<IpAddress>) -> Result<
    (),
    HttpPolicyError,
> {
    if !(url.scheme == "http"@ || url.scheme == "https"@) {
        Err(HttpPolicyError::UnsupportedScheme)
    } else {
        match url.host {
            None => Err(HttpPolicyError::MissingHost),
            Some(h) => if local_host_name(h) {
                Err(HttpPolicyError::LocalhostBlocked)
            } else if url.port is None {
                Err(HttpPolicyError::MissingPort)
            } else {
                match host_ip {
                    Some(ip) => if blocked_ip(ip) {
                        Err(HttpPolicyError::BlockedIp)
                    } else {
                        Ok(())
                    },
                    None => if any_blocked(resolved) {
                        Err(HttpPolicyError::BlockedIp)
                    } else if resolved.len() == 0 {
                        Err(HttpPolicyError::NoAddresses)
                    } else {
                        Ok(())
                    },
                }
            },
        }
    }
}

/// A URL passes the policy, given its host read as an address and the addresses the host
/// resolved to.
pub open spec fn passes_policy(url: UrlView, host_ip: Option<IpAddress>, resolved: Seq<IpAddress>) -> bool {
    policy_verdict(url, host_ip, resolved) is Ok
}

/// A URL that passes the policy is an `http` or `https` URL with a port, whose host is not
/// a local name, and whose address (the literal, or every address the name resolved to,
/// of which there is at least one) is not blocked.
pub proof fn law_passing_url_reaches_no_blocked_address(
    url: UrlView,
    host_ip: Option<IpAddress>,
    resolved: Seq<IpAddress>,
)
    requires
        passes_policy(url, host_ip, resolved),
    ensures
        url.scheme == "http"@ || url.scheme == "https"@,
        url.host matches Some(h) && !local_host_name(h),
        url.port is Some,
        host_ip matches Some(ip) ==> !blocked_ip(ip),
        host_ip is None ==> resolved.len() > 0 && forall|i: int|
            0 <= i < resolved.len() ==> !blocked_ip(#[trigger] resolved[i]),
{
}

/// What a fetch does next.
#[derive(Debug, Clone)]
pub enum FetchStep {
    /// Check this URL against the policy (resolving its host), then hand the result to
    /// [`HttpFetch::approve`].
    Check(HttpUrl),
    /// Send the request to this URL, which passed the policy.
    Send(HttpUrl),
}

/// A GET request in progress: the URL it is at, whether that URL passed the policy, the
/// inputs on which it passed, and the redirects followed. A URL is handed out to be sent
/// only once [`HttpFetch::approve`] found that it passes the policy; every redirect leads
/// to a URL that must pass again.
pub struct HttpFetch {
    current: HttpUrl,
    approved: bool,
    checked: Ghost<(Option<IpAddress>, Seq<IpAddress>)>,
    redirects: Redirects,
}

impl HttpFetch {
    /// The URL the request is at.
    pub closed spec fn url(&self) -> UrlView {
        self.current@
    }

    /// Whether that URL passed the policy.
    pub closed spec fn approved(&self) -> bool {
        self.approved
    }

    /// The host read as an address, as handed to the last approval.
    pub closed spec fn checked_host_ip(&self) -> Option<IpAddress> {
        self.checked@.0
    }

    /// The resolved addresses handed to the last approval.
    pub closed spec fn checked_addresses(&self) -> Seq<IpAddress> {
        self.checked@.1
    }

    /// The number of redirects followed.
    pub closed spec fn redirects_followed(&self) -> usize {
        self.redirects.count()
    }

    /// Never more than [`MAX_REDIRECTS`] redirects, and an approved URL passes the policy.
    pub open spec fn wf(&self) -> bool {
        &&& self.redirects_followed() <= MAX_REDIRECTS
        &&& self.approved() ==> passes_policy(
            self.url(),
            self.checked_host_ip(),
            self.checked_addresses(),
        )
    }

    /// A request to `url`, not yet checked.
    pub fn new(url: HttpUrl) -> (f: HttpFetch)
        ensures
            f.wf(),
            f.url() == url@,
            !f.approved(),
            f.redirects_followed() == 0,
    {
        HttpFetch {
            current: url,
            approved: false,
            checked: Ghost((None, Seq::empty())),
            redirects: Redirects::new(),
        }
    }

    /// The next step: check the current URL until it passed, then send it.
    pub fn step(&self) -> (s: FetchStep)
        requires
            self.wf(),
        ensures
            !self.approved() ==> (s matches FetchStep::Check(u) && u@ == self.url()),
            self.approved() ==> (s matches FetchStep::Send(u) && u@ == self.url()),
            s matches FetchStep::Send(u) ==> passes_policy(
                u@,
                self.checked_host_ip(),
                self.checked_addresses(),
            ),
    {
        let u = copy_url(&self.current);
        if self.approved {
            FetchStep::Send(u)
        } else {
            FetchStep::Check(u)
        }
    }

    /// Decides the policy on the current URL, given its host read as an address
    /// (`host_ip`) and the addresses its host name resolved to (`resolved`, read only
    /// where the host is a name). The URL is approved exactly when it passes.
    pub fn approve(&mut self, host_ip: Option<IpAddress>, resolved: &Vec<IpAddress>) -> (r: Result<
        (),
        HttpPolicyError,
    >)
        requires
            old(self).wf(),
        ensures
            final(self).wf(),
            r == policy_verdict(old(self).url(), host_ip, resolved@),
            final(self).approved() <==> r is Ok,
            r is Ok ==> final(self).checked_host_ip() == host_ip && final(self).checked_addresses()
                == resolved@,
            final(self).url() == old(self).url(),
            final(self).redirects_followed() == old(self).redirects_followed(),
    {
        let verdict = match check_url_target(&self.current, host_ip) {
            Err(e) => Err(e),
            Ok(UrlTarget::Literal) => Ok(()),
            Ok(UrlTarget::Resolve { .. }) => check_resolved(resolved),
        };
        match verdict {
            Ok(()) => {
                self.approved = true;
                self.checked = Ghost((host_ip, resolved@));
            },
            Err(_) => {
                self.approved = false;
            },
        }
        verdict
    }

    /// Follows a redirect response with the given `Location` header: refused after
    /// [`MAX_REDIRECTS`] redirects and without a location; otherwise the location, resolved
    /// against the current URL, becomes the URL to check next.
    pub fn redirect(&mut self, location: Option<String>) -> (r: Result<(), RedirectError>)
        requires
            old(self).wf(),
        ensures
            final(self).wf(),
            !final(self).approved(),
            old(self).redirects_followed() == MAX_REDIRECTS ==> (r matches Err(
                RedirectError::Policy(HttpPolicyError::TooManyRedirects),
            ) && final(self).url() == old(self).url()),
            old(self).redirects_followed() < MAX_REDIRECTS && location is None ==> (r matches Err(
                RedirectError::Policy(HttpPolicyError::MissingLocation),
            ) && final(self).url() == old(self).url()),
            old(self).redirects_followed() < MAX_REDIRECTS && location is Some ==> match url_join(
                old(self).url().href,
                location.unwrap()@,
            ) {
                Ok(u) => r is Ok && final(self).url() == u && final(self).redirects_followed()
                    == old(self).redirects_followed() + 1,
                Err(m) => r matches Err(RedirectError::InvalidLocation(d)) && d@ == m,
            },
    {
        self.approved = false;
        let loc = match self.redirects.follow(location) {
            Ok(l) => l,
            Err(e) => {
                return Err(RedirectError::Policy(e));
            },
        };
        match resolve_location(&self.current, loc.as_str()) {
            Ok(u) => {
                self.current = u;
                Ok(())
            },
            Err(m) => Err(RedirectError::InvalidLocation(m)),
        }
    }
}

} // verus!
