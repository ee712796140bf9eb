//! The guard on what a fetch may reach: only `http(s)` URLs whose host is a
//! public address. A crafted URL or a prompt-injected link could otherwise
//! reach a cloud metadata endpoint, `localhost`, or the private network.
//!
//! Addresses are judged here as plain octets and segments; resolving a name
//! is the caller's work, and its answers come back here to be judged.

use vstd::prelude::*;

use crate::text::{chars_vec, lower_seq, opt_str_chars, owned, push_str, str_eq, to_ascii_lowercase};

verus! {

/// An IP address, as its octets or its segments.
pub enum Ip {
    V4([u8; 4]),
    V6([u16; 8]),
}

/// An IPv4 address a public-web client must not reach: loopback
/// (127/8), private (10/8, 172.16/12, 192.168/16), link-local (169.254/16,
/// where cloud metadata lives), broadcast, unspecified, multicast (224/4),
/// documentation (192.0.2/24, 198.51.100/24, 203.0.113/24), "this network"
/// (0/8), shared address space (100.64/10), IETF protocol assignments
/// (192.0.0/24), benchmarking (198.18/15), and reserved (240/4).
pub open spec fn blocked_v4(o: Seq<u8>) -> bool {
    let (a, b, c, d) = (o[0], o[1], o[2], o[3]);
    ||| a == 127
    ||| a == 10
    ||| (a == 172 && 16 <= b && b <= 31)
    ||| (a == 192 && b == 168)
    ||| (a == 169 && b == 254)
    ||| (a == 255 && b == 255 && c == 255 && d == 255)
    ||| (a == 0 && b == 0 && c == 0 && d == 0)
    ||| (224 <= a && a <= 239)
    ||| (a == 192 && b == 0 && c == 2)
    ||| (a == 198 && b == 51 && c == 100)
    ||| (a == 203 && b == 0 && c == 113)
    ||| a == 0
    ||| (a == 100 && 64 <= b && b <= 127)
    ||| (a == 192 && b == 0 && c == 0)
    ||| (a == 198 && (b == 18 || b == 19))
    ||| a >= 240
}

/// Is this IPv4 address off limits?
pub fn is_blocked_ipv4(o: [u8; 4]) -> (r: bool)
    ensures
        r == blocked_v4(o@),
{
    let a = o[0];
    let b = o[1];
    let c = o[2];
    let d = o[3];
    a == 127 || a == 10 || (a == 172 && 16 <= b && b <= 31) || (a == 192 && b == 168) || (a == 169 && b
        == 254) || (a == 255 && b == 255 && c == 255 && d == 255) || (a == 0 && b == 0 && c == 0 && d
        == 0) || (224 <= a && a <= 239) || (a == 192 && b == 0 && c == 2) || (a == 198 && b == 51 && c
        == 100) || (a == 203 && b == 0 && c == 113) || a == 0 || (a == 100 && 64 <= b && b <= 127) || (a
        == 192 && b == 0 && c == 0) || (a == 198 && (b == 18 || b == 19)) || a >= 240
}

/// The IPv4 address carried in the last two segments of an IPv6 address.
pub open spec fn embedded_v4(s: Seq<u16>) -> Seq<u8> {
    seq![(s[6] / 256) as u8, (s[6] % 256) as u8, (s[7] / 256) as u8, (s[7] % 256) as u8]
}

/// An IPv6 address that embeds an IPv4 one: `::ffff:a.b.c.d` (mapped) or
/// `::a.b.c.d` (compatible, which includes `::` and `::1`).
pub open spec fn embeds_v4(s: Seq<u16>) -> bool {
    s[0] == 0 && s[1] == 0 && s[2] == 0 && s[3] == 0 && s[4] == 0 && (s[5] == 0 || s[5] == 0xffff)
}

/// An IPv6 address a public-web client must not reach: one embedding a
/// blocked IPv4 address; otherwise multicast (ff00::/8), link-local
/// (fe80::/10), unique local (fc00::/7), or documentation (2001:db8::/32).
pub open spec fn blocked_v6(s: Seq<u16>) -> bool {
    if embeds_v4(s) {
        blocked_v4(embedded_v4(s))
    } else {
        ||| s[0] >= 0xff00
        ||| (0xfe80 <= s[0] && s[0] <= 0xfebf)
        ||| (0xfc00 <= s[0] && s[0] <= 0xfdff)
        ||| (s[0] == 0x2001 && s[1] == 0x0db8)
    }
}

/// Address law: every address in the loopback, private, link-local
/// (cloud metadata), multicast, reserved and "this network" ranges is off
/// limits.
pub proof fn lemma_internal_v4_blocked(o: Seq<u8>)
    requires
        o.len() == 4,
    ensures
        o[0] == 127 ==> blocked_v4(o),
        o[0] == 10 ==> blocked_v4(o),
        o[0] == 172 && 16 <= o[1] <= 31 ==> blocked_v4(o),
        o[0] == 192 && o[1] == 168 ==> blocked_v4(o),
        o[0] == 169 && o[1] == 254 ==> blocked_v4(o),
        o[0] == 0 ==> blocked_v4(o),
        224 <= o[0] ==> blocked_v4(o),
        o[0] == 100 && 64 <= o[1] <= 127 ==> blocked_v4(o),
{
}

/// Address law: an IPv6 address that carries an IPv4 one, mapped
/// (`::ffff:a.b.c.d`) or compatible (`::a.b.c.d`), is off limits exactly
/// when that IPv4 address is, so wrapping an internal address in IPv6 does
/// not get past the guard.
pub proof fn lemma_embedded_v4_judged_as_v4(o: Seq<u8>, mapped: bool)
    requires
        o.len() == 4,
    ensures
        blocked_v6(
            seq![0u16, 0, 0, 0, 0, if mapped { 0xffffu16 } else { 0u16 }, (o[0] * 256 + o[1]) as u16, (o[2] * 256 + o[3]) as u16],
        ) == blocked_v4(o),
{
    let s = seq![0u16, 0, 0, 0, 0, if mapped { 0xffffu16 } else { 0u16 }, (o[0] * 256 + o[1]) as u16, (o[2] * 256 + o[3]) as u16];
    assert(embeds_v4(s));
    assert(embedded_v4(s) =~= o);
}

/// Is this IPv6 address off limits?
pub fn is_blocked_ipv6(s: [u16; 8]) -> (r: bool)
    ensures
        r == blocked_v6(s@),
{
    if s[0] == 0 && s[1] == 0 && s[2] == 0 && s[3] == 0 && s[4] == 0 && (s[5] == 0 || s[5] == 0xffff) {
        let v4: [u8; 4] = [(s[6] / 256) as u8, (s[6] % 256) as u8, (s[7] / 256) as u8, (s[7] % 256) as u8];
        assert(v4@ =~= embedded_v4(s@));
        return is_blocked_ipv4(v4);
    }
    s[0] >= 0xff00 || (0xfe80 <= s[0] && s[0] <= 0xfebf) || (0xfc00 <= s[0] && s[0] <= 0xfdff) || (s[0]
        == 0x2001 && s[1] == 0x0db8)
}

pub open spec fn blocked(ip: Ip) -> bool {
    match ip {
        Ip::V4(o) => blocked_v4(o@),
        Ip::V6(s) => blocked_v6(s@),
    }
}

/// Is this address off limits for a public-web client?
pub fn is_blocked_ip(ip: &Ip) -> (r: bool)
    ensures
        r == blocked(*ip),
{
    match ip {
        Ip::V4(o) => is_blocked_ipv4(*o),
        Ip::V6(s) => is_blocked_ipv6(*s),
    }
}

/// Whether `WEBFETCH_ALLOW_PRIVATE` disables the guard: `1`, `true` or
/// `TRUE` exactly.
pub fn allow_private(value: Option<&str>) -> (r: bool)
    ensures
        r == (opt_str_chars(value) == Some("1"@) || opt_str_chars(value) == Some("true"@)
            || opt_str_chars(value) == Some("TRUE"@)),
{
    match value {
        Some(v) => str_eq(v, "1") || str_eq(v, "true") || str_eq(v, "TRUE"),
        None => false,
    }
}

/// Why a URL was refused.
pub struct BlockedUrl(pub String);

impl BlockedUrl {
    /// The refusal as a sentence.
    pub fn message(&self) -> (r: String)
        ensures
            r@ == "blocked URL: "@ + self.0@,
    {
        let mut s = owned("blocked URL: ");
        push_str(&mut s, self.0.as_str());
        s
    }
}

/// A host that names the local machine: `localhost` or a subdomain of it,
/// whatever the case.
pub open spec fn local_name(domain: Seq<char>) -> bool {
    let l = lower_seq(domain);
    l == "localhost"@ || (l.len() >= 10 && l.skip(l.len() - 10) == ".localhost"@)
}

/// Refuse a scheme other than `http` or `https`.
pub fn check_scheme(scheme: &str) -> (r: Result<(), BlockedUrl>)
    ensures
        r is Ok <==> (scheme@ == "http"@ || scheme@ == "https"@),
        r matches Err(e) ==> e.0@ == "scheme `"@ + scheme@ + "` not allowed"@,
{
    if str_eq(scheme, "http") || str_eq(scheme, "https") {
        Ok(())
    } else {
        let mut s = owned("scheme `");
        push_str(&mut s, scheme);
        push_str(&mut s, "` not allowed");
        Err(BlockedUrl(s))
    }
}

/// Refuse a host name that is local before it is resolved.
pub fn check_domain(domain: &str) -> (r: Result<(), BlockedUrl>)
    ensures
        r is Ok <==> !local_name(domain@),
        r matches Err(e) ==> e.0@ == "host `"@ + domain@ + "` is local"@,
{
    let l = to_ascii_lowercase(&chars_vec(domain));
    let local = if crate::text::chars_eq_str(&l, "localhost") {
        true
    } else if l.len() >= 10 {
        let mut tail: Vec<char> = Vec::new();
        let mut i = l.len() - 10;
        while i < l.len()
            invariant
                l@.len() >= 10,
                l@.len() - 10 <= i <= l@.len(),
                tail@ == l@.subrange(l@.len() - 10, i as int),
            decreases l.len() - i,
        {
            tail.push(l[i]);
            i += 1;
        }
        assert(tail@ =~= l@.skip(l@.len() - 10));
        crate::text::chars_eq_str(&tail, ".localhost")
    } else {
        false
    };
    if local {
        let mut s = owned("host `");
        push_str(&mut s, domain);
        push_str(&mut s, "` is local");
        Err(BlockedUrl(s))
    } else {
        Ok(())
    }
}

/// Judge what a name resolved to: every address must be public, and there
/// must be at least one. `shown` holds each address as text, for the
/// message naming the first that is not public.
pub fn check_resolved(domain: &str, addrs: &[Ip], shown: &[String]) -> (r: Result<(), BlockedUrl>)
    requires
        shown@.len() == addrs@.len(),
    ensures
        r is Ok <==> (addrs@.len() > 0 && forall|i: int| 0 <= i < addrs@.len() ==> !blocked(#[trigger] addrs@[i])),
        addrs@.len() == 0 ==> (r matches Err(e) && e.0@ == "`"@ + domain@ + "` resolved to no addresses"@),
        addrs@.len() > 0 ==> (r matches Err(e) ==> exists|i: int|
            0 <= i < addrs@.len() && blocked(#[trigger] addrs@[i]) && (forall|j: int| 0 <= j < i ==> !blocked(addrs@[j]))
                && e.0@ == "`"@ + domain@ + "` resolves to non-public IP "@ + shown@[i]@),
{
    if addrs.len() == 0 {
        let mut s = owned("`");
        push_str(&mut s, domain);
        push_str(&mut s, "` resolved to no addresses");
        return Err(BlockedUrl(s));
    }
    let mut i: usize = 0;
    while i < addrs.len()
        invariant
            i <= addrs@.len(),
            shown@.len() == addrs@.len(),
            forall|j: int| 0 <= j < i ==> !blocked(#[trigger] addrs@[j]),
        decreases addrs.len() - i,
    {
        if is_blocked_ip(&addrs[i]) {
            let mut s = owned("`");
            push_str(&mut s, domain);
            push_str(&mut s, "` resolves to non-public IP ");
            push_str(&mut s, shown[i].as_str());
            return Err(BlockedUrl(s));
        }
        i += 1;
    }
    Ok(())
}

/// The host of a URL as the url crate parses it, with its text (an
/// address as std renders it, a domain as it stands).
pub enum HostPart {
    Ipv4([u8; 4], String),
    Ipv6([u16; 8], String),
    Domain(String),
}

/// What the guard reads of a URL.
pub struct UrlParts {
    pub scheme: String,
    pub host: Option<HostPart>,
    /// The explicit port, else the scheme's known default.
    pub port: Option<u16>,
    /// The URL as the url crate writes it.
    pub text: String,
}

pub enum HostV {
    Ipv4(Seq<u8>, Seq<char>),
    Ipv6(Seq<u16>, Seq<char>),
    Domain(Seq<char>),
}

pub struct UrlPartsV {
    pub scheme: Seq<char>,
    pub host: Option<HostV>,
    pub port: Option<u16>,
    pub text: Seq<char>,
}

pub open spec fn host_view(h: HostPart) -> HostV {
    match h {
        HostPart::Ipv4(o, t) => HostV::Ipv4(o@, t@),
        HostPart::Ipv6(g, t) => HostV::Ipv6(g@, t@),
        HostPart::Domain(d) => HostV::Domain(d@),
    }
}

pub open spec fn parts_view(p: UrlParts) -> UrlPartsV {
    UrlPartsV {
        scheme: p.scheme@,
        host: match p.host {
            Some(h) => Some(host_view(h)),
            None => None,
        },
        port: p.port,
        text: p.text@,
    }
}

/// What the url crate reads of a URL: its scheme, host, port (explicit or
/// the scheme's default) and serialization; `None` when it does not parse.
pub uninterp spec fn url_parts_of(s: Seq<char>) -> Option<UrlPartsV>;

/// Wraps `url::Url::parse`, then `scheme`, `host` (an address's octets or
/// segments and its `to_string`, or the domain), `port_or_known_default` and
/// `to_string`. The contract claims only that the result depends on `s`.
#[verifier::external_body]
fn url_parts(s: &str) -> (r: Option<UrlParts>)
    ensures
        match r {
            Some(p) => url_parts_of(s@) == Some(parts_view(p)),
            None => url_parts_of(s@) is None,
        },
{
    let u = url::Url::parse(s).ok()?;
    let host = match u.host() {
        Some(url::Host::Ipv4(ip)) => Some(HostPart::Ipv4(ip.octets(), ip.to_string())),
        Some(url::Host::Ipv6(ip)) => Some(HostPart::Ipv6(ip.segments(), ip.to_string())),
        Some(url::Host::Domain(d)) => Some(HostPart::Domain(d.to_string())),
        None => None,
    };
    Some(UrlParts { scheme: u.scheme().to_string(), host, port: u.port_or_known_default(), text: u.to_string() })
}

/// What is left to check of an allowed URL.
pub enum Target {
    /// Private hosts are allowed: the scheme was checked, the host is not.
    Unchecked,
    /// The host is an address, and a public one.
    Public,
    /// The host is a name: resolve it at this port and judge every address.
    Resolve { domain: String, port: u16 },
}

/// How the guard judges a URL before any name is resolved. Only `http` and
/// `https` are ever fetchable; allowing private hosts relaxes which hosts
/// are reached and nothing else.
pub open spec fn judged(url: Seq<char>, allow: bool, r: Result<Target, BlockedUrl>) -> bool {
    match url_parts_of(url) {
        None => r matches Err(e) && e.0@ == "not a URL: "@ + url,
        Some(p) => if !(p.scheme == "http"@ || p.scheme == "https"@) {
            r matches Err(e) && e.0@ == "scheme `"@ + p.scheme + "` not allowed"@
        } else if allow {
            r matches Ok(Target::Unchecked)
        } else {
            match p.host {
                None => r matches Err(e) && e.0@ == "no host in "@ + p.text,
                Some(HostV::Ipv4(o, t)) => if blocked_v4(o) {
                    r matches Err(e) && e.0@ == "host IP "@ + t + " is not public"@
                } else {
                    r matches Ok(Target::Public)
                },
                Some(HostV::Ipv6(g, t)) => if blocked_v6(g) {
                    r matches Err(e) && e.0@ == "host IP "@ + t + " is not public"@
                } else {
                    r matches Ok(Target::Public)
                },
                Some(HostV::Domain(d)) => if local_name(d) {
                    r matches Err(e) && e.0@ == "host `"@ + d + "` is local"@
                } else {
                    match p.port {
                        None => r matches Err(e) && e.0@ == "no port for "@ + p.text,
                        Some(n) => r matches Ok(Target::Resolve { domain, port }) && domain@ == d && port == n,
                    }
                },
            }
        }
    }
}

fn ip_refused(text: &str) -> (r: BlockedUrl)
    ensures
        r.0@ == "host IP "@ + text@ + " is not public"@,
{
    let mut s = owned("host IP ");
    push_str(&mut s, text);
    push_str(&mut s, " is not public");
    BlockedUrl(s)
}

/// Validate a URL's scheme and host: only `http(s)`, and (unless private
/// hosts are allowed) a host that is a public address or a name that is not
/// local. A name still has to be
/// resolved, and what it resolves to judged by [`check_resolved`].
pub fn validate_url(url: &str, allow: bool) -> (r: Result<Target, BlockedUrl>)
    ensures
        judged(url@, allow, r),
{
    let p = match url_parts(url) {
        None => {
            let mut s = owned("not a URL: ");
            push_str(&mut s, url);
            return Err(BlockedUrl(s));
        },
        Some(p) => p,
    };
    check_scheme(p.scheme.as_str())?;
    if allow {
        return Ok(Target::Unchecked);
    }
    match p.host {
        None => {
            let mut s = owned("no host in ");
            push_str(&mut s, p.text.as_str());
            Err(BlockedUrl(s))
        },
        Some(HostPart::Ipv4(o, t)) => {
            if is_blocked_ipv4(o) {
                Err(ip_refused(t.as_str()))
            } else {
                Ok(Target::Public)
            }
        },
        Some(HostPart::Ipv6(g, t)) => {
            if is_blocked_ipv6(g) {
                Err(ip_refused(t.as_str()))
            } else {
                Ok(Target::Public)
            }
        },
        Some(HostPart::Domain(d)) => {
            check_domain(d.as_str())?;
            match p.port {
                None => {
                    let mut s = owned("no port for ");
                    push_str(&mut s, p.text.as_str());
                    Err(BlockedUrl(s))
                },
                Some(port) => Ok(Target::Resolve { domain: d, port }),
            }
        },
    }
}

/// Only `http` and `https` are ever fetchable, whether or not private hosts
/// are allowed: every URL the guard lets through parses with one of those
/// schemes.
pub proof fn lemma_only_http_passes(url: Seq<char>, allow: bool, r: Result<Target, BlockedUrl>)
    requires
        judged(url, allow, r),
        r is Ok,
    ensures
        url_parts_of(url) matches Some(p) && (p.scheme == "http"@ || p.scheme == "https"@),
{
}

} // verus!
