//! DuckDuckGo Lite: the keyless default, scraped HTML. The request is the
//! caller's to make; the page it brings back is read by
//! [`crate::search::extract`].

use vstd::prelude::*;

use crate::text::{bytes_of, owned, push_char, push_str};

verus! {

/// Bytes that pass through a query string unescaped: ASCII letters and
/// digits, and `-`, `.`, `_`, `~`.
pub open spec fn url_safe(b: u8) -> bool {
    (0x30 <= b <= 0x39) || (0x41 <= b <= 0x5a) || (0x61 <= b <= 0x7a) || b == 0x2d || b == 0x2e
        || b == 0x5f || b == 0x7e
}

/// An uppercase hexadecimal digit.
pub open spec fn upper_hex(d: u8) -> char {
    if d < 10 {
        (0x30 + d) as char
    } else {
        (0x41 + d - 10) as char
    }
}

/// One byte in a query string: itself when safe, else `%` and two
/// uppercase hexadecimal digits.
pub open spec fn escaped_byte(b: u8) -> Seq<char> {
    if url_safe(b) {
        seq![b as char]
    } else {
        seq!['%', upper_hex(b / 16), upper_hex(b % 16)]
    }
}

/// A byte sequence percent-encoded, byte by byte.
pub open spec fn escaped_bytes(b: Seq<u8>) -> Seq<char>
    decreases b.len(),
{
    if b.len() == 0 {
        Seq::<char>::empty()
    } else {
        escaped_bytes(b.drop_last()) + escaped_byte(b.last())
    }
}

/// `s` percent-encoded for a query string: its UTF-8 bytes, each kept or
/// escaped.
pub open spec fn url_encoded(s: Seq<char>) -> Seq<char> {
    escaped_bytes(bytes_of(s))
}

fn upper_hex_char(d: u8) -> (c: char)
    requires
        d < 16,
    ensures
        c == upper_hex(d),
{
    if d < 10 {
        (0x30 + d) as char
    } else {
        (0x41 + d - 10) as char
    }
}

/// Percent-encodes every byte of `s` but ASCII letters, digits and `-`,
/// `.`, `_`, `~`, with uppercase hexadecimal digits.
pub fn encode(s: &str) -> (r: String)
    ensures
        r@ == url_encoded(s@),
{
    let bytes = s.as_bytes();
    let mut out = String::new();
    let mut i: usize = 0;
    while i < bytes.len()
        invariant
            bytes@ == bytes_of(s@),
            i <= bytes@.len(),
            out@ == escaped_bytes(bytes@.take(i as int)),
        decreases bytes.len() - i,
    {
        let b = bytes[i];
        proof {
            assert(bytes@.take(i + 1).drop_last() =~= bytes@.take(i as int));
            assert(bytes@.take(i + 1).last() == b);
        }
        let safe = (0x30 <= b && b <= 0x39) || (0x41 <= b && b <= 0x5a) || (0x61 <= b && b
            <= 0x7a) || b == 0x2d || b == 0x2e || b == 0x5f || b == 0x7e;
        if safe {
            push_char(&mut out, b as char);
        } else {
            push_char(&mut out, '%');
            push_char(&mut out, upper_hex_char(b / 16));
            push_char(&mut out, upper_hex_char(b % 16));
        }
        i = i + 1;
    }
    proof {
        assert(bytes@.take(bytes@.len() as int) =~= bytes@);
    }
    out
}

/// DuckDuckGo answers a throttled client with `202 Accepted` and a
/// challenge page rather than an error status.
pub const CHALLENGE_STATUS: u16 = 202;

/// The results page for a query: the query percent-encoded, and the
/// safe-search switch (`kp=1` strict, `kp=-1` off) when one is given.
pub open spec fn lite_url_of(query: Seq<char>, safe: Option<bool>) -> Seq<char> {
    "https://lite.duckduckgo.com/lite/?q="@ + url_encoded(query) + match safe {
        Some(true) => "&kp=1"@,
        Some(false) => "&kp=-1"@,
        None => Seq::<char>::empty(),
    }
}

pub fn lite_url(query: &str, safe: Option<bool>) -> (r: String)
    ensures
        r@ == lite_url_of(query@, safe),
{
    let mut url = owned("https://lite.duckduckgo.com/lite/?q=");
    let q = encode(query);
    push_str(&mut url, q.as_str());
    match safe {
        Some(true) => push_str(&mut url, "&kp=1"),
        Some(false) => push_str(&mut url, "&kp=-1"),
        None => {},
    }
    proof {
        assert(url@ =~= lite_url_of(query@, safe));
    }
    url
}

/// Is this status DuckDuckGo's challenge, a transient failure worth
/// retrying?
pub fn is_challenge(status: u16) -> (r: bool)
    ensures
        r == (status == CHALLENGE_STATUS),
{
    status == CHALLENGE_STATUS
}

} // verus!
