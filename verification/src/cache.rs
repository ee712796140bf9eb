//! The on-disk cache of fetched pages, so reading one document costs one
//! download and every window of a paged read sees the same snapshot.
//!
//! This module decides; the caller touches the filesystem. It resolves
//! whether the cache is on and how long entries stay fresh, names the file an
//! entry lives in, judges a stored entry against a request, and plans which
//! files a prune removes.

use vstd::prelude::*;

use crate::fetch::FetchedPage;
use crate::json::hex_digit;
use crate::text::{chars_vec, lower_seq, owned, push_char, push_str, str_eq, to_ascii_lowercase, trim, trim_str};
use crate::text::{bytes_of, decimal};

verus! {

/// Default freshness window: long enough to page a document without
/// refetching it, short enough that a page read twice in a session is not
/// read stale.
pub const DEFAULT_TTL_SECS: u64 = 900;

/// Entries kept before the oldest are evicted.
pub const MAX_ENTRIES: usize = 256;

/// How long entries stay fresh, or `None` when the cache is off: either
/// switch turns it off; otherwise the environment's TTL, else the configured
/// one, else the default; a zero TTL also means no cache.
pub open spec fn ttl_of(
    disabled_by_flag: bool,
    disabled_by_env: bool,
    env_ttl: Option<u64>,
    configured_ttl: Option<u64>,
) -> Option<u64> {
    if disabled_by_flag || disabled_by_env {
        None
    } else {
        let ttl = match env_ttl {
            Some(t) => t,
            None => match configured_ttl {
                Some(c) => c,
                None => DEFAULT_TTL_SECS,
            },
        };
        if ttl > 0 {
            Some(ttl)
        } else {
            None
        }
    }
}

/// How long entries stay fresh, or `None` when the cache is off.
pub fn effective_ttl(
    disabled_by_flag: bool,
    disabled_by_env: bool,
    env_ttl: Option<u64>,
    configured_ttl: Option<u64>,
) -> (r: Option<u64>)
    ensures
        r == ttl_of(disabled_by_flag, disabled_by_env, env_ttl, configured_ttl),
{
    if disabled_by_flag || disabled_by_env {
        return None;
    }
    let ttl = match env_ttl {
        Some(t) => t,
        None => match configured_ttl {
            Some(c) => c,
            None => DEFAULT_TTL_SECS,
        },
    };
    if ttl > 0 {
        Some(ttl)
    } else {
        None
    }
}

pub const FNV_OFFSET: u64 = 0xcbf2_9ce4_8422_2325;

pub const FNV_PRIME: u64 = 0x0000_0100_0000_01b3;

/// FNV-1a over a byte sequence: each byte is xored in, then the hash is
/// multiplied by the prime, wrapping.
pub open spec fn fnv_of(bytes: Seq<u8>) -> u64
    decreases bytes.len(),
{
    if bytes.len() == 0 {
        FNV_OFFSET
    } else {
        (fnv_of(bytes.drop_last()) ^ (bytes.last() as u64)).wrapping_mul(FNV_PRIME)
    }
}

/// FNV-1a of a text's UTF-8 bytes: a cache key that is stable across builds
/// and machines. It need not be cryptographic, because every entry carries
/// its URL and a mismatch is a miss.
pub fn fnv1a(text: &str) -> (r: u64)
    ensures
        r == fnv_of(bytes_of(text@)),
{
    let bytes = text.as_bytes();
    let mut hash: u64 = FNV_OFFSET;
    let mut i: usize = 0;
    while i < bytes.len()
        invariant
            bytes@ == bytes_of(text@),
            i <= bytes@.len(),
            hash == fnv_of(bytes@.take(i as int)),
        decreases bytes.len() - i,
    {
        proof {
            assert(bytes@.take(i + 1).drop_last() =~= bytes@.take(i as int));
            assert(bytes@.take(i + 1).last() == bytes@[i as int]);
        }
        hash = (hash ^ (bytes[i] as u64)).wrapping_mul(FNV_PRIME);
        i += 1;
    }
    proof {
        assert(bytes@.take(bytes@.len() as int) =~= bytes@);
    }
    hash
}

/// The last `k` hexadecimal digits of `h`, lowercase, most significant
/// first.
pub open spec fn hex_digits(h: u64, k: nat) -> Seq<char>
    decreases k,
{
    if k == 0 {
        Seq::<char>::empty()
    } else {
        hex_digits(h / 16, (k - 1) as nat).push(hex_digit((h % 16) as u32))
    }
}

fn hex_char(d: u64) -> (c: char)
    requires
        d < 16,
    ensures
        c == hex_digit(d as u32),
{
    if d < 10 {
        ((48 + d) as u8) as char
    } else {
        ((97 + d - 10) as u8) as char
    }
}

/// `h` divided by 16, `k` times.
pub open spec fn hex_pow_div(h: u64, k: nat) -> u64
    decreases k,
{
    if k == 0 {
        h
    } else {
        hex_pow_div(h, (k - 1) as nat) / 16
    }
}

proof fn lemma_hex_pow_div_shift(h: u64, m: nat)
    ensures
        hex_pow_div(h / 16, m) == hex_pow_div(h, m + 1),
    decreases m,
{
    if m > 0 {
        lemma_hex_pow_div_shift(h, (m - 1) as nat);
        assert(hex_pow_div(h / 16, m) == hex_pow_div(h / 16, (m - 1) as nat) / 16);
        assert(hex_pow_div(h, m + 1) == hex_pow_div(h, m) / 16);
    } else {
        assert(hex_pow_div(h, 1) == hex_pow_div(h, 0) / 16);
    }
}

proof fn lemma_hex_digits_at(h: u64, k: nat)
    ensures
        hex_digits(h, k).len() == k,
        forall|i: int|
            0 <= i < k ==> #[trigger] hex_digits(h, k)[i] == hex_digit(
                (hex_pow_div(h, (k - 1 - i) as nat) % 16) as u32,
            ),
    decreases k,
{
    if k > 0 {
        lemma_hex_digits_at(h / 16, (k - 1) as nat);
        assert forall|i: int| 0 <= i < k implies #[trigger] hex_digits(h, k)[i] == hex_digit(
            (hex_pow_div(h, (k - 1 - i) as nat) % 16) as u32,
        ) by {
            if i < k - 1 {
                lemma_hex_pow_div_shift(h, (k - 2 - i) as nat);
            }
        }
    }
}

/// `h` as 16 lowercase hexadecimal digits, zero-padded.
pub fn hex16(h: u64) -> (r: String)
    ensures
        r@ == hex_digits(h, 16),
{
    let mut digits: Vec<char> = Vec::new();
    let mut k: usize = 0;
    let mut rest: u64 = h;
    while k < 16
        invariant
            k <= 16,
            digits@.len() == k,
            forall|t: int| 0 <= t < k ==> #[trigger] digits@[t] == hex_digit((hex_pow_div(h, t as nat) % 16) as u32),
            rest == hex_pow_div(h, k as nat),
        decreases 16 - k,
    {
        digits.push(hex_char(rest % 16));
        rest = rest / 16;
        k += 1;
    }
    let mut out = String::new();
    let mut j: usize = 16;
    while j > 0
        invariant
            j <= 16,
            digits@.len() == 16,
            out@.len() == 16 - j,
            forall|t: int| 0 <= t < 16 - j ==> #[trigger] out@[t] == digits@[15 - t],
        decreases j,
    {
        push_char(&mut out, digits[j - 1]);
        j -= 1;
    }
    proof {
        lemma_hex_digits_at(h, 16);
        assert(out@ =~= hex_digits(h, 16));
    }
    out
}

/// `s` is made of decimal digits only.
pub open spec fn all_digits(s: Seq<char>) -> bool {
    forall|i: int| 0 <= i < s.len() ==> '0' <= #[trigger] s[i] && s[i] <= '9'
}

/// The number a run of decimal digits spells.
pub open spec fn digits_value(s: Seq<char>) -> nat
    decreases s.len(),
{
    if s.len() == 0 {
        0
    } else {
        digits_value(s.drop_last()) * 10 + ((s.last() as nat) - ('0' as nat)) as nat
    }
}

/// The `u64` a text spells as `str::parse` reads it: an optional `+`, then
/// at least one decimal digit, with a value that fits.
pub open spec fn u64_text(s: Seq<char>) -> Option<u64> {
    let d = if s.len() > 0 && s[0] == '+' {
        s.drop_first()
    } else {
        s
    };
    if d.len() > 0 && all_digits(d) && digits_value(d) <= u64::MAX {
        Some(digits_value(d) as u64)
    } else {
        None
    }
}

proof fn lemma_decimal_value(n: nat)
    ensures
        all_digits(decimal(n)),
        digits_value(decimal(n)) == n,
    decreases n,
{
    crate::text::lemma_decimal_digits(n);
    let d = decimal(n);
    let c = crate::text::digit_char(n % 10);
    assert(c as nat == 48 + n % 10);
    assert(('0' as nat) == 48);
    assert(n == (n / 10) * 10 + n % 10);
    if n >= 10 {
        lemma_decimal_value(n / 10);
        assert(d.drop_last() =~= decimal(n / 10));
        assert(d.last() == c);
    } else {
        assert(d.drop_last() =~= Seq::<char>::empty());
        assert(digits_value(d.drop_last()) == 0);
        assert(d.last() == c);
        assert(n / 10 == 0);
    }
    assert(digits_value(d) == digits_value(d.drop_last()) * 10 + ((d.last() as nat) - ('0' as nat)) as nat);
}

/// Number law: a `u64` written in decimal reads back as itself, so a
/// number the cache writes out (a timestamp, a size) is the number it reads
/// in.
pub proof fn lemma_u64_text_round_trip(n: u64)
    ensures
        u64_text(decimal(n as nat)) == Some(n),
{
    lemma_decimal_value(n as nat);
    crate::text::lemma_decimal_digits(n as nat);
    assert(decimal(n as nat)[0] != '+');
}

proof fn lemma_digits_value_grows(s: Seq<char>, i: int, j: int)
    requires
        0 <= i <= j <= s.len(),
        all_digits(s),
    ensures
        digits_value(s.take(i)) <= digits_value(s.take(j)),
    decreases j - i,
{
    if i < j {
        lemma_digits_value_grows(s, i, j - 1);
        assert(s.take(j).drop_last() =~= s.take(j - 1));
        assert(s.take(j).last() == s[j - 1]);
    }
}

/// Parse a decimal `u64` as `str::parse` does.
pub fn parse_u64(s: &str) -> (r: Option<u64>)
    ensures
        r == u64_text(s@),
{
    let v = chars_vec(s);
    let start: usize = if v.len() > 0 && v[0] == '+' {
        1
    } else {
        0
    };
    let ghost d = if s@.len() > 0 && s@[0] == '+' {
        s@.drop_first()
    } else {
        s@
    };
    assert(d =~= v@.skip(start as int));
    if start == v.len() {
        return None;
    }
    let mut k: usize = start;
    while k < v.len()
        invariant
            start <= k <= v@.len(),
            d == v@.skip(start as int),
            u64_text(s@) == (if d.len() > 0 && all_digits(d) && digits_value(d) <= u64::MAX {
                Some(digits_value(d) as u64)
            } else {
                None
            }),
            forall|t: int| start <= t < k ==> '0' <= #[trigger] v@[t] && v@[t] <= '9',
        decreases v.len() - k,
    {
        if !('0' <= v[k] && v[k] <= '9') {
            proof {
                assert(d[k - start] == v@[k as int]);
                assert(!all_digits(d));
            }
            return None;
        }
        k += 1;
    }
    assert(all_digits(d)) by {
        assert forall|i: int| 0 <= i < d.len() implies '0' <= #[trigger] d[i] && d[i] <= '9' by {
            assert(d[i] == v@[i + start]);
        }
    }
    let mut value: u64 = 0;
    let mut i: usize = start;
    while i < v.len()
        invariant
            start <= i <= v@.len(),
            d == v@.skip(start as int),
            u64_text(s@) == (if d.len() > 0 && all_digits(d) && digits_value(d) <= u64::MAX {
                Some(digits_value(d) as u64)
            } else {
                None
            }),
            all_digits(d),
            value == digits_value(d.take(i - start)),
        decreases v.len() - i,
    {
        let ghost t = (i - start) as int;
        proof {
            assert(d.take(t + 1).drop_last() =~= d.take(t));
            assert(d.take(t + 1).last() == d[t]);
            assert(d[t] == v@[i as int]);
        }
        let digit = (v[i] as u32 - '0' as u32) as u64;
        if value > (u64::MAX - digit) / 10 {
            proof {
                assert(digits_value(d.take(t + 1)) > u64::MAX);
                lemma_digits_value_grows(d, t + 1, d.len() as int);
                assert(d.take(d.len() as int) =~= d);
                assert(digits_value(d) > u64::MAX);
            }
            return None;
        }
        value = value * 10 + digit;
        i += 1;
    }
    proof {
        assert(d.take(d.len() as int) =~= d);
    }
    Some(value)
}

/// A switch set in the environment: `1`, `true` or `yes`, whatever the case
/// and surrounding whitespace. An unset variable is off.
pub open spec fn truthy_text(raw: Option<Seq<char>>) -> bool {
    match raw {
        Some(t) => {
            let l = lower_seq(trim(t));
            l == "1"@ || l == "true"@ || l == "yes"@
        },
        None => false,
    }
}

pub fn truthy(raw: Option<&str>) -> (r: bool)
    ensures
        r == truthy_text(crate::text::opt_str_chars(raw)),
{
    match raw {
        Some(t) => {
            let l = to_ascii_lowercase(&chars_vec(trim_str(t).as_str()));
            crate::text::chars_eq_str(&l, "1") || crate::text::chars_eq_str(&l, "true")
                || crate::text::chars_eq_str(&l, "yes")
        },
        None => false,
    }
}

/// A number set in the environment, surrounding whitespace ignored.
pub open spec fn env_number(raw: Option<Seq<char>>) -> Option<u64> {
    match raw {
        Some(t) => u64_text(trim(t)),
        None => None,
    }
}

pub fn env_u64(raw: Option<&str>) -> (r: Option<u64>)
    ensures
        r == env_number(crate::text::opt_str_chars(raw)),
{
    match raw {
        Some(t) => parse_u64(trim_str(t).as_str()),
        None => None,
    }
}

/// `seg` appended to the path `base` as a further component.
pub open spec fn path_join(base: Seq<char>, seg: Seq<char>) -> Seq<char> {
    if base.len() == 0 {
        seg
    } else if base.last() == '/' {
        base + seg
    } else {
        base + "/"@ + seg
    }
}

pub fn join_path(base: &str, seg: &str) -> (r: String)
    ensures
        r@ == path_join(base@, seg@),
{
    let v = chars_vec(base);
    if v.len() == 0 {
        return owned(seg);
    }
    let mut out = owned(base);
    if v[v.len() - 1] != '/' {
        push_char(&mut out, '/');
        proof {
            reveal_strlit("/");
            assert(out@ =~= base@ + "/"@);
        }
    }
    push_str(&mut out, seg);
    out
}

/// What the environment says about the cache.
pub struct CacheEnv {
    /// `WEBTOOLS_NO_CACHE`.
    pub no_cache: Option<String>,
    /// `WEBTOOLS_CACHE_TTL`, in seconds.
    pub ttl: Option<String>,
    /// `WEBTOOLS_CACHE_DIR`, overriding the location entirely.
    pub dir: Option<String>,
    /// `XDG_CACHE_HOME`.
    pub xdg_cache_home: Option<String>,
    /// `HOME`.
    pub home: Option<String>,
    /// Whether the platform keeps caches under `Library/Caches`.
    pub macos: bool,
}

/// Where the cache lives: `WEBTOOLS_CACHE_DIR` when set and not empty, else
/// `webtools/fetch` under an absolute `XDG_CACHE_HOME`, else under the
/// platform's usual spot in `HOME`; nowhere when there is no home either.
pub open spec fn dir_of(env: CacheEnv) -> Option<Seq<char>> {
    if env.dir matches Some(d) && d@.len() > 0 {
        Some(env.dir.unwrap()@)
    } else if env.xdg_cache_home matches Some(x) && x@.len() > 0 && x@[0] == '/' {
        Some(path_join(path_join(env.xdg_cache_home.unwrap()@, "webtools"@), "fetch"@))
    } else {
        match env.home {
            None => None,
            Some(h) => if h@.len() == 0 {
                None
            } else {
                let base = if env.macos {
                    path_join(path_join(h@, "Library"@), "Caches"@)
                } else {
                    path_join(h@, ".cache"@)
                };
                Some(path_join(path_join(base, "webtools"@), "fetch"@))
            },
        }
    }
}

pub fn cache_dir(env: &CacheEnv) -> (r: Option<String>)
    ensures
        crate::text::opt_chars(r) == dir_of(*env),
{
    if let Some(d) = &env.dir {
        if !d.as_str().is_empty() {
            return Some(owned(d.as_str()));
        }
    }
    if let Some(x) = &env.xdg_cache_home {
        let v = chars_vec(x.as_str());
        if v.len() > 0 && v[0] == '/' {
            let a = join_path(x.as_str(), "webtools");
            return Some(join_path(a.as_str(), "fetch"));
        }
    }
    match &env.home {
        None => None,
        Some(h) => {
            if h.as_str().is_empty() {
                return None;
            }
            let base = if env.macos {
                let l = join_path(h.as_str(), "Library");
                join_path(l.as_str(), "Caches")
            } else {
                join_path(h.as_str(), ".cache")
            };
            let w = join_path(base.as_str(), "webtools");
            Some(join_path(w.as_str(), "fetch"))
        },
    }
}

/// The cache: where entries live (none when it is off or has nowhere to
/// write, in which case it stores and serves nothing) and how long they stay
/// fresh.
pub struct Cache {
    dir: Option<String>,
    ttl_secs: u64,
}

impl Cache {
    pub closed spec fn dir_view(&self) -> Option<Seq<char>> {
        crate::text::opt_chars(self.dir)
    }

    pub closed spec fn ttl(&self) -> u64 {
        self.ttl_secs
    }

    /// The directory entries live in, if any.
    pub fn dir(&self) -> (r: Option<&str>)
        ensures
            crate::text::opt_str_chars(r) == self.dir_view(),
    {
        match &self.dir {
            Some(d) => Some(d.as_str()),
            None => None,
        }
    }

    /// How long an entry stays fresh, in seconds.
    pub fn ttl_secs(&self) -> (r: u64)
        ensures
            r == self.ttl(),
    {
        self.ttl_secs
    }

    /// Resolve the cache from the flag, the environment, the configuration
    /// and the defaults, in that order. A disabled cache has no directory.
    pub fn resolve(disabled_by_flag: bool, configured_ttl: Option<u64>, env: &CacheEnv) -> (r: Self)
        ensures
            ({
                let ttl = ttl_of(
                    disabled_by_flag,
                    truthy_text(crate::text::opt_chars(env.no_cache)),
                    env_number(crate::text::opt_chars(env.ttl)),
                    configured_ttl,
                );
                match ttl {
                    Some(t) => r.ttl() == t && r.dir_view() == dir_of(*env),
                    None => r.ttl() == 0 && r.dir_view() is None,
                }
            }),
    {
        let off = truthy(match &env.no_cache {
            Some(t) => Some(t.as_str()),
            None => None,
        });
        let env_ttl = env_u64(match &env.ttl {
            Some(t) => Some(t.as_str()),
            None => None,
        });
        match effective_ttl(disabled_by_flag, off, env_ttl, configured_ttl) {
            Some(ttl_secs) => Cache { dir: cache_dir(env), ttl_secs },
            None => Cache { dir: None, ttl_secs: 0 },
        }
    }

    /// The file an entry for `url` lives in: its FNV-1a key in hexadecimal,
    /// under the cache directory.
    pub fn path_for(&self, url: &str) -> (r: Option<String>)
        ensures
            crate::text::opt_chars(r) == (match self.dir_view() {
                Some(d) => Some(path_join(d, hex_digits(fnv_of(bytes_of(url@)), 16) + ".json"@)),
                None => None,
            }),
    {
        match &self.dir {
            None => None,
            Some(d) => {
                let mut name = hex16(fnv1a(url));
                push_str(&mut name, ".json");
                Some(join_path(d.as_str(), name.as_str()))
            },
        }
    }

    /// Judge a stored entry against a request at time `now` (Unix seconds):
    /// another URL's entry is a miss; one older than the freshness window
    /// has expired; otherwise its page is served.
    pub fn lookup(&self, entry: Entry, url: &str, now: u64) -> (r: Lookup)
        ensures
            entry.url@ != url@ ==> r is Miss,
            entry.url@ == url@ && age(now, entry.fetched_at) > self.ttl() ==> r is Expired,
            entry.url@ == url@ && age(now, entry.fetched_at) <= self.ttl() ==> (r matches Lookup::Hit(p)
                && p.body == entry.body && p.final_url == entry.final_url && p.content_type
                == entry.content_type && p.undecodable_charset == entry.undecodable_charset),
    {
        if !str_eq(entry.url.as_str(), url) {
            return Lookup::Miss;
        }
        if now.saturating_sub(entry.fetched_at) > self.ttl_secs {
            return Lookup::Expired;
        }
        Lookup::Hit(
            FetchedPage {
                body: entry.body,
                final_url: entry.final_url,
                content_type: entry.content_type,
                undecodable_charset: entry.undecodable_charset,
            },
        )
    }

    /// Which of the listed entry files (their modification times, in
    /// listing order) a prune removes at time `now`: every expired one, and
    /// when more than [`MAX_ENTRIES`] are still live, the oldest of those
    /// beyond the bound (equal times in listing order).
    pub fn prune_plan(&self, modified: &[u64], now: u64) -> (r: Vec<bool>)
        ensures
            r@.len() == modified@.len(),
            forall|i: int| 0 <= i < r@.len() ==> #[trigger] r@[i] == removed(modified@, now, self.ttl(), i),
    {
        let ttl = self.ttl_secs;
        let n = modified.len();
        let mut live: usize = 0;
        let mut k: usize = 0;
        while k < n
            invariant
                k <= n == modified@.len(),
                live == live_count(modified@, now, ttl, k as int),
                live <= k,
            decreases n - k,
        {
            if !(now.saturating_sub(modified[k]) > ttl) {
                live += 1;
            }
            k += 1;
        }
        let mut out: Vec<bool> = Vec::new();
        let mut i: usize = 0;
        while i < n
            invariant
                i <= n == modified@.len(),
                live == live_count(modified@, now, ttl, n as int),
                ttl == self.ttl(),
                out@.len() == i,
                forall|t: int| 0 <= t < i ==> #[trigger] out@[t] == removed(modified@, now, ttl, t),
            decreases n - i,
        {
            if now.saturating_sub(modified[i]) > ttl {
                out.push(true);
            } else {
                let mut rank: usize = 0;
                let mut j: usize = 0;
                while j < n
                    invariant
                        i < n == modified@.len(),
                        j <= n,
                        rank == rank_of(modified@, now, ttl, i as int, j as int),
                        rank <= j,
                    decreases n - j,
                {
                    if !(now.saturating_sub(modified[j]) > ttl) && (modified[j] < modified[i] || (
                    modified[j] == modified[i] && j < i)) {
                        rank += 1;
                    }
                    j += 1;
                }
                out.push(live > MAX_ENTRIES && rank < live - MAX_ENTRIES);
            }
            i += 1;
        }
        out
    }
}

/// Seconds since `then`, or none when `then` is in the future.
pub open spec fn age(now: u64, then: u64) -> u64 {
    if now > then {
        (now - then) as u64
    } else {
        0
    }
}

/// An entry stored longer ago than the freshness window.
pub open spec fn expired(m: u64, now: u64, ttl: u64) -> bool {
    age(now, m) > ttl
}

/// How many of the first `k` entries are still fresh.
pub open spec fn live_count(ms: Seq<u64>, now: u64, ttl: u64, k: int) -> nat
    decreases k,
{
    if k <= 0 {
        0
    } else {
        live_count(ms, now, ttl, k - 1) + if !expired(ms[k - 1], now, ttl) {
            1nat
        } else {
            0nat
        }
    }
}

/// Entry `j` sorts before entry `i`: older, or as old and listed earlier.
pub open spec fn sorts_before(ms: Seq<u64>, j: int, i: int) -> bool {
    ms[j] < ms[i] || (ms[j] == ms[i] && j < i)
}

/// How many fresh entries among the first `k` sort before entry `i`.
pub open spec fn rank_of(ms: Seq<u64>, now: u64, ttl: u64, i: int, k: int) -> nat
    decreases k,
{
    if k <= 0 {
        0
    } else {
        rank_of(ms, now, ttl, i, k - 1) + if !expired(ms[k - 1], now, ttl) && sorts_before(ms, k - 1, i) {
            1nat
        } else {
            0nat
        }
    }
}

/// Does a prune remove entry `i`?
pub open spec fn removed(ms: Seq<u64>, now: u64, ttl: u64, i: int) -> bool {
    let live = live_count(ms, now, ttl, ms.len() as int);
    expired(ms[i], now, ttl) || (live > MAX_ENTRIES && rank_of(ms, now, ttl, i, ms.len() as int) < live
        - MAX_ENTRIES)
}

/// A stored entry, as read back from its file.
pub struct Entry {
    /// The requested URL; a hash collision then reads as a miss.
    pub url: String,
    /// Unix seconds at which the page was fetched.
    pub fetched_at: u64,
    pub final_url: String,
    pub content_type: Option<String>,
    pub undecodable_charset: Option<String>,
    pub body: String,
}

/// What a stored entry means for a request.
pub enum Lookup {
    /// The entry's page, still fresh.
    Hit(FetchedPage),
    /// The entry is another URL's.
    Miss,
    /// The entry is too old; it should be removed.
    Expired,
}

/// Is a directory entry with this file name a cache entry: a name whose
/// extension (after its last dot, which does not begin the name) is `json`?
pub open spec fn entry_file(name: Seq<char>) -> bool {
    exists|k: int|
        0 < k < name.len() && #[trigger] name[k] == '.' && name.skip(k + 1) == "json"@ && (forall|t: int|
            k < t < name.len() ==> name[t] != '.')
}

pub fn is_entry_file(name: &str) -> (r: bool)
    ensures
        r == entry_file(name@),
{
    let v = chars_vec(name);
    let mut k: usize = v.len();
    while k > 0
        invariant
            k <= v@.len(),
            v@ == name@,
            forall|t: int| k <= t < v@.len() ==> v@[t] != '.',
        decreases k,
    {
        if v[k - 1] == '.' {
            let dot = k - 1;
            if dot == 0 {
                assert forall|d: int| 0 < d < name@.len() && #[trigger] name@[d] == '.' implies !(
                name@.skip(d + 1) == "json"@ && (forall|t: int| d < t < name@.len() ==> name@[t] != '.')) by {
                    assert(d >= k);
                }
                return false;
            }
            let rest = string_of_tail(&v, dot + 1);
            let ok = crate::text::chars_eq_str(&rest, "json");
            proof {
                if !ok {
                    assert forall|d: int| 0 < d < name@.len() && #[trigger] name@[d] == '.' implies !(
                    name@.skip(d + 1) == "json"@ && (forall|t: int| d < t < name@.len() ==> name@[t] != '.')) by {
                        if d != dot {
                            if d < dot {
                                assert(name@[dot as int] == '.');
                            }
                        }
                    }
                }
            }
            return ok;
        }
        k -= 1;
    }
    assert forall|d: int| 0 < d < name@.len() && #[trigger] name@[d] == '.' implies !(name@.skip(d + 1)
        == "json"@ && (forall|t: int| d < t < name@.len() ==> name@[t] != '.')) by {}
    false
}

fn string_of_tail(v: &Vec<char>, from: usize) -> (r: Vec<char>)
    requires
        from <= v@.len(),
    ensures
        r@ == v@.skip(from as int),
{
    let mut r: Vec<char> = Vec::new();
    let mut i = from;
    while i < v.len()
        invariant
            from <= i <= v@.len(),
            r@ == v@.subrange(from as int, i as int),
        decreases v.len() - i,
    {
        r.push(v[i]);
        i += 1;
    }
    r
}

proof fn lemma_rank_order(ms: Seq<u64>, now: u64, ttl: u64, i: int, j: int, k: int)
    requires
        0 <= i < ms.len(),
        0 <= j < ms.len(),
        0 <= k <= ms.len(),
        sorts_before(ms, j, i),
        !expired(ms[j], now, ttl),
    ensures
        rank_of(ms, now, ttl, i, k) >= rank_of(ms, now, ttl, j, k) + (if j < k {
            1int
        } else {
            0int
        }),
    decreases k,
{
    if k > 0 {
        lemma_rank_order(ms, now, ttl, i, j, k - 1);
    }
}

/// A prune evicts the oldest fresh entries: every fresh entry it removes is
/// no newer than every entry it keeps.
pub proof fn lemma_prune_evicts_oldest(ms: Seq<u64>, now: u64, ttl: u64, i: int, j: int)
    requires
        0 <= i < ms.len(),
        0 <= j < ms.len(),
        !expired(ms[i], now, ttl),
        removed(ms, now, ttl, i),
        !removed(ms, now, ttl, j),
    ensures
        ms[i] <= ms[j],
{
    if ms[j] < ms[i] {
        lemma_rank_order(ms, now, ttl, i, j, ms.len() as int);
    }
}

/// The entries a prune keeps.
pub open spec fn kept_set(ms: Seq<u64>, now: u64, ttl: u64) -> Set<int> {
    Set::new(|i: int| 0 <= i < ms.len() && !removed(ms, now, ttl, i))
}

/// The fresh entries among the first `k`.
pub open spec fn live_set(ms: Seq<u64>, now: u64, ttl: u64, k: int) -> Set<int> {
    Set::new(|i: int| 0 <= i < k && !expired(ms[i], now, ttl))
}

proof fn lemma_live_set_len(ms: Seq<u64>, now: u64, ttl: u64, k: int)
    requires
        0 <= k <= ms.len(),
    ensures
        live_set(ms, now, ttl, k).finite(),
        live_set(ms, now, ttl, k).len() == live_count(ms, now, ttl, k),
    decreases k,
{
    if k == 0 {
        assert(live_set(ms, now, ttl, k) =~= Set::<int>::empty());
    } else {
        lemma_live_set_len(ms, now, ttl, k - 1);
        let prev = live_set(ms, now, ttl, k - 1);
        if !expired(ms[k - 1], now, ttl) {
            assert(live_set(ms, now, ttl, k) =~= prev.insert(k - 1));
            assert(!prev.contains(k - 1));
        } else {
            assert(live_set(ms, now, ttl, k) =~= prev);
        }
    }
}

proof fn lemma_rank_below_live(ms: Seq<u64>, now: u64, ttl: u64, i: int, k: int)
    requires
        0 <= i < ms.len(),
        0 <= k <= ms.len(),
    ensures
        rank_of(ms, now, ttl, i, k) + (if i < k && !expired(ms[i], now, ttl) {
            1int
        } else {
            0int
        }) <= live_count(ms, now, ttl, k),
    decreases k,
{
    if k > 0 {
        lemma_rank_below_live(ms, now, ttl, i, k - 1);
    }
}

/// A prune leaves at most [`MAX_ENTRIES`] entries behind.
pub proof fn lemma_prune_keeps_at_most_max(ms: Seq<u64>, now: u64, ttl: u64)
    ensures
        kept_set(ms, now, ttl).finite(),
        kept_set(ms, now, ttl).len() <= MAX_ENTRIES,
{
    let n = ms.len() as int;
    let live = live_count(ms, now, ttl, n);
    let kept = kept_set(ms, now, ttl);
    lemma_live_set_len(ms, now, ttl, n);
    let lset = live_set(ms, now, ttl, n);
    assert(kept.subset_of(lset));
    vstd::set_lib::lemma_len_subset(kept, lset);
    if live > MAX_ENTRIES {
        let f = |i: int| rank_of(ms, now, ttl, i, n) as int;
        let lo = live - MAX_ENTRIES;
        let range = vstd::set_lib::set_int_range(lo, live as int);
        vstd::set_lib::lemma_int_range(lo, live as int);
        assert(kept.map(f).subset_of(range)) by {
            assert forall|r: int| kept.map(f).contains(r) implies range.contains(r) by {
                let i = choose|i: int| kept.contains(i) && f(i) == r;
                lemma_rank_below_live(ms, now, ttl, i, n);
            }
        }
        assert(vstd::relations::injective_on(f, kept)) by {
            assert forall|i: int, j: int| kept.contains(i) && kept.contains(j) && #[trigger] f(i) == #[trigger] f(j) implies i == j by {
                if i != j {
                    if sorts_before(ms, j, i) {
                        lemma_rank_order(ms, now, ttl, i, j, n);
                    } else {
                        lemma_rank_order(ms, now, ttl, j, i, n);
                    }
                }
            }
        }
        vstd::set_lib::lemma_map_size(kept, kept.map(f), f);
        vstd::set_lib::lemma_len_subset(kept.map(f), range);
    }
}

} // verus!
