//! Collecting the links a walk encounters: resolving each href against the
//! page's URL and giving every distinct destination one stable index.

use vstd::prelude::*;

use crate::charset::{find_char, lemma_find_char_at};
use crate::text::{chars_vec, chars_eq_str, lower_seq, opt_chars, owned, string_of_range, to_ascii_lowercase, trim, trim_str};
use crate::types::{urefs_view, UrlRefV, UrlReference};

verus! {

/// The serialization of the URL the `url` crate parses from `s`, if it
/// parses.
pub uninterp spec fn url_serialized(s: Seq<char>) -> Option<Seq<char>>;

/// The serialization of `href` resolved against the URL parsed from `base`,
/// if both steps succeed.
pub uninterp spec fn url_joined(base: Seq<char>, href: Seq<char>) -> Option<Seq<char>>;

/// Wraps `url::Url::parse` followed by `to_string`. The contract claims only
/// that the result depends on `s` alone.
#[verifier::external_body]
pub(crate) fn parse_url(s: &str) -> (r: Option<String>)
    ensures
        opt_chars(r) == url_serialized(s@),
{
    url::Url::parse(s).ok().map(|u| u.to_string())
}

/// Wraps `url::Url::parse` of `base`, `Url::join` of `href`, and `to_string`.
/// The contract claims only that the result depends on the two arguments.
#[verifier::external_body]
pub(crate) fn join_url(base: &str, href: &str) -> (r: Option<String>)
    ensures
        opt_chars(r) == url_joined(base@, href@),
{
    url::Url::parse(base).ok()?.join(href).ok().map(|u| u.to_string())
}

/// The part of an href before its first `:` (all of it when there is none).
pub open spec fn scheme_part(h: Seq<char>) -> Seq<char> {
    h.take(find_char(h, ':') as int)
}

/// Schemes with nothing to fetch.
pub open spec fn unfetchable(scheme: Seq<char>) -> bool {
    scheme == "javascript"@ || scheme == "mailto"@ || scheme == "data"@ || scheme == "tel"@
}

/// Where an href points, or `None` when it earns no reference: an in-page
/// anchor, an empty href, or a scheme with nothing to fetch. Otherwise the
/// trimmed href resolved against the page's URL, or parsed on its own when
/// the page has no usable URL.
pub open spec fn resolve_href(base: Seq<char>, base_ok: bool, href: Seq<char>) -> Option<Seq<char>> {
    let h = trim(href);
    if h.len() == 0 || h[0] == '#' {
        None
    } else if unfetchable(lower_seq(scheme_part(h))) {
        None
    } else if base_ok {
        url_joined(base, h)
    } else {
        url_serialized(h)
    }
}

/// Only a fetchable href resolves: one that, trimmed, is neither empty nor an
/// in-page anchor and whose scheme has something to fetch.
pub proof fn lemma_resolved_href_is_fetchable(base: Seq<char>, base_ok: bool, href: Seq<char>)
    ensures
        resolve_href(base, base_ok, href) is Some ==> {
            let h = trim(href);
            &&& h.len() > 0
            &&& h[0] != '#'
            &&& !unfetchable(lower_seq(scheme_part(h)))
        },
{
}

/// The first position of a reference to `url`, searching from `i`.
pub open spec fn ref_slot_from(refs: Seq<UrlRefV>, url: Seq<char>, i: int) -> Option<int>
    decreases refs.len() - i,
{
    if i < 0 || i >= refs.len() {
        None
    } else if refs[i].url == url {
        Some(i)
    } else {
        ref_slot_from(refs, url, i + 1)
    }
}

/// The position of the reference to `url`, if there is one.
pub open spec fn ref_slot(refs: Seq<UrlRefV>, url: Seq<char>) -> Option<int> {
    ref_slot_from(refs, url, 0)
}

proof fn lemma_ref_slot_from(refs: Seq<UrlRefV>, url: Seq<char>, i: int)
    requires
        0 <= i,
    ensures
        ref_slot_from(refs, url, i) matches Some(k) ==> i <= k < refs.len() && refs[k].url == url,
        ref_slot_from(refs, url, i) is None ==> forall|m: int|
            i <= m < refs.len() ==> #[trigger] refs[m].url != url,
    decreases refs.len() - i,
{
    if i < refs.len() && refs[i].url != url {
        lemma_ref_slot_from(refs, url, i + 1);
    }
}

/// Where a URL is found, it is listed.
pub proof fn lemma_ref_slot(refs: Seq<UrlRefV>, url: Seq<char>)
    ensures
        ref_slot(refs, url) matches Some(k) ==> 0 <= k < refs.len() && refs[k].url == url,
{
    lemma_ref_slot_from(refs, url, 0);
}

/// The index a link to `url` gets, and the references after it: a URL
/// already listed keeps its index; a new one is appended with the next index
/// and the trimmed anchor text.
pub open spec fn with_ref(refs: Seq<UrlRefV>, url: Seq<char>, text: Seq<char>) -> (usize, Seq<UrlRefV>) {
    match ref_slot(refs, url) {
        Some(k) => (refs[k].index, refs),
        None => (
            (refs.len() + 1) as usize,
            refs.push(UrlRefV { index: (refs.len() + 1) as usize, url, text: trim(text) }),
        ),
    }
}

/// References numbered 1, 2, ... in order, each URL listed once.
pub open spec fn refs_wf(refs: Seq<UrlRefV>) -> bool {
    &&& forall|i: int| 0 <= i < refs.len() ==> #[trigger] refs[i].index == i + 1
    &&& forall|i: int, j: int| 0 <= i < j < refs.len() ==> #[trigger] refs[i].url != #[trigger] refs[j].url
}

/// Collects and de-duplicates the links a walk encounters.
pub struct RefCollector {
    references: Vec<UrlReference>,
    base: String,
    base_ok: bool,
}

impl RefCollector {
    /// The page URL links are resolved against.
    pub closed spec fn base(&self) -> Seq<char> {
        self.base@
    }

    /// Whether the page URL parses.
    pub closed spec fn base_ok(&self) -> bool {
        self.base_ok
    }

    /// The references collected so far.
    pub closed spec fn refs(&self) -> Seq<UrlRefV> {
        urefs_view(self.references@)
    }

    /// The references collected, in index order.
    pub fn into_references(self) -> (r: Vec<UrlReference>)
        ensures
            urefs_view(r@) == self.refs(),
    {
        self.references
    }

    /// A collector for links on the page at `base_url`.
    pub fn new(base_url: &str) -> (r: Self)
        ensures
            r.refs().len() == 0,
            r.base() == base_url@,
            r.base_ok() == url_serialized(base_url@) is Some,
    {
        let parsed = parse_url(base_url);
        RefCollector { references: Vec::new(), base: owned(base_url), base_ok: parsed.is_some() }
    }

    /// Resolve a possibly-relative href against the page's base URL.
    pub fn resolve(&self, href: &str) -> (r: Option<String>)
        ensures
            opt_chars(r) == resolve_href(self.base(), self.base_ok(), href@),
    {
        let h = trim_str(href);
        let hv = chars_vec(h.as_str());
        if hv.len() == 0 || hv[0] == '#' {
            return None;
        }
        let mut c: usize = 0;
        while c < hv.len() && hv[c] != ':'
            invariant
                c <= hv@.len(),
                forall|k: int| 0 <= k < c ==> #[trigger] hv@[k] != ':',
            decreases hv.len() - c,
        {
            c += 1;
        }
        proof {
            lemma_find_char_at(hv@, ':', c as int);
        }
        let pre = string_of_range(&hv, 0, c);
        let scheme = to_ascii_lowercase(&chars_vec(pre.as_str()));
        if chars_eq_str(&scheme, "javascript") || chars_eq_str(&scheme, "mailto") || chars_eq_str(
            &scheme,
            "data",
        ) || chars_eq_str(&scheme, "tel") {
            return None;
        }
        if self.base_ok {
            join_url(self.base.as_str(), h.as_str())
        } else {
            parse_url(h.as_str())
        }
    }

    /// The reference index for a URL, assigning the next one if unseen.
    pub fn index_for(&mut self, url: String, text: &str) -> (idx: usize)
        requires
            refs_wf(old(self).refs()),
            old(self).refs().len() < usize::MAX,
        ensures
            (idx, final(self).refs()) == with_ref(old(self).refs(), url@, text@),
            refs_wf(final(self).refs()),
            final(self).base() == old(self).base(),
            final(self).base_ok() == old(self).base_ok(),
    {
        let ghost r0 = self.refs();
        let mut i: usize = 0;
        while i < self.references.len()
            invariant
                r0 == self.refs(),
                refs_wf(r0),
                self.base() == old(self).base(),
                self.base_ok() == old(self).base_ok(),
                i <= r0.len(),
                ref_slot(r0, url@) == ref_slot_from(r0, url@, i as int),
            decreases self.references.len() - i,
        {
            if self.references[i].url == url {
                return self.references[i].index;
            }
            i += 1;
        }
        proof {
            lemma_ref_slot_from(r0, url@, 0);
        }
        let idx = self.references.len() + 1;
        let t = trim_str(text);
        self.references.push(UrlReference { index: idx, url, text: t });
        proof {
            assert(self.refs() =~= r0.push(UrlRefV { index: idx, url: url@, text: trim(text@) }));
        }
        idx
    }
}

} // verus!
