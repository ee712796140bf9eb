//! TLS trust configuration carried by fetch and search options.
//!
//! The operating system's trust store is always honoured by the HTTP client;
//! this carries the explicit, opt-in overrides: extra PEM bundles and the
//! last-resort switch that disables verification.

use vstd::prelude::*;

verus! {

/// How an HTTP client should establish TLS trust.
#[derive(Debug, Clone)]
pub struct TlsConfig {
    /// Paths of extra PEM trust anchors (each file may hold several).
    pub ca_certs: Vec<String>,
    /// Disable certificate verification entirely. Last resort.
    pub insecure: bool,
}

impl Default for TlsConfig {
    fn default() -> (r: Self)
        ensures
            r.ca_certs@.len() == 0,
            !r.insecure,
    {
        TlsConfig { ca_certs: Vec::new(), insecure: false }
    }
}

/// The characters of each path, in order.
pub open spec fn paths_view(v: Seq<String>) -> Seq<Seq<char>> {
    v.map_values(|s: String| s@)
}

proof fn lemma_paths_push(v: Seq<String>, x: String)
    ensures
        paths_view(v.push(x)) == paths_view(v).push(x@),
{
    assert(paths_view(v.push(x)) =~= paths_view(v).push(x@));
}

/// Merge the paths configured in the settings file with those given as
/// flags: configured paths first, then the flags, nothing dropped.
pub fn tls_config(flag_certs: Vec<String>, insecure: bool, configured: &Vec<String>) -> (r: TlsConfig)
    ensures
        paths_view(r.ca_certs@) == paths_view(configured@) + paths_view(flag_certs@),
        r.insecure == insecure,
{
    let mut ca_certs: Vec<String> = Vec::new();
    let mut i: usize = 0;
    while i < configured.len()
        invariant
            i <= configured@.len(),
            paths_view(ca_certs@) == paths_view(configured@.take(i as int)),
        decreases configured.len() - i,
    {
        let ghost before = ca_certs@;
        ca_certs.push(configured[i].clone());
        proof {
            assert(configured@.take(i + 1) == configured@.take(i as int).push(configured@[i as int]));
            lemma_paths_push(before, configured@[i as int]);
            lemma_paths_push(configured@.take(i as int), configured@[i as int]);
        }
        i += 1;
    }
    let ghost base = ca_certs@;
    let mut j: usize = 0;
    while j < flag_certs.len()
        invariant
            j <= flag_certs@.len(),
            paths_view(ca_certs@) == paths_view(base) + paths_view(flag_certs@.take(j as int)),
        decreases flag_certs.len() - j,
    {
        let ghost before = ca_certs@;
        ca_certs.push(flag_certs[j].clone());
        proof {
            assert(flag_certs@.take(j + 1) == flag_certs@.take(j as int).push(flag_certs@[j as int]));
            lemma_paths_push(before, flag_certs@[j as int]);
            lemma_paths_push(flag_certs@.take(j as int), flag_certs@[j as int]);
            assert(paths_view(ca_certs@) =~= paths_view(base) + paths_view(flag_certs@.take(j + 1)));
        }
        j += 1;
    }
    proof {
        assert(configured@.take(configured@.len() as int) =~= configured@);
        assert(flag_certs@.take(flag_certs@.len() as int) =~= flag_certs@);
    }
    TlsConfig { ca_certs, insecure }
}

} // verus!
