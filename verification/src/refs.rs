//! Reference-style URL preservation.
//!
//! Both the fetch path and the search path cite URLs with inline `[N]` markers
//! and collect the full URLs into a trailing block. This module owns the one
//! canonical rendering of that block, and the budgeting rule that keeps the
//! block and the body it belongs to inside a token cap together.

use std::collections::BTreeSet;

use vstd::prelude::*;
use vstd::utf8::*;

use crate::compress::{
    consumed, estimate_tokens, join_lines, lemma_truncated_is_cut, lemma_truncation_fits_budget,
    marker_bytes, tokens, truncate_to_tokens, truncated,
};
use crate::text::{bytes_of, decimal, lemma_trail_ws_at, lemma_trail_ws_bound, push_char, push_str, trail_ws, is_whitespace, is_ws, chars_vec, string_of_range, owned, usize_to_string};

verus! {

broadcast use encode_utf8_valid_utf8;

/// Anything that can be listed in a reference block: an index and a URL.
pub trait Referable {
    spec fn ref_index(&self) -> usize;

    spec fn ref_url(&self) -> Seq<char>;

    fn index(&self) -> (r: usize)
        ensures
            r == self.ref_index(),
    ;

    fn url(&self) -> (r: &str)
        ensures
            r@ == self.ref_url(),
    ;
}

/// A slim reference entry (index → URL) for an output's reference block.
#[derive(Debug, Clone, PartialEq, Eq)]
pub struct Reference {
    pub index: usize,
    pub url: String,
}

impl Referable for Reference {
    open spec fn ref_index(&self) -> usize {
        self.index
    }

    open spec fn ref_url(&self) -> Seq<char> {
        self.url@
    }

    fn index(&self) -> (r: usize) {
        self.index
    }

    fn url(&self) -> (r: &str) {
        self.url.as_str()
    }
}

/// The index and URL of a reference: all the budget and the block read.
pub type RefV = (usize, Seq<char>);

/// The index and URL of each reference.
pub open spec fn pairs<T: Referable>(s: Seq<T>) -> Seq<RefV> {
    s.map_values(|r: T| (r.ref_index(), r.ref_url()))
}

/// One line of the block: `[N] url` and a newline.
pub open spec fn ref_line(index: usize, url: Seq<char>) -> Seq<char> {
    seq!['['] + decimal(index as nat) + seq![']', ' '] + url + seq!['\n']
}

/// The lines of every reference, in order.
pub open spec fn ref_lines(refs: Seq<RefV>) -> Seq<char>
    decreases refs.len(),
{
    if refs.len() == 0 {
        Seq::<char>::empty()
    } else {
        ref_lines(refs.drop_last()) + ref_line(refs.last().0, refs.last().1)
    }
}

/// `s` without trailing whitespace.
pub open spec fn trim_end(s: Seq<char>) -> Seq<char> {
    s.take(s.len() - trail_ws(s))
}

/// The canonical block: a `References:` header, then one `[N] url` line per
/// reference, without trailing whitespace; empty when there are none.
pub open spec fn block(refs: Seq<RefV>) -> Seq<char> {
    if refs.len() == 0 {
        Seq::<char>::empty()
    } else {
        trim_end("References:\n"@ + ref_lines(refs))
    }
}

/// `s` without trailing whitespace.
fn trim_end_string(s: &String) -> (r: String)
    ensures
        r@ == trim_end(s@),
{
    let v = chars_vec(s.as_str());
    let mut end = v.len();
    while end > 0 && is_whitespace(v[end - 1])
        invariant
            end <= v@.len(),
            forall|k: int| end <= k < v@.len() ==> is_ws(#[trigger] v@[k]),
        decreases end,
    {
        end -= 1;
    }
    proof {
        lemma_trail_ws_at(v@, end as int);
    }
    string_of_range(&v, 0, end)
}

/// The block for the references at positions `pos` of `refs`.
fn render_positions<T: Referable>(refs: &[T], pos: &Vec<usize>) -> (r: String)
    requires
        forall|k: int| 0 <= k < pos@.len() ==> #[trigger] pos@[k] < refs@.len(),
    ensures
        r@ == block(pos@.map_values(|p: usize| pairs(refs@)[p as int])),
{
    let ghost sel = pos@.map_values(|p: usize| pairs(refs@)[p as int]);
    if pos.len() == 0 {
        return String::new();
    }
    let mut s = String::new();
    push_str(&mut s, "References:\n");
    let mut i: usize = 0;
    while i < pos.len()
        invariant
            forall|k: int| 0 <= k < pos@.len() ==> #[trigger] pos@[k] < refs@.len(),
            sel == pos@.map_values(|p: usize| pairs(refs@)[p as int]),
            i <= pos@.len(),
            s@ == "References:\n"@ + ref_lines(sel.take(i as int)),
        decreases pos.len() - i,
    {
        let r = &refs[pos[i]];
        let ghost before = s@;
        push_char(&mut s, '[');
        let num = usize_to_string(r.index());
        push_str(&mut s, num.as_str());
        push_str(&mut s, "] ");
        push_str(&mut s, r.url());
        push_char(&mut s, '\n');
        proof {
            reveal_strlit("] ");
            assert(sel.take(i + 1).drop_last() =~= sel.take(i as int));
            assert(sel.take(i + 1).last() == pairs(refs@)[pos@[i as int] as int]);
            assert(s@ =~= before + ref_line(r.ref_index(), r.ref_url()));
        }
        i += 1;
    }
    proof {
        assert(sel.take(pos@.len() as int) =~= sel);
    }
    trim_end_string(&s)
}

/// Render references into the canonical block:
///
/// ```text
/// References:
/// [1] https://example.com/a
/// [2] https://example.com/b
/// ```
///
/// Returns an empty string when there are no references.
pub fn render_block<T: Referable>(references: &[T]) -> (r: String)
    ensures
        r@ == block(pairs(references@)),
{
    let mut pos: Vec<usize> = Vec::new();
    let mut i: usize = 0;
    while i < references.len()
        invariant
            i <= references@.len(),
            pos@.len() == i,
            forall|k: int| 0 <= k < i ==> #[trigger] pos@[k] == k,
        decreases references.len() - i,
    {
        pos.push(i);
        i += 1;
    }
    proof {
        assert(pos@.map_values(|p: usize| pairs(references@)[p as int]) =~= pairs(references@));
    }
    render_positions(references, &pos)
}

/// One reference as a line of the block, without its newline: `[N] url`.
pub open spec fn ref_item(r: RefV) -> Seq<char> {
    seq!['['] + decimal(r.0 as nat) + seq![']', ' '] + r.1
}

proof fn lemma_ref_lines_joined(refs: Seq<RefV>)
    requires
        refs.len() > 0,
    ensures
        ref_lines(refs) == join_lines(refs.map_values(|r: RefV| ref_item(r))).push('\n'),
    decreases refs.len(),
{
    let items = refs.map_values(|r: RefV| ref_item(r));
    if refs.len() == 1 {
        assert(refs.drop_last() =~= Seq::<RefV>::empty());
        assert(ref_lines(refs.drop_last()) == Seq::<char>::empty());
        assert(refs.last() == refs[0]);
        assert(ref_line(refs[0].0, refs[0].1) =~= ref_item(refs[0]).push('\n'));
        assert(ref_lines(refs) =~= ref_item(refs[0]).push('\n'));
    } else {
        lemma_ref_lines_joined(refs.drop_last());
        assert(refs.drop_last().map_values(|r: RefV| ref_item(r)) =~= items.drop_last());
        assert(ref_lines(refs) =~= join_lines(items).push('\n'));
    }
}

/// Block law: the block is the `References:` header and the `[N] url`
/// lines joined with newlines, without trailing whitespace; empty when
/// there are no references.
pub proof fn lemma_block_joined(refs: Seq<RefV>)
    ensures
        block(refs) == if refs.len() == 0 {
            Seq::<char>::empty()
        } else {
            trim_end("References:\n"@ + join_lines(refs.map_values(|r: RefV| ref_item(r))))
        },
{
    if refs.len() > 0 {
        lemma_ref_lines_joined(refs);
        let x = "References:\n"@ + join_lines(refs.map_values(|r: RefV| ref_item(r)));
        let y = "References:\n"@ + ref_lines(refs);
        assert(y =~= x.push('\n'));
        assert(y.drop_last() =~= x);
        assert(is_ws('\n'));
        assert(trail_ws(y) == 1 + trail_ws(x));
        lemma_trail_ws_bound(x);
        assert(trim_end(y) =~= trim_end(x));
    }
}

/// Is this byte an ASCII digit?
pub open spec fn is_digit(b: u8) -> bool {
    0x30 <= b <= 0x39
}

/// The decimal value of a run of digits.
pub open spec fn digits_value(d: Seq<u8>) -> nat
    decreases d.len(),
{
    if d.len() == 0 {
        0
    } else {
        digits_value(d.drop_last()) * 10 + (d.last() - 0x30) as nat
    }
}

/// `b[i..=j]` is a `[N]` marker: `[`, one or more digits, `]`.
pub open spec fn marker_at(b: Seq<u8>, i: int, j: int) -> bool {
    &&& 0 <= i
    &&& i + 1 < j < b.len()
    &&& b[i] == 0x5b
    &&& b[j] == 0x5d
    &&& forall|k: int| i < k < j ==> is_digit(#[trigger] b[k])
}

/// Some marker starting before `lim` cites `v`.
pub open spec fn cites_before(b: Seq<u8>, v: usize, lim: int) -> bool {
    exists|i: int, j: int|
        #![trigger marker_at(b, i, j)]
        i < lim && marker_at(b, i, j) && digits_value(b.subrange(i + 1, j)) == v
}

/// The reference indices cited in a text: the value of every `[N]` marker
/// whose number fits a `usize`.
pub open spec fn cited_set(b: Seq<u8>) -> Set<usize> {
    Set::new(|v: usize| cites_before(b, v, b.len() as int))
}

/// Citation law: `v` is cited exactly when some `[`, a run of one or more
/// ASCII digits worth `v`, and `]` stand next to each other in the text.
pub proof fn lemma_cited_form(b: Seq<u8>, v: usize)
    ensures
        cited_set(b).contains(v) <==> exists|i: int, j: int|
            #![trigger b[i], b[j]]
            0 <= i && i + 1 < j < b.len() && b[i] == 0x5b && b[j] == 0x5d && (forall|k: int|
                i < k < j ==> is_digit(#[trigger] b[k])) && digits_value(b.subrange(i + 1, j)) == v,
{
    if cited_set(b).contains(v) {
        let (i, j) = choose|i: int, j: int|
            #![trigger marker_at(b, i, j)]
            i < b.len() && marker_at(b, i, j) && digits_value(b.subrange(i + 1, j)) == v;
        assert(b[i] == 0x5b && b[j] == 0x5d);
    }
    if exists|i: int, j: int|
        #![trigger b[i], b[j]]
        0 <= i && i + 1 < j < b.len() && b[i] == 0x5b && b[j] == 0x5d && (forall|k: int|
            i < k < j ==> is_digit(#[trigger] b[k])) && digits_value(b.subrange(i + 1, j)) == v {
        let (i, j) = choose|i: int, j: int|
            #![trigger b[i], b[j]]
            0 <= i && i + 1 < j < b.len() && b[i] == 0x5b && b[j] == 0x5d && (forall|k: int|
                i < k < j ==> is_digit(#[trigger] b[k])) && digits_value(b.subrange(i + 1, j)) == v;
        assert(marker_at(b, i, j));
        assert(cites_before(b, v, b.len() as int));
    }
}

/// Collect the distinct `[N]` reference indices cited in `text`, in order.
pub fn cited_indices(text: &str) -> (out: BTreeSet<usize>)
    ensures
        out@ == cited_set(bytes_of(text@)),
{
    let mut out = BTreeSet::new();
    let bytes = text.as_bytes();
    let ghost b = bytes@;
    let mut i: usize = 0;
    while i < bytes.len()
        invariant
            b == bytes@,
            b == bytes_of(text@),
            i <= b.len(),
            forall|v: usize| #[trigger] out@.contains(v) <==> cites_before(b, v, i as int),
        decreases bytes.len() - i,
    {
        if bytes[i] != 0x5b {
            proof {
                assert forall|v: usize| cites_before(b, v, i + 1) implies cites_before(
                    b,
                    v,
                    i as int,
                ) by {
                    let (x, y) = choose|x: int, y: int|
                        #![trigger marker_at(b, x, y)]
                        x < i + 1 && marker_at(b, x, y) && digits_value(b.subrange(x + 1, y)) == v;
                    assert(x != i);
                }
                assert forall|v: usize| cites_before(b, v, i as int) implies cites_before(
                    b,
                    v,
                    i + 1,
                ) by {
                    let (x, y) = choose|x: int, y: int|
                        #![trigger marker_at(b, x, y)]
                        x < i && marker_at(b, x, y) && digits_value(b.subrange(x + 1, y)) == v;
                    assert(marker_at(b, x, y));
                }
            }
            i += 1;
            continue;
        }
        let mut j = i + 1;
        let mut value: usize = 0;
        let mut fits = true;
        while j < bytes.len() && 0x30 <= bytes[j] && bytes[j] <= 0x39
            invariant
                b == bytes@,
                i < j <= b.len(),
                forall|k: int| i < k < j ==> is_digit(#[trigger] b[k]),
                fits ==> value == digits_value(b.subrange(i + 1, j as int)),
                !fits ==> digits_value(b.subrange(i + 1, j as int)) > usize::MAX,
            decreases bytes.len() - j,
        {
            let d = (bytes[j] - 0x30) as usize;
            proof {
                assert(b.subrange(i + 1, j + 1).drop_last() =~= b.subrange(i + 1, j as int));
            }
            if fits {
                match value.checked_mul(10) {
                    Some(m) => match m.checked_add(d) {
                        Some(a) => {
                            value = a;
                        },
                        None => {
                            fits = false;
                        },
                    },
                    None => {
                        fits = false;
                    },
                }
            }
            j += 1;
        }
        let ghost found = j > i + 1 && j < b.len() && b[j as int] == 0x5d;
        if j > i + 1 && j < bytes.len() && bytes[j] == 0x5d && fits {
            out.insert(value);
        }
        let next = if j > i + 1 {
            j
        } else {
            i + 1
        };
        proof {
            assert forall|v: usize|
                #[trigger] out@.contains(v) <==> cites_before(b, v, next as int) by {
                if cites_before(b, v, next as int) && !cites_before(b, v, i as int) {
                    let (x, y) = choose|x: int, y: int|
                        #![trigger marker_at(b, x, y)]
                        x < next && marker_at(b, x, y) && digits_value(b.subrange(x + 1, y)) == v;
                    if x > i {
                        assert(is_digit(b[x]));
                    }
                    assert(x == i);
                    // The marker's closing bracket is the first non-digit.
                    if y < j {
                        assert(is_digit(b[y]));
                    }
                    if y > j {
                        assert(is_digit(b[j as int]));
                    }
                    assert(y == j);
                }
                if cites_before(b, v, i as int) {
                    let (x, y) = choose|x: int, y: int|
                        #![trigger marker_at(b, x, y)]
                        x < i && marker_at(b, x, y) && digits_value(b.subrange(x + 1, y)) == v;
                    assert(marker_at(b, x, y));
                }
                if found && fits && v == value {
                    assert(marker_at(b, i as int, j as int));
                }
            }
        }
        i = next;
    }
    proof {
        assert(out@ =~= cited_set(b));
    }
    out
}

/// Body plus block: the block follows a blank line, or is absent.
pub open spec fn assemble_spec(body: Seq<char>, blk: Seq<char>) -> Seq<char> {
    if blk.len() == 0 {
        body
    } else {
        body + "\n\n"@ + blk
    }
}

/// Join a body and a rendered reference block into final output.
pub fn assemble(body: &str, block: &str) -> (r: String)
    ensures
        r@ == assemble_spec(body@, block@),
{
    let mut s = owned(body);
    if block.is_empty() {
        return s;
    }
    push_str(&mut s, "\n\n");
    push_str(&mut s, block);
    s
}

/// The smallest body budget ever left, so a page dominated by links still
/// shows some body rather than collapsing to a bare reference list.
pub const MIN_BODY_TOKENS: usize = 64;

/// How many times the body budget is re-shrunk trying to fit body + block.
pub const FIT_PASSES: usize = 6;

/// The references a body still cites, in their original order.
pub open spec fn kept_refs(refs: Seq<RefV>, body: Seq<char>) -> Seq<RefV> {
    refs.filter(|r: RefV| cited_set(bytes_of(body)).contains(r.0))
}

/// Their indices.
pub open spec fn indices(refs: Seq<RefV>) -> Seq<usize> {
    refs.map_values(|r: RefV| r.0)
}

/// Last resort: references come off the tail until body plus block fits; with
/// none left, the body alone.
pub open spec fn drop_spec(body: Seq<char>, kept: Seq<RefV>, max: int) -> (
    Seq<char>,
    Seq<usize>,
)
    decreases kept.len(),
{
    if kept.len() == 0 {
        (body, Seq::<usize>::empty())
    } else if tokens(bytes_of(assemble_spec(body, block(kept)))) <= max {
        (assemble_spec(body, block(kept)), indices(kept))
    } else {
        drop_spec(body, kept.drop_last(), max)
    }
}

/// One pass of the budget rule at body budget `budget`: truncate the body,
/// keep only the references it still cites, and stop if that fits. Otherwise
/// scale the budget by how far over it landed (never below the floor) and try
/// again, or — on the last pass, at the floor, or when scaling no longer
/// shrinks it — drop references from the tail.
pub open spec fn fit_pass(
    body: Seq<char>,
    refs: Seq<RefV>,
    max: int,
    pass: int,
    budget: int,
) -> (Seq<char>, Seq<usize>)
    decreases FIT_PASSES - pass,
{
    let bt = truncated(body, budget);
    let kept = kept_refs(refs, bt);
    let content = assemble_spec(bt, block(kept));
    let total = tokens(bytes_of(content));
    if total <= max {
        (content, indices(kept))
    } else if pass + 1 >= FIT_PASSES || budget <= MIN_BODY_TOKENS {
        drop_spec(bt, kept, max)
    } else {
        let scaled = budget * max / total;
        let next = if scaled >= MIN_BODY_TOKENS {
            scaled
        } else {
            MIN_BODY_TOKENS as int
        };
        if next >= budget {
            drop_spec(bt, kept, max)
        } else {
            fit_pass(body, refs, max, pass + 1, next)
        }
    }
}

/// What [`fit_to_budget`] returns: with no cap, the whole body and block;
/// with a cap, the budget rule from a body budget equal to the cap.
pub open spec fn fit_spec(body: Seq<char>, refs: Seq<RefV>, max_tokens: Option<usize>) -> (
    Seq<char>,
    Seq<usize>,
) {
    match max_tokens {
        None => (assemble_spec(body, block(refs)), indices(refs)),
        Some(max) => fit_pass(body, refs, max as int, 0, max as int),
    }
}

/// Positions of the references `body` cites.
fn kept_positions<T: Referable>(refs: &[T], body: &str) -> (pos: Vec<usize>)
    ensures
        forall|k: int| 0 <= k < pos@.len() ==> #[trigger] pos@[k] < refs@.len(),
        pos@.map_values(|p: usize| pairs(refs@)[p as int]) == kept_refs(pairs(refs@), body@),
{
    let cited = cited_indices(body);
    let ghost pred = |r: RefV| cited_set(bytes_of(body@)).contains(r.0);
    let mut pos: Vec<usize> = Vec::new();
    let mut i: usize = 0;
    while i < refs.len()
        invariant
            i <= refs@.len(),
            cited@ == cited_set(bytes_of(body@)),
            pred == (|r: RefV| cited_set(bytes_of(body@)).contains(r.0)),
            forall|k: int| 0 <= k < pos@.len() ==> #[trigger] pos@[k] < i,
            pos@.map_values(|p: usize| pairs(refs@)[p as int]) == pairs(refs@).take(i as int).filter(pred),
        decreases refs.len() - i,
    {
        proof {
            reveal_with_fuel(Seq::filter, 1);
            assert(pairs(refs@).take(i + 1).drop_last() =~= pairs(refs@).take(i as int));
        }
        let ghost before = pos@;
        if cited.contains(&refs[i].index()) {
            pos.push(i);
            proof {
                assert(pos@.map_values(|p: usize| pairs(refs@)[p as int]) =~= before.map_values(
                    |p: usize| pairs(refs@)[p as int],
                ).push(pairs(refs@)[i as int]));
            }
        }
        i += 1;
    }
    proof {
        assert(pairs(refs@).take(refs@.len() as int) =~= pairs(refs@));
    }
    pos
}

/// The indices of the references at positions `pos`.
fn indices_at<T: Referable>(refs: &[T], pos: &Vec<usize>, n: usize) -> (r: Vec<usize>)
    requires
        n <= pos@.len(),
        forall|k: int| 0 <= k < pos@.len() ==> #[trigger] pos@[k] < refs@.len(),
    ensures
        r@ == indices(pos@.take(n as int).map_values(|p: usize| pairs(refs@)[p as int])),
{
    let mut r: Vec<usize> = Vec::new();
    let mut i: usize = 0;
    while i < n
        invariant
            n <= pos@.len(),
            forall|k: int| 0 <= k < pos@.len() ==> #[trigger] pos@[k] < refs@.len(),
            i <= n,
            r@ =~= indices(pos@.take(i as int).map_values(|p: usize| pairs(refs@)[p as int])),
        decreases n - i,
    {
        r.push(refs[pos[i]].index());
        i += 1;
    }
    r
}

/// Last resort: shrink the reference block itself, tail first. Markers for
/// dropped references stop resolving, which is a worse output than a complete
/// block — but a silently ignored token cap is worse still.
fn drop_until_fits<T: Referable>(
    body: &str,
    refs: &[T],
    pos: &Vec<usize>,
    max_tokens: usize,
) -> (r: (String, Vec<usize>))
    requires
        forall|k: int| 0 <= k < pos@.len() ==> #[trigger] pos@[k] < refs@.len(),
    ensures
        r.0@ == drop_spec(body@, pos@.map_values(|p: usize| pairs(refs@)[p as int]), max_tokens as int).0,
        r.1@ == drop_spec(body@, pos@.map_values(|p: usize| pairs(refs@)[p as int]), max_tokens as int).1,
{
    let ghost all = pos@.map_values(|p: usize| pairs(refs@)[p as int]);
    let mut kept = pos.clone();
    proof {
        assert(kept@ == pos@);
    }
    while kept.len() > 0
        invariant
            forall|k: int| 0 <= k < kept@.len() ==> #[trigger] kept@[k] < refs@.len(),
            all == pos@.map_values(|p: usize| pairs(refs@)[p as int]),
            drop_spec(body@, all, max_tokens as int) == drop_spec(
                body@,
                kept@.map_values(|p: usize| pairs(refs@)[p as int]),
                max_tokens as int,
            ),
        decreases kept.len(),
    {
        let blk = render_positions(refs, &kept);
        let content = assemble(body, blk.as_str());
        if estimate_tokens(content.as_str()) <= max_tokens {
            let idx = indices_at(refs, &kept, kept.len());
            proof {
                assert(kept@.take(kept@.len() as int) =~= kept@);
                let ks = kept@.map_values(|p: usize| pairs(refs@)[p as int]);
                assert(ks.len() > 0);
                assert(drop_spec(body@, ks, max_tokens as int) == (
                    assemble_spec(body@, block(ks)),
                    indices(ks),
                ));
            }
            return (content, idx);
        }
        let ghost before = kept@;
        kept.pop();
        proof {
            assert(kept@.map_values(|p: usize| pairs(refs@)[p as int]) =~= before.map_values(
                |p: usize| pairs(refs@)[p as int],
            ).drop_last());
        }
    }
    proof {
        assert(kept@.map_values(|p: usize| pairs(refs@)[p as int]) =~= Seq::<RefV>::empty());
    }
    (owned(body), Vec::new())
}

/// Fit `body` plus its reference block inside `max_tokens`.
///
/// Returns the assembled content and the reference indices it kept. The body
/// is truncated first, then only the references the surviving text still
/// cites are kept; if the block still does not fit, references are dropped
/// from the tail so the cap holds. With `max_tokens == None` nothing is
/// truncated and every reference is kept.
pub fn fit_to_budget<T: Referable>(body: &str, references: &[T], max_tokens: Option<usize>) -> (r: (
    String,
    Vec<usize>,
))
    ensures
        r.0@ == fit_spec(body@, pairs(references@), max_tokens).0,
        r.1@ == fit_spec(body@, pairs(references@), max_tokens).1,
{
    let (content, kept, _) = fit_to_budget_measured(body, references, max_tokens);
    (content, kept)
}

/// How many bytes of the body the budget rule keeps: all of it with no cap,
/// else what truncation at the body budget of its last pass consumes.
pub open spec fn fit_consumed(body: Seq<char>, refs: Seq<RefV>, max_tokens: Option<usize>) -> int {
    match max_tokens {
        None => bytes_of(body).len() as int,
        Some(max) => crate::compress::consumed(
            bytes_of(body),
            fit_budget_used(body, refs, max as int, 0, max as int),
        ),
    }
}

/// The body budget the last pass of the budget rule truncated to.
pub open spec fn fit_budget_used(
    body: Seq<char>,
    refs: Seq<RefV>,
    max: int,
    pass: int,
    budget: int,
) -> int
    decreases FIT_PASSES - pass,
{
    let bt = truncated(body, budget);
    let kept = kept_refs(refs, bt);
    let content = assemble_spec(bt, block(kept));
    let total = tokens(bytes_of(content));
    if total <= max || pass + 1 >= FIT_PASSES || budget <= MIN_BODY_TOKENS {
        budget
    } else {
        let scaled = budget * max / total;
        let next = if scaled >= MIN_BODY_TOKENS {
            scaled
        } else {
            MIN_BODY_TOKENS as int
        };
        if next >= budget {
            budget
        } else {
            fit_budget_used(body, refs, max, pass + 1, next)
        }
    }
}

/// [`fit_to_budget`], also reporting how many bytes of `body` the kept
/// text covers, so a caller paging through a document resumes exactly where
/// this window ended.
pub fn fit_to_budget_measured<T: Referable>(body: &str, references: &[T], max_tokens: Option<usize>) -> (r: (
    String,
    Vec<usize>,
    usize,
))
    ensures
        r.0@ == fit_spec(body@, pairs(references@), max_tokens).0,
        r.1@ == fit_spec(body@, pairs(references@), max_tokens).1,
        r.2 == fit_consumed(body@, pairs(references@), max_tokens),
{
    let max = match max_tokens {
        None => {
            let blk = render_block(references);
            let content = assemble(body, blk.as_str());
            let mut all: Vec<usize> = Vec::new();
            let mut i: usize = 0;
            while i < references.len()
                invariant
                    i <= references@.len(),
                    all@ =~= indices(pairs(references@).take(i as int)),
                decreases references.len() - i,
            {
                all.push(references[i].index());
                i += 1;
            }
            proof {
                assert(pairs(references@).take(references@.len() as int) =~= pairs(references@));
            }
            return (content, all, body.as_bytes().len());
        },
        Some(m) => m,
    };
    let mut budget = max;
    let mut pass: usize = 0;
    loop
        invariant
            pass < FIT_PASSES,
            budget <= max,
            fit_spec(body@, pairs(references@), max_tokens) == fit_pass(
                body@,
                pairs(references@),
                max as int,
                pass as int,
                budget as int,
            ),
            fit_budget_used(body@, pairs(references@), max as int, 0, max as int) == fit_budget_used(
                body@,
                pairs(references@),
                max as int,
                pass as int,
                budget as int,
            ),
            max_tokens == Some(max),
        decreases FIT_PASSES - pass,
    {
        let (truncated_body, used) = crate::compress::truncate_to_tokens_at(body, budget);
        let pos = kept_positions(references, truncated_body.as_str());
        let blk = render_positions(references, &pos);
        let content = assemble(truncated_body.as_str(), blk.as_str());
        let total = estimate_tokens(content.as_str());
        if total <= max {
            let idx = indices_at(references, &pos, pos.len());
            proof {
                assert(pos@.take(pos@.len() as int) =~= pos@);
            }
            return (content, idx, used);
        }
        if pass + 1 == FIT_PASSES || budget <= MIN_BODY_TOKENS {
            let (c, k) = drop_until_fits(truncated_body.as_str(), references, &pos, max);
            return (c, k, used);
        }
        proof {
            let (bi, mi, ti) = (budget as int, max as int, total as int);
            assert(bi * mi <= 0xffff_ffff_ffff_ffff_ffff_ffff_ffff_ffffint) by (nonlinear_arith)
                requires
                    0 <= bi <= 0xffff_ffff_ffff_ffff,
                    0 <= mi <= 0xffff_ffff_ffff_ffff,
            ;
            assert(bi * mi / ti <= bi) by (nonlinear_arith)
                requires
                    0 <= bi,
                    0 <= mi < ti,
            ;
        }
        let prod = (budget as u128) * (max as u128);
        let scaled = (prod / (total as u128)) as usize;
        let next = if scaled >= MIN_BODY_TOKENS {
            scaled
        } else {
            MIN_BODY_TOKENS
        };
        if next >= budget {
            let (c, k) = drop_until_fits(truncated_body.as_str(), references, &pos, max);
            return (c, k, used);
        }
        budget = next;
        pass += 1;
    }
}


/// The body text a pass of the budget rule settles on.
pub open spec fn fit_body(
    body: Seq<char>,
    refs: Seq<RefV>,
    max: int,
    pass: int,
    budget: int,
) -> Seq<char>
    decreases FIT_PASSES - pass,
{
    let bt = truncated(body, budget);
    let kept = kept_refs(refs, bt);
    let content = assemble_spec(bt, block(kept));
    let total = tokens(bytes_of(content));
    if total <= max || pass + 1 >= FIT_PASSES || budget <= MIN_BODY_TOKENS {
        bt
    } else {
        let scaled = budget * max / total;
        let next = if scaled >= MIN_BODY_TOKENS {
            scaled
        } else {
            MIN_BODY_TOKENS as int
        };
        if next >= budget {
            bt
        } else {
            fit_body(body, refs, max, pass + 1, next)
        }
    }
}

proof fn lemma_drop_shape(bt: Seq<char>, kept: Seq<RefV>, max: int)
    ensures
        exists|k: int|
            0 <= k <= kept.len() && #[trigger] drop_spec(bt, kept, max) == (
                assemble_spec(bt, block(kept.take(k))),
                indices(kept.take(k)),
            ),
        drop_spec(bt, kept, max).0 == bt || tokens(bytes_of(drop_spec(bt, kept, max).0)) <= max,
    decreases kept.len(),
{
    if kept.len() == 0 {
        assert(kept.take(0) =~= kept);
        assert(drop_spec(bt, kept, max) == (
            assemble_spec(bt, block(kept.take(0))),
            indices(kept.take(0)),
        ));
    } else if tokens(bytes_of(assemble_spec(bt, block(kept)))) <= max {
        assert(kept.take(kept.len() as int) =~= kept);
        assert(drop_spec(bt, kept, max) == (
            assemble_spec(bt, block(kept.take(kept.len() as int))),
            indices(kept.take(kept.len() as int)),
        ));
    } else {
        lemma_drop_shape(bt, kept.drop_last(), max);
        let k = choose|k: int|
            0 <= k <= kept.drop_last().len() && #[trigger] drop_spec(bt, kept.drop_last(), max)
                == (
                assemble_spec(bt, block(kept.drop_last().take(k))),
                indices(kept.drop_last().take(k)),
            );
        assert(kept.drop_last().take(k) =~= kept.take(k));
        assert(drop_spec(bt, kept, max) == (
            assemble_spec(bt, block(kept.take(k))),
            indices(kept.take(k)),
        ));
    }
}

/// Budget law: with a cap of four tokens or more, the whole output — body
/// and reference block together — fits the cap.
pub proof fn lemma_fit_respects_cap(body: Seq<char>, refs: Seq<RefV>, max: usize)
    requires
        max >= 4,
    ensures
        tokens(bytes_of(fit_spec(body, refs, Some(max)).0)) <= max,
{
    lemma_fit_pass_cap(body, refs, max as int, 0, max as int);
}

proof fn lemma_fit_pass_cap(
    body: Seq<char>,
    refs: Seq<RefV>,
    max: int,
    pass: int,
    budget: int,
)
    requires
        4 <= budget <= max,
    ensures
        tokens(bytes_of(fit_pass(body, refs, max, pass, budget).0)) <= max,
    decreases FIT_PASSES - pass,
{
    let bt = truncated(body, budget);
    let kept = kept_refs(refs, bt);
    crate::compress::lemma_truncated_fits(body, budget);
    lemma_drop_shape(bt, kept, max);
    let content = assemble_spec(bt, block(kept));
    let total = tokens(bytes_of(content));
    if total > max && !(pass + 1 >= FIT_PASSES || budget <= MIN_BODY_TOKENS) {
        let scaled = budget * max / total;
        let next = if scaled >= MIN_BODY_TOKENS {
            scaled
        } else {
            MIN_BODY_TOKENS as int
        };
        if next < budget {
            lemma_fit_pass_cap(body, refs, max, pass + 1, next);
        }
    }
}

/// Citation law: the body the budgeted output keeps is the body itself, or a
/// prefix of it cut at a character boundary followed by the elision marker;
/// every reference kept is cited by that body; and the output is that body
/// followed by the block of a leading run of the references it cites, in
/// their order.
pub proof fn lemma_fit_keeps_cited(body: Seq<char>, refs: Seq<RefV>, max: usize)
    ensures
        ({
            let r = fit_spec(body, refs, Some(max));
            let bt = fit_body(body, refs, max as int, 0, max as int);
            &&& bt == body || exists|n: int|
                is_char_boundary(bytes_of(body), consumed(bytes_of(body), n)) && bytes_of(bt) == bytes_of(body).take(
                    #[trigger] consumed(bytes_of(body), n),
                ) + marker_bytes()
            &&& forall|j: int|
                0 <= j < r.1.len() ==> cited_set(bytes_of(bt)).contains(#[trigger] r.1[j])
            &&& exists|k: int|
                0 <= k <= kept_refs(refs, bt).len() && r.0 == assemble_spec(
                    bt,
                    block(#[trigger] kept_refs(refs, bt).take(k)),
                ) && r.1 == indices(kept_refs(refs, bt).take(k))
        }),
{
    lemma_fit_pass_cited(body, refs, max as int, 0, max as int);
    lemma_fit_body_truncated(body, refs, max as int, 0, max as int);
    let n = choose|n: int| fit_body(body, refs, max as int, 0, max as int) == #[trigger] truncated(body, n);
    lemma_truncated_is_cut(body, n);
}

proof fn lemma_fit_body_truncated(body: Seq<char>, refs: Seq<RefV>, max: int, pass: int, budget: int)
    ensures
        exists|n: int| fit_body(body, refs, max, pass, budget) == #[trigger] truncated(body, n),
    decreases FIT_PASSES - pass,
{
    let bt = truncated(body, budget);
    let kept = kept_refs(refs, bt);
    let content = assemble_spec(bt, block(kept));
    let total = tokens(bytes_of(content));
    if total <= max || pass + 1 >= FIT_PASSES || budget <= MIN_BODY_TOKENS {
        assert(fit_body(body, refs, max, pass, budget) == truncated(body, budget));
    } else {
        let scaled = budget * max / total;
        let next = if scaled >= MIN_BODY_TOKENS {
            scaled
        } else {
            MIN_BODY_TOKENS as int
        };
        if next >= budget {
            assert(fit_body(body, refs, max, pass, budget) == truncated(body, budget));
        } else {
            lemma_fit_body_truncated(body, refs, max, pass + 1, next);
        }
    }
}

proof fn lemma_fit_pass_cited(
    body: Seq<char>,
    refs: Seq<RefV>,
    max: int,
    pass: int,
    budget: int,
)
    ensures
        ({
            let r = fit_pass(body, refs, max, pass, budget);
            let bt = fit_body(body, refs, max, pass, budget);
            &&& forall|j: int|
                0 <= j < r.1.len() ==> cited_set(bytes_of(bt)).contains(#[trigger] r.1[j])
            &&& exists|k: int|
                0 <= k <= kept_refs(refs, bt).len() && r.0 == assemble_spec(
                    bt,
                    block(#[trigger] kept_refs(refs, bt).take(k)),
                ) && r.1 == indices(kept_refs(refs, bt).take(k))
        }),
    decreases FIT_PASSES - pass,
{
    let bt = truncated(body, budget);
    let kept = kept_refs(refs, bt);
    let pred = |r: RefV| cited_set(bytes_of(bt)).contains(r.0);
    let content = assemble_spec(bt, block(kept));
    let total = tokens(bytes_of(content));
    let recurse = total > max && !(pass + 1 >= FIT_PASSES || budget <= MIN_BODY_TOKENS) && {
        let scaled = budget * max / total;
        let next = if scaled >= MIN_BODY_TOKENS {
            scaled
        } else {
            MIN_BODY_TOKENS as int
        };
        next < budget
    };
    if recurse {
        let scaled = budget * max / total;
        let next = if scaled >= MIN_BODY_TOKENS {
            scaled
        } else {
            MIN_BODY_TOKENS as int
        };
        lemma_fit_pass_cited(body, refs, max, pass + 1, next);
        assert(fit_pass(body, refs, max, pass, budget) == fit_pass(body, refs, max, pass + 1, next));
        assert(fit_body(body, refs, max, pass, budget) == fit_body(body, refs, max, pass + 1, next));
    } else {
        let r = fit_pass(body, refs, max, pass, budget);
        assert(fit_body(body, refs, max, pass, budget) == bt);
        let k = if total <= max {
            assert(kept.take(kept.len() as int) =~= kept);
            kept.len() as int
        } else {
            lemma_drop_shape(bt, kept, max);
            choose|k: int|
                0 <= k <= kept.len() && #[trigger] drop_spec(bt, kept, max) == (
                    assemble_spec(bt, block(kept.take(k))),
                    indices(kept.take(k)),
                )
        };
        assert(r == (assemble_spec(bt, block(kept.take(k))), indices(kept.take(k))));
        assert forall|j: int| 0 <= j < r.1.len() implies cited_set(bytes_of(bt)).contains(
            #[trigger] r.1[j],
        ) by {
            assert(r.1[j] == kept[j].0);
            refs.lemma_filter_pred(pred, j);
        }
        assert(0 <= k <= kept_refs(refs, bt).len() && r.0 == assemble_spec(
            bt,
            block(kept_refs(refs, bt).take(k)),
        ) && r.1 == indices(kept_refs(refs, bt).take(k)));
    }
}

} // verus!
