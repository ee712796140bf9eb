//! Whitespace and decorative-glyph reduction, and the token budget.
//!
//! Token cost is measured in *quarter-tokens*: one byte costs one, and each
//! URL punctuation byte costs two extra. [`estimate_tokens`] and
//! [`truncate_to_tokens_at`] share that unit, so the two can never disagree.

use vstd::prelude::*;
use vstd::string::StringSliceAdditionalSpecFns;
use vstd::utf8::*;

use crate::text::{
    bytes_of, chars_vec, is_whitespace, is_ws, lead_ws, lemma_bytes_concat, lemma_lead_ws_at,
    lemma_lead_ws_bound, lemma_trail_ws_at, lemma_trail_ws_bound, push_char, push_str,
    string_of_range, trail_ws, trim, trim_bounds,
};

verus! {

broadcast use encode_utf8_valid_utf8;

/// The decorative glyphs stripped from extracted text.
pub open spec fn is_decor(c: char) -> bool {
    ||| c == '\u{25B6}'
    ||| c == '\u{2192}'
    ||| c == '\u{2190}'
    ||| c == '\u{25BC}'
    ||| c == '\u{25B2}'
    ||| c == '\u{2022}'
    ||| c == '\u{B7}'
    ||| c == '\u{25C6}'
    ||| c == '\u{25C7}'
    ||| c == '\u{25CA}'
    ||| c == '\u{2713}'
    ||| c == '\u{2717}'
    ||| c == '\u{2714}'
    ||| c == '\u{2718}'
    ||| c == '\u{2023}'
    ||| c == '\u{2043}'
    ||| c == '\u{25E6}'
}

fn is_decorative(c: char) -> (b: bool)
    ensures
        b == is_decor(c),
{
    c == '\u{25B6}' || c == '\u{2192}' || c == '\u{2190}' || c == '\u{25BC}' || c == '\u{25B2}'
        || c == '\u{2022}' || c == '\u{B7}' || c == '\u{25C6}' || c == '\u{25C7}' || c
        == '\u{25CA}' || c == '\u{2713}' || c == '\u{2717}' || c == '\u{2714}' || c == '\u{2718}'
        || c == '\u{2023}' || c == '\u{2043}' || c == '\u{25E6}'
}

/// `s` without decorative glyphs.
pub open spec fn strip_decor(s: Seq<char>) -> Seq<char> {
    s.filter(|c: char| !is_decor(c))
}

/// Every maximal run of whitespace replaced by one space: a whitespace
/// character becomes `' '` unless the character before it was whitespace too.
pub open spec fn collapse_ws(s: Seq<char>) -> Seq<char>
    decreases s.len(),
{
    if s.len() == 0 {
        s
    } else {
        let p = collapse_ws(s.drop_last());
        if is_ws(s.last()) {
            if s.len() >= 2 && is_ws(s[s.len() - 2]) {
                p
            } else {
                p.push(' ')
            }
        } else {
            p.push(s.last())
        }
    }
}

/// What [`compress_text`] makes of a text.
pub open spec fn compress_spec(s: Seq<char>) -> Seq<char> {
    trim(collapse_ws(strip_decor(s)))
}

/// Semantic text reduction: strip decorative glyphs, then collapse runs of
/// whitespace, then trim.
///
/// Order matters — decorative characters are removed *before* collapsing
/// whitespace so that a glyph surrounded by spaces (e.g. `"Click ▶ to play"`)
/// does not leave a double space behind.
pub fn compress_text(text: &str) -> (r: String)
    ensures
        r@ == compress_spec(text@),
{
    let v = chars_vec(text);
    let mut kept: Vec<char> = Vec::new();
    let mut i: usize = 0;
    while i < v.len()
        invariant
            i <= v@.len(),
            kept@ == strip_decor(v@.take(i as int)),
        decreases v.len() - i,
    {
        proof {
            reveal_with_fuel(Seq::filter, 1);
            assert(v@.take(i + 1).drop_last() =~= v@.take(i as int));
        }
        if !is_decorative(v[i]) {
            kept.push(v[i]);
        }
        i += 1;
    }
    assert(v@.take(v@.len() as int) =~= v@);
    let mut collapsed: Vec<char> = Vec::new();
    let mut j: usize = 0;
    while j < kept.len()
        invariant
            j <= kept@.len(),
            collapsed@ == collapse_ws(kept@.take(j as int)),
        decreases kept.len() - j,
    {
        proof {
            assert(kept@.take(j + 1).drop_last() =~= kept@.take(j as int));
        }
        let c = kept[j];
        if is_whitespace(c) {
            if !(j >= 1 && is_whitespace(kept[j - 1])) {
                collapsed.push(' ');
            }
        } else {
            collapsed.push(c);
        }
        j += 1;
    }
    assert(kept@.take(kept@.len() as int) =~= kept@);
    let (a, b) = trim_bounds(&collapsed);
    string_of_range(&collapsed, a, b)
}

/// No decorative glyph, whitespace only as single spaces, and no whitespace
/// at either end.
pub open spec fn tidy(r: Seq<char>) -> bool {
    &&& forall|i: int| 0 <= i < r.len() ==> !is_decor(#[trigger] r[i])
    &&& forall|i: int| 0 <= i < r.len() && is_ws(#[trigger] r[i]) ==> r[i] == ' '
    &&& forall|i: int| 0 <= i < r.len() - 1 ==> !(is_ws(#[trigger] r[i]) && is_ws(r[i + 1]))
    &&& r.len() > 0 ==> !is_ws(r[0]) && !is_ws(r.last())
}

proof fn lemma_strip_decor_clean(s: Seq<char>)
    ensures
        forall|i: int| 0 <= i < strip_decor(s).len() ==> !is_decor(#[trigger] strip_decor(s)[i]),
        (forall|i: int| 0 <= i < s.len() ==> !is_decor(#[trigger] s[i])) ==> strip_decor(s) == s,
    decreases s.len(),
{
    reveal_with_fuel(Seq::filter, 1);
    if s.len() > 0 {
        lemma_strip_decor_clean(s.drop_last());
        let p = strip_decor(s.drop_last());
        assert forall|i: int| 0 <= i < strip_decor(s).len() implies !is_decor(#[trigger] strip_decor(s)[i]) by {
            if i < p.len() {
                assert(strip_decor(s)[i] == p[i]);
            }
        }
        if forall|i: int| 0 <= i < s.len() ==> !is_decor(#[trigger] s[i]) {
            assert forall|i: int| 0 <= i < s.drop_last().len() implies !is_decor(#[trigger] s.drop_last()[i]) by {
                assert(s.drop_last()[i] == s[i]);
            }
            assert(!is_decor(s[s.len() - 1]));
            assert(s.drop_last().push(s.last()) =~= s);
        }
    }
}

proof fn lemma_collapse_shape(s: Seq<char>)
    requires
        forall|i: int| 0 <= i < s.len() ==> !is_decor(#[trigger] s[i]),
    ensures
        forall|i: int| 0 <= i < collapse_ws(s).len() ==> !is_decor(#[trigger] collapse_ws(s)[i]),
        forall|i: int| 0 <= i < collapse_ws(s).len() && is_ws(#[trigger] collapse_ws(s)[i]) ==> collapse_ws(s)[i] == ' ',
        forall|i: int|
            0 <= i < collapse_ws(s).len() - 1 ==> !(is_ws(#[trigger] collapse_ws(s)[i]) && is_ws(collapse_ws(s)[i + 1])),
        collapse_ws(s).len() > 0 ==> s.len() > 0 && (is_ws(collapse_ws(s).last()) <==> is_ws(s.last())),
    decreases s.len(),
{
    if s.len() > 0 {
        let t = s.drop_last();
        assert forall|i: int| 0 <= i < t.len() implies !is_decor(#[trigger] t[i]) by {
            assert(t[i] == s[i]);
        }
        lemma_collapse_shape(t);
        let p = collapse_ws(t);
        let c = collapse_ws(s);
        assert(!is_decor(s[s.len() - 1]));
        assert(!is_decor(' ')) by {
            reveal_strlit(" ");
        }
        if s.len() >= 2 {
            assert(t.last() == s[s.len() - 2]);
        }
        assert forall|i: int| 0 <= i < c.len() - 1 implies !(is_ws(#[trigger] c[i]) && is_ws(c[i + 1])) by {
            if i + 1 < p.len() {
                assert(c[i] == p[i] && c[i + 1] == p[i + 1]);
            } else {
                assert(c[i] == p.last());
            }
        }
        assert forall|i: int| 0 <= i < c.len() implies !is_decor(#[trigger] c[i]) by {
            if i < p.len() {
                assert(c[i] == p[i]);
            }
        }
        assert forall|i: int| 0 <= i < c.len() && is_ws(#[trigger] c[i]) implies c[i] == ' ' by {
            if i < p.len() {
                assert(c[i] == p[i]);
            }
        }
    }
}

proof fn lemma_collapse_fixed(r: Seq<char>)
    requires
        forall|i: int| 0 <= i < r.len() && is_ws(#[trigger] r[i]) ==> r[i] == ' ',
        forall|i: int| 0 <= i < r.len() - 1 ==> !(is_ws(#[trigger] r[i]) && is_ws(r[i + 1])),
    ensures
        collapse_ws(r) == r,
    decreases r.len(),
{
    if r.len() > 0 {
        let t = r.drop_last();
        assert forall|i: int| 0 <= i < t.len() && is_ws(#[trigger] t[i]) implies t[i] == ' ' by {
            assert(t[i] == r[i]);
        }
        assert forall|i: int| 0 <= i < t.len() - 1 implies !(is_ws(#[trigger] t[i]) && is_ws(t[i + 1])) by {
            assert(t[i] == r[i] && t[i + 1] == r[i + 1]);
        }
        lemma_collapse_fixed(t);
        if r.len() >= 2 {
            assert(!(is_ws(r[r.len() - 2]) && is_ws(r[r.len() - 1])));
        }
        assert(t.push(r.last()) =~= r);
    }
}

proof fn lemma_trim_shape(x: Seq<char>)
    ensures
        exists|a: int, b: int| 0 <= a <= b <= x.len() && trim(x) == #[trigger] x.subrange(a, b),
        trim(x).len() > 0 ==> !is_ws(trim(x)[0]) && !is_ws(trim(x).last()),
{
    lemma_lead_ws_bound(x);
    let a = lead_ws(x) as int;
    let t = x.skip(a);
    lemma_trail_ws_bound(t);
    let e = t.len() - trail_ws(t);
    assert(trim(x) =~= x.subrange(a, a + e));
    if trim(x).len() > 0 {
        assert(trim(x)[0] == x[a]);
        assert(trim(x).last() == t[e - 1]);
    }
}

proof fn lemma_trim_fixed(r: Seq<char>)
    requires
        r.len() > 0 ==> !is_ws(r[0]) && !is_ws(r.last()),
    ensures
        trim(r) == r,
{
    lemma_lead_ws_at(r, 0);
    assert(r.skip(0) =~= r);
    if r.len() > 0 {
        lemma_trail_ws_at(r, r.len() as int);
    } else {
        lemma_trail_ws_at(r, 0);
    }
    assert(r.take(r.len() as int) =~= r);
}

/// Compression law: what [`compress_text`] returns is tidy (no decorative
/// glyph, whitespace only as single spaces, trimmed), and compressing it
/// again changes nothing.
pub proof fn lemma_compress_tidy(s: Seq<char>)
    ensures
        tidy(compress_spec(s)),
        compress_spec(compress_spec(s)) == compress_spec(s),
{
    let d = strip_decor(s);
    lemma_strip_decor_clean(s);
    lemma_collapse_shape(d);
    let c = collapse_ws(d);
    let r = compress_spec(s);
    lemma_trim_shape(c);
    let (a, b) = choose|a: int, b: int| 0 <= a <= b <= c.len() && r == #[trigger] c.subrange(a, b);
    assert forall|i: int| 0 <= i < r.len() implies !is_decor(#[trigger] r[i]) by {
        assert(r[i] == c[a + i]);
    }
    assert forall|i: int| 0 <= i < r.len() && is_ws(#[trigger] r[i]) implies r[i] == ' ' by {
        assert(r[i] == c[a + i]);
    }
    assert forall|i: int| 0 <= i < r.len() - 1 implies !(is_ws(#[trigger] r[i]) && is_ws(r[i + 1])) by {
        assert(r[i] == c[a + i] && r[i + 1] == c[a + i + 1]);
    }
    lemma_strip_decor_clean(r);
    lemma_collapse_fixed(r);
    lemma_trim_fixed(r);
}

/// The pieces of `s` between `'\n'` characters (always at least one).
pub open spec fn pieces(s: Seq<char>) -> Seq<Seq<char>>
    decreases s.len(),
{
    if s.len() == 0 {
        seq![Seq::<char>::empty()]
    } else {
        let p = pieces(s.drop_last());
        if s.last() == '\n' {
            p.push(Seq::<char>::empty())
        } else {
            p.update(p.len() - 1, p.last().push(s.last()))
        }
    }
}

/// `str::lines` up to a trailing `'\r'`, which [`compress_text`] removes
/// anyway: the pieces between newlines, without a final empty piece.
pub open spec fn lines_of(s: Seq<char>) -> Seq<Seq<char>> {
    let p = pieces(s);
    if p.last().len() == 0 {
        p.drop_last()
    } else {
        p
    }
}

/// Lines with every blank line that follows a kept blank line removed.
pub open spec fn squeeze_blank(ls: Seq<Seq<char>>) -> Seq<Seq<char>>
    decreases ls.len(),
{
    if ls.len() == 0 {
        ls
    } else {
        let p = squeeze_blank(ls.drop_last());
        if ls.last().len() == 0 && p.len() > 0 && p.last().len() == 0 {
            p
        } else {
            p.push(ls.last())
        }
    }
}

/// Lines joined with `'\n'`.
pub open spec fn join_lines(ls: Seq<Seq<char>>) -> Seq<char>
    decreases ls.len(),
{
    if ls.len() == 0 {
        Seq::<char>::empty()
    } else if ls.len() == 1 {
        ls[0]
    } else {
        join_lines(ls.drop_last()) + seq!['\n'] + ls.last()
    }
}

/// What [`compress_block`] makes of a text.
pub open spec fn compress_block_spec(s: Seq<char>) -> Seq<char> {
    trim(join_lines(squeeze_blank(lines_of(s).map_values(|l: Seq<char>| compress_spec(l)))))
}

proof fn lemma_pieces_nonempty(s: Seq<char>)
    ensures
        pieces(s).len() >= 1,
    decreases s.len(),
{
    if s.len() > 0 {
        lemma_pieces_nonempty(s.drop_last());
    }
}

/// Split `text` at its newlines.
fn split_pieces(text: &str) -> (r: Vec<String>)
    ensures
        r@.map_values(|l: String| l@) == pieces(text@),
{
    let v = chars_vec(text);
    let mut done: Vec<String> = Vec::new();
    let mut start: usize = 0;
    let mut i: usize = 0;
    proof {
        assert(v@.take(0) =~= Seq::<char>::empty());
        assert(v@.subrange(0, 0) =~= Seq::<char>::empty());
        assert(done@.map_values(|l: String| l@).push(v@.subrange(0, 0)) =~~= pieces(v@.take(0)));
    }
    while i < v.len()
        invariant
            start <= i <= v@.len(),
            done@.map_values(|l: String| l@).push(v@.subrange(start as int, i as int)) == pieces(
                v@.take(i as int),
            ),
        decreases v.len() - i,
    {
        proof {
            assert(v@.take(i + 1).drop_last() =~= v@.take(i as int));
            lemma_pieces_nonempty(v@.take(i as int));
        }
        if v[i] == '\n' {
            let piece = string_of_range(&v, start, i);
            let ghost before = done@.map_values(|l: String| l@);
            done.push(piece);
            proof {
                assert(done@.map_values(|l: String| l@) =~= before.push(piece@));
                assert(v@.subrange((i + 1) as int, (i + 1) as int) =~= Seq::<char>::empty());
                assert(pieces(v@.take(i + 1)) == pieces(v@.take(i as int)).push(Seq::<char>::empty()));
                assert(done@.map_values(|l: String| l@).push(v@.subrange((i + 1) as int, (i + 1) as int)) =~~= pieces(
                    v@.take(i + 1),
                ));
            }
            start = i + 1;
        } else {
            proof {
                let p = pieces(v@.take(i as int));
                assert(v@.subrange(start as int, i + 1) =~= v@.subrange(start as int, i as int).push(v@[i as int]));
                assert(pieces(v@.take(i + 1)) == p.update(p.len() - 1, p.last().push(v@[i as int])));
                assert(done@.map_values(|l: String| l@).push(v@.subrange(start as int, i + 1)) =~~= p.update(
                    p.len() - 1,
                    p.last().push(v@[i as int]),
                ));
            }
        }
        i += 1;
    }
    let last = string_of_range(&v, start, v.len());
    let ghost before = done@.map_values(|l: String| l@);
    done.push(last);
    proof {
        assert(v@.take(v@.len() as int) =~= v@);
        assert(done@.map_values(|l: String| l@) =~= before.push(last@));
    }
    done
}

/// Character-level shape of a compressed block: no decorative glyph, only
/// spaces and newlines as whitespace, every space between two
/// non-whitespace characters, and never three newlines in a row.
pub open spec fn block_shape(r: Seq<char>) -> bool {
    &&& forall|i: int| 0 <= i < r.len() ==> !is_decor(#[trigger] r[i])
    &&& forall|i: int| 0 <= i < r.len() && is_ws(#[trigger] r[i]) ==> r[i] == ' ' || r[i] == '\n'
    &&& forall|i: int|
        0 <= i < r.len() && #[trigger] r[i] == ' ' ==> 0 < i < r.len() - 1 && !is_ws(r[i - 1]) && !is_ws(
            r[i + 1],
        )
    &&& forall|i: int| 0 <= i < r.len() - 2 ==> !(#[trigger] r[i] == '\n' && r[i + 1] == '\n' && r[i + 2] == '\n')
}

/// No two blank lines in a row.
pub open spec fn no_blank_pair(ls: Seq<Seq<char>>) -> bool {
    forall|k: int| 0 <= k < ls.len() - 1 ==> !(#[trigger] ls[k].len() == 0 && ls[k + 1].len() == 0)
}

proof fn lemma_squeeze_shape(ls: Seq<Seq<char>>)
    requires
        forall|k: int| 0 <= k < ls.len() ==> tidy(#[trigger] ls[k]),
    ensures
        forall|k: int| 0 <= k < squeeze_blank(ls).len() ==> tidy(#[trigger] squeeze_blank(ls)[k]),
        no_blank_pair(squeeze_blank(ls)),
    decreases ls.len(),
{
    if ls.len() > 0 {
        let t = ls.drop_last();
        assert forall|k: int| 0 <= k < t.len() implies tidy(#[trigger] t[k]) by {
            assert(t[k] == ls[k]);
        }
        lemma_squeeze_shape(t);
        let p = squeeze_blank(t);
        let q = squeeze_blank(ls);
        assert(tidy(ls[ls.len() - 1]));
        assert forall|k: int| 0 <= k < q.len() implies tidy(#[trigger] q[k]) by {
            if k < p.len() {
                assert(q[k] == p[k]);
            }
        }
        assert forall|k: int| 0 <= k < q.len() - 1 implies !(#[trigger] q[k].len() == 0 && q[k + 1].len() == 0) by {
            if k + 1 < p.len() {
                assert(q[k] == p[k] && q[k + 1] == p[k + 1]);
            }
        }
    }
}

proof fn lemma_join_shape(ls: Seq<Seq<char>>)
    requires
        forall|k: int| 0 <= k < ls.len() ==> tidy(#[trigger] ls[k]),
        no_blank_pair(ls),
    ensures
        block_shape(join_lines(ls)),
        ls.len() > 0 && ls.last().len() > 0 ==> join_lines(ls).len() > 0 && !is_ws(join_lines(ls).last()),
        ls.len() >= 2 && ls.last().len() == 0 ==> join_lines(ls).len() >= 2 && join_lines(ls).last() == '\n'
            && !is_ws(join_lines(ls)[join_lines(ls).len() - 2]),
        ls.len() == 1 ==> join_lines(ls) == ls[0],
    decreases ls.len(),
{
    assert(is_ws('\n'));
    assert(!is_decor('\n'));
    if ls.len() == 1 {
        let e = ls[0];
        assert(tidy(e));
    } else if ls.len() >= 2 {
        let init = ls.drop_last();
        let e = ls.last();
        assert(tidy(ls[ls.len() - 1]));
        assert forall|k: int| 0 <= k < init.len() implies tidy(#[trigger] init[k]) by {
            assert(init[k] == ls[k]);
        }
        assert forall|k: int| 0 <= k < init.len() - 1 implies !(#[trigger] init[k].len() == 0 && init[k + 1].len() == 0) by {
            assert(init[k] == ls[k] && init[k + 1] == ls[k + 1]);
        }
        lemma_join_shape(init);
        let a = join_lines(init);
        let j = join_lines(ls);
        let p = a.len() as int;
        assert(j =~= a + seq!['\n'] + e);
        assert(j[p] == '\n');
        assert forall|i: int| 0 <= i < e.len() implies #[trigger] j[p + 1 + i] == e[i] by {}
        assert forall|i: int| 0 <= i < a.len() implies #[trigger] j[i] == a[i] by {}
        if init.last().len() == 0 {
            assert(ls[ls.len() - 2].len() == 0);
            assert(e.len() > 0);
        }
        if init.last().len() > 0 {
            assert(a.len() > 0 && !is_ws(a.last()));
        }
        assert forall|i: int| 0 <= i < j.len() implies !is_decor(#[trigger] j[i]) by {
            if i < p {
                assert(j[i] == a[i]);
            } else if i > p {
                assert(j[i] == e[i - p - 1]);
            }
        }
        assert forall|i: int| 0 <= i < j.len() && is_ws(#[trigger] j[i]) implies j[i] == ' ' || j[i] == '\n' by {
            if i < p {
                assert(j[i] == a[i]);
            } else if i > p {
                assert(j[i] == e[i - p - 1]);
            }
        }
        assert forall|i: int| 0 <= i < j.len() && #[trigger] j[i] == ' ' implies 0 < i < j.len() - 1 && !is_ws(j[i - 1])
            && !is_ws(j[i + 1]) by {
            if i < p {
                assert(j[i] == a[i]);
                assert(a[i] == ' ');
                assert(j[i - 1] == a[i - 1] && j[i + 1] == a[i + 1]);
            } else if i > p {
                let m = i - p - 1;
                assert(j[i] == e[m]);
                assert(is_ws(e[m]));
                assert(0 < m < e.len() - 1) by {
                    assert(!is_ws(e[0]) && !is_ws(e.last()));
                    if m == e.len() - 1 {
                        assert(e.last() == e[m]);
                    }
                }
                assert(!(is_ws(e[m - 1]) && is_ws(e[m])));
                assert(!(is_ws(e[m]) && is_ws(e[m + 1])));
                assert(j[i - 1] == e[m - 1] && j[i + 1] == e[m + 1]);
            }
        }
        assert forall|i: int| 0 <= i < j.len() - 2 implies !(#[trigger] j[i] == '\n' && j[i + 1] == '\n' && j[i + 2]
            == '\n') by {
            if i + 2 < p {
                assert(j[i] == a[i] && j[i + 1] == a[i + 1] && j[i + 2] == a[i + 2]);
            } else if i + 2 == p {
                assert(j[i] == a[i] && j[i + 1] == a[i + 1]);
                if init.last().len() > 0 {
                    assert(a.last() == a[p - 1]);
                } else {
                    assert(a[p - 2] == a[a.len() - 2]);
                }
            } else if i + 1 == p {
                assert(j[i + 2] == e[0]);
                assert(!is_ws(e[0]));
            } else {
                assert(j[i + 1] == e[i - p]);
                assert(e[i - p] != '\n') by {
                    if e[i - p] == '\n' {
                        assert(is_ws(e[i - p]));
                    }
                }
            }
        }
        if e.len() > 0 {
            assert(j.last() == e.last());
        } else {
            assert(j.last() == '\n');
            assert(j[j.len() - 2] == a.last());
        }
    }
}

/// A line being read: no decorative glyph, whitespace only as single
/// spaces, and not starting with whitespace (it may still end with a space).
pub open spec fn open_line(l: Seq<char>) -> bool {
    &&& forall|i: int| 0 <= i < l.len() ==> !is_decor(#[trigger] l[i])
    &&& forall|i: int| 0 <= i < l.len() && is_ws(#[trigger] l[i]) ==> l[i] == ' '
    &&& forall|i: int| 0 <= i < l.len() - 1 ==> !(is_ws(#[trigger] l[i]) && is_ws(l[i + 1]))
    &&& l.len() > 0 ==> !is_ws(l[0])
}

proof fn lemma_block_lines_prefix(r: Seq<char>, n: int)
    requires
        block_shape(r),
        0 <= n <= r.len(),
    ensures
        forall|k: int| 0 <= k < pieces(r.take(n)).len() - 1 ==> tidy(#[trigger] pieces(r.take(n))[k]),
        open_line(pieces(r.take(n)).last()),
        pieces(r.take(n)).last().len() > 0 ==> pieces(r.take(n)).last().last() == r[n - 1],
        pieces(r.take(n)).last().len() == 0 ==> n == 0 || r[n - 1] == '\n',
    decreases n,
{
    lemma_pieces_nonempty(r.take(n));
    if n == 0 {
        assert(r.take(0) =~= Seq::<char>::empty());
        assert(pieces(r.take(0)) =~= seq![Seq::<char>::empty()]);
    } else {
        lemma_block_lines_prefix(r, n - 1);
        lemma_pieces_nonempty(r.take(n - 1));
        let x = r.take(n - 1);
        let y = r.take(n);
        assert(y.drop_last() =~= x);
        assert(y.last() == r[n - 1]);
        let p = pieces(x);
        let q = pieces(y);
        let l = p.last();
        let c = r[n - 1];
        assert(!is_decor(c));
        if c == '\n' {
            assert(q =~= p.push(Seq::<char>::empty()));
            if l.len() > 0 {
                assert(l.last() == r[n - 2]);
                assert(r[n - 2] != ' ');
                assert(!is_ws(l.last())) by {
                    if is_ws(r[n - 2]) {
                        assert(r[n - 2] == ' ' || r[n - 2] == '\n');
                        assert(l[l.len() - 1] == r[n - 2]);
                    }
                }
            }
            assert(tidy(l));
            assert forall|k: int| 0 <= k < q.len() - 1 implies tidy(#[trigger] q[k]) by {
                if k < p.len() - 1 {
                    assert(q[k] == p[k]);
                } else {
                    assert(q[k] == l);
                }
            }
        } else {
            let l2 = l.push(c);
            assert(q =~= p.update(p.len() - 1, l2));
            assert(q.last() == l2);
            if is_ws(c) {
                assert(c == ' ');
                assert(0 < n - 1 && !is_ws(r[n - 2]));
                assert(l.len() > 0);
                assert(l.last() == r[n - 2]);
            }
            if l.len() == 0 {
                assert(!is_ws(c)) by {
                    if is_ws(c) {
                        assert(r[n - 2] == '\n');
                    }
                }
            }
            assert forall|i: int| 0 <= i < l2.len() - 1 implies !(is_ws(#[trigger] l2[i]) && is_ws(l2[i + 1])) by {
                if i < l.len() - 1 {
                    assert(l2[i] == l[i] && l2[i + 1] == l[i + 1]);
                } else {
                    assert(l2[i] == l.last());
                }
            }
            assert forall|i: int| 0 <= i < l2.len() implies !is_decor(#[trigger] l2[i]) by {
                if i < l.len() {
                    assert(l2[i] == l[i]);
                }
            }
            assert forall|i: int| 0 <= i < l2.len() && is_ws(#[trigger] l2[i]) implies l2[i] == ' ' by {
                if i < l.len() {
                    assert(l2[i] == l[i]);
                } else {
                    assert(c != '\n');
                }
            }
            assert forall|k: int| 0 <= k < q.len() - 1 implies tidy(#[trigger] q[k]) by {
                assert(q[k] == p[k]);
            }
        }
    }
}

/// Block law: what [`compress_block`] returns is trimmed, never holds three
/// newlines in a row, and each of its lines is one that [`compress_text`]
/// leaves as it is.
pub proof fn lemma_compress_block_tidy(s: Seq<char>)
    ensures
        trim(compress_block_spec(s)) == compress_block_spec(s),
        forall|i: int|
            0 <= i < compress_block_spec(s).len() - 2 ==> !(#[trigger] compress_block_spec(s)[i] == '\n'
                && compress_block_spec(s)[i + 1] == '\n' && compress_block_spec(s)[i + 2] == '\n'),
        forall|k: int|
            0 <= k < pieces(compress_block_spec(s)).len() ==> compress_spec(#[trigger] pieces(compress_block_spec(s))[k])
                == pieces(compress_block_spec(s))[k],
{
    let cs = lines_of(s).map_values(|l: Seq<char>| compress_spec(l));
    assert forall|k: int| 0 <= k < cs.len() implies tidy(#[trigger] cs[k]) by {
        lemma_compress_tidy(lines_of(s)[k]);
    }
    lemma_squeeze_shape(cs);
    let ls = squeeze_blank(cs);
    lemma_join_shape(ls);
    let j = join_lines(ls);
    let r = compress_block_spec(s);
    lemma_trim_shape(j);
    let (a, b) = choose|a: int, b: int| 0 <= a <= b <= j.len() && r == #[trigger] j.subrange(a, b);
    lemma_trim_fixed(r);
    assert(block_shape(r)) by {
        assert forall|i: int| 0 <= i < r.len() implies !is_decor(#[trigger] r[i]) by {
            assert(r[i] == j[a + i]);
        }
        assert forall|i: int| 0 <= i < r.len() && is_ws(#[trigger] r[i]) implies r[i] == ' ' || r[i] == '\n' by {
            assert(r[i] == j[a + i]);
        }
        assert forall|i: int| 0 <= i < r.len() && #[trigger] r[i] == ' ' implies 0 < i < r.len() - 1 && !is_ws(r[i - 1])
            && !is_ws(r[i + 1]) by {
            assert(r[i] == j[a + i]);
            assert(is_ws(' '));
            if i == 0 {
                assert(r[0] == ' ');
            }
            if i == r.len() - 1 {
                assert(r.last() == ' ');
            }
            assert(r[i - 1] == j[a + i - 1] && r[i + 1] == j[a + i + 1]);
        }
        assert forall|i: int| 0 <= i < r.len() - 2 implies !(#[trigger] r[i] == '\n' && r[i + 1] == '\n' && r[i + 2]
            == '\n') by {
            assert(r[i] == j[a + i] && r[i + 1] == j[a + i + 1] && r[i + 2] == j[a + i + 2]);
        }
    }
    lemma_block_lines_prefix(r, r.len() as int);
    assert(r.take(r.len() as int) =~= r);
    let ps = pieces(r);
    let last = ps.last();
    assert(tidy(last)) by {
        if last.len() > 0 {
            assert(last.last() == r[r.len() - 1]);
            assert(r.last() == r[r.len() - 1]);
        }
    }
    assert forall|k: int| 0 <= k < ps.len() implies compress_spec(#[trigger] ps[k]) == ps[k] by {
        let x = ps[k];
        if k == ps.len() - 1 {
            assert(x == last);
        }
        assert(tidy(x));
        lemma_strip_decor_clean(x);
        lemma_collapse_fixed(x);
        lemma_trim_fixed(x);
    }
}

/// Collapse repeated blank lines while preserving paragraph breaks, and
/// compress whitespace within each line.
pub fn compress_block(text: &str) -> (r: String)
    ensures
        r@ == compress_block_spec(text@),
{
    let ps = split_pieces(text);
    proof {
        lemma_pieces_nonempty(text@);
    }
    let n = if ps[ps.len() - 1].as_str().is_empty() {
        ps.len() - 1
    } else {
        ps.len()
    };
    let ghost ls = lines_of(text@);
    let ghost cs = ls.map_values(|l: Seq<char>| compress_spec(l));
    proof {
        assert(ps@.map_values(|l: String| l@).last() == ps@[ps@.len() - 1]@);
        assert(ls =~~= ps@.map_values(|l: String| l@).take(n as int));
    }
    let mut out = String::new();
    let mut count: usize = 0;
    let mut last_blank = false;
    let mut i: usize = 0;
    while i < n
        invariant
            n <= ps@.len(),
            ls =~= ps@.map_values(|l: String| l@).take(n as int),
            cs == ls.map_values(|l: Seq<char>| compress_spec(l)),
            i <= n,
            count <= i,
            count == squeeze_blank(cs.take(i as int)).len(),
            count > 0 ==> last_blank == (squeeze_blank(cs.take(i as int)).last().len() == 0),
            out@ == join_lines(squeeze_blank(cs.take(i as int))),
        decreases n - i,
    {
        let line = compress_text(ps[i].as_str());
        let blank = line.as_str().is_empty();
        let ghost prev = squeeze_blank(cs.take(i as int));
        proof {
            assert(cs.take(i + 1).drop_last() =~= cs.take(i as int));
            assert(cs.take(i + 1).last() == line@);
        }
        if !(blank && count > 0 && last_blank) {
            proof {
                assert(squeeze_blank(cs.take(i + 1)) == prev.push(line@));
                assert(prev.push(line@).drop_last() =~= prev);
            }
            let ghost before = out@;
            if count > 0 {
                push_char(&mut out, '\n');
            }
            push_str(&mut out, line.as_str());
            proof {
                if count == 0 {
                    assert(before =~= Seq::<char>::empty());
                    assert(out@ =~= line@);
                } else {
                    assert(out@ =~= before + seq!['\n'] + line@);
                }
            }
            count += 1;
            last_blank = blank;
        } else {
            proof {
                assert(squeeze_blank(cs.take(i + 1)) == prev);
            }
        }
        i += 1;
    }
    proof {
        assert(cs.take(n as int) =~= cs);
    }
    let ov = chars_vec(out.as_str());
    let (a, b) = trim_bounds(&ov);
    string_of_range(&ov, a, b)
}

/// The punctuation bytes a BPE tokenizer almost always splits on.
pub open spec fn url_punct(b: u8) -> bool {
    b == 0x2f || b == 0x3a || b == 0x2e || b == 0x3f || b == 0x23 || b == 0x26 || b == 0x3d || b
        == 0x25 || b == 0x7e
}

/// Is this byte one of the punctuation characters a BPE tokenizer almost
/// always splits on?
pub fn is_url_punct(b: u8) -> (r: bool)
    ensures
        r == url_punct(b),
{
    b == 0x2f || b == 0x3a || b == 0x2e || b == 0x3f || b == 0x23 || b == 0x26 || b == 0x3d || b
        == 0x25 || b == 0x7e
}

/// Quarter-token cost of one byte.
pub open spec fn byte_cost(b: u8) -> int {
    if url_punct(b) {
        3
    } else {
        1
    }
}

/// Quarter-token cost of a byte sequence: one per byte, plus two per URL
/// punctuation byte.
pub open spec fn cost_q(b: Seq<u8>) -> int
    decreases b.len(),
{
    if b.len() == 0 {
        0
    } else {
        cost_q(b.drop_last()) + byte_cost(b.last())
    }
}

/// Estimated tokens of a byte sequence.
pub open spec fn tokens(b: Seq<u8>) -> int {
    cost_q(b) / 4
}

pub proof fn lemma_cost_bounds(b: Seq<u8>)
    ensures
        b.len() <= cost_q(b) <= 3 * b.len(),
    decreases b.len(),
{
    if b.len() > 0 {
        lemma_cost_bounds(b.drop_last());
    }
}

pub proof fn lemma_cost_concat(a: Seq<u8>, b: Seq<u8>)
    ensures
        cost_q(a + b) == cost_q(a) + cost_q(b),
    decreases b.len(),
{
    if b.len() == 0 {
        assert(a + b =~= a);
    } else {
        assert((a + b).drop_last() =~= a + b.drop_last());
        lemma_cost_concat(a, b.drop_last());
    }
}

/// A longer prefix never costs less.
pub proof fn lemma_cost_prefix_mono(b: Seq<u8>, i: int, j: int)
    requires
        0 <= i <= j <= b.len(),
    ensures
        cost_q(b.take(i)) + (j - i) <= cost_q(b.take(j)),
    decreases j - i,
{
    if i < j {
        lemma_cost_prefix_mono(b, i, j - 1);
        assert(b.take(j).drop_last() =~= b.take(j - 1));
    }
}

/// Token cost of `text` in quarter-tokens.
fn cost_quarters(text: &str) -> (r: u128)
    ensures
        r == cost_q(bytes_of(text@)),
        bytes_of(text@).len() <= usize::MAX,
        r <= 3 * bytes_of(text@).len(),
{
    let bytes = text.as_bytes();
    let mut total: u128 = 0;
    let mut i: usize = 0;
    while i < bytes.len()
        invariant
            bytes@ == bytes_of(text@),
            i <= bytes@.len(),
            total == cost_q(bytes@.take(i as int)),
            total <= 3 * i,
        decreases bytes.len() - i,
    {
        proof {
            assert(bytes@.take(i + 1).drop_last() =~= bytes@.take(i as int));
        }
        total = total + if is_url_punct(bytes[i]) {
            3
        } else {
            1
        };
        i += 1;
    }
    assert(bytes@.take(bytes@.len() as int) =~= bytes@);
    total
}

/// Estimated tokens of the bytes `from..to` of a text.
pub fn estimate_range(bytes: &[u8], from: usize, to: usize) -> (r: usize)
    requires
        from <= to <= bytes@.len(),
    ensures
        r == tokens(bytes@.subrange(from as int, to as int)),
{
    let mut total: u128 = 0;
    let mut i: usize = from;
    while i < to
        invariant
            from <= i <= to <= bytes@.len(),
            total == cost_q(bytes@.subrange(from as int, i as int)),
            total <= 3 * (i - from),
        decreases to - i,
    {
        proof {
            assert(bytes@.subrange(from as int, i + 1).drop_last() =~= bytes@.subrange(
                from as int,
                i as int,
            ));
        }
        total = total + if is_url_punct(bytes[i]) {
            3
        } else {
            1
        };
        i += 1;
    }
    (total / 4) as usize
}

/// The estimate counted the plain way: a quarter token per byte and half a
/// token more per URL punctuation byte, rounded down.
pub proof fn lemma_tokens_count_form(b: Seq<u8>)
    ensures
        tokens(b) == (b.len() + 2 * b.filter(|x: u8| url_punct(x)).len()) / 4,
{
    lemma_cost_counts_punct(b);
}

proof fn lemma_cost_counts_punct(b: Seq<u8>)
    ensures
        cost_q(b) == b.len() + 2 * b.filter(|x: u8| url_punct(x)).len(),
    decreases b.len(),
{
    reveal_with_fuel(Seq::filter, 1);
    if b.len() > 0 {
        lemma_cost_counts_punct(b.drop_last());
    }
}

/// Fast token approximation.
///
/// Prose is ~4 characters per token; URLs and reference blocks are
/// punctuation-dense, so each URL punctuation byte adds half a token.
pub fn estimate_tokens(text: &str) -> (r: usize)
    ensures
        r == tokens(bytes_of(text@)),
{
    let q = cost_quarters(text);
    proof {
        lemma_cost_bounds(bytes_of(text@));
    }
    (q / 4) as usize
}

/// The elision marker appended when [`truncate_to_tokens`] drops content.
pub const TRUNCATION_MARKER: &'static str = "\n…[truncated]";

/// Bytes of the elision marker.
pub open spec fn marker_bytes() -> Seq<u8> {
    bytes_of(TRUNCATION_MARKER@)
}

/// The longest prefix of `b` whose cost fits `budget`.
pub open spec fn fit_prefix(b: Seq<u8>, budget: int) -> int
    decreases b.len(),
{
    if b.len() == 0 || cost_q(b) <= budget {
        b.len() as int
    } else {
        fit_prefix(b.drop_last(), budget)
    }
}

/// The largest character boundary at or before `i`.
pub open spec fn floor_boundary(b: Seq<u8>, i: int) -> int
    decreases i,
{
    if i <= 0 {
        0
    } else if is_char_boundary(b, i) {
        i
    } else {
        floor_boundary(b, i - 1)
    }
}

/// The first character boundary at or after `i` (the end counts).
pub open spec fn ceil_boundary(b: Seq<u8>, i: int) -> int
    decreases b.len() - i,
{
    if i >= b.len() {
        b.len() as int
    } else if is_char_boundary(b, i) {
        i
    } else {
        ceil_boundary(b, i + 1)
    }
}

/// Start of the last occurrence of `p` in `h`.
pub open spec fn rfind(h: Seq<u8>, p: Seq<u8>) -> Option<int>
    decreases h.len(),
{
    if h.len() < p.len() {
        None
    } else if h.subrange(h.len() - p.len(), h.len() as int) == p {
        Some(h.len() - p.len())
    } else if h.len() == 0 {
        None
    } else {
        rfind(h.drop_last(), p)
    }
}

/// A cut at `end`, pulled back to the nearest paragraph, line, or word break
/// that lies within the last fifth of the window; otherwise left alone.
pub open spec fn snap_spec(b: Seq<u8>, end: int) -> int {
    if end == 0 || end >= b.len() {
        end
    } else {
        let floor = end - end / 5;
        let head = b.take(end);
        match rfind(head, seq![0x0au8, 0x0au8]) {
            Some(at) if at + 2 >= floor => at + 2,
            _ => match rfind(head, seq![0x0au8]) {
                Some(at) if at + 1 >= floor => at + 1,
                _ => match rfind(head, seq![0x20u8]) {
                    Some(at) if at + 1 >= floor => at + 1,
                    _ => end,
                },
            },
        }
    }
}

/// Where [`truncate_to_tokens_at`] cuts `b` for a budget of `n` tokens, when
/// it has to cut at all.
pub open spec fn cut_point(b: Seq<u8>, n: int) -> int {
    let budget = if 4 * n >= cost_q(marker_bytes()) {
        4 * n - cost_q(marker_bytes())
    } else {
        0
    };
    let end = snap_spec(b, floor_boundary(b, fit_prefix(b, budget)));
    if end == 0 {
        ceil_boundary(b, 1)
    } else {
        end
    }
}

/// How many bytes of `b` a window of `n` tokens consumes.
pub open spec fn consumed(b: Seq<u8>, n: int) -> int {
    if tokens(b) <= n {
        b.len() as int
    } else {
        cut_point(b, n)
    }
}

proof fn lemma_fit_prefix(b: Seq<u8>, budget: int)
    requires
        budget >= 0,
    ensures
        0 <= fit_prefix(b, budget) <= b.len(),
        cost_q(b.take(fit_prefix(b, budget))) <= budget,
        fit_prefix(b, budget) < b.len() ==> cost_q(b.take(fit_prefix(b, budget) + 1)) > budget,
    decreases b.len(),
{
    assert(b.take(b.len() as int) =~= b);
    if cost_q(b) > budget {
        lemma_fit_prefix(b.drop_last(), budget);
        let k = fit_prefix(b, budget);
        assert(b.drop_last().take(k) =~= b.take(k));
        if k + 1 < b.len() {
            assert(b.drop_last().take(k + 1) =~= b.take(k + 1));
        }
    }
}

pub proof fn lemma_floor_boundary(b: Seq<u8>, i: int)
    requires
        valid_utf8(b),
        0 <= i <= b.len(),
    ensures
        0 <= floor_boundary(b, i) <= i,
        is_char_boundary(b, floor_boundary(b, i)),
    decreases i,
{
    broadcast use is_char_boundary_start_end_of_seq;

    if i > 0 && !is_char_boundary(b, i) {
        lemma_floor_boundary(b, i - 1);
    }
}

pub proof fn lemma_ceil_boundary(b: Seq<u8>, i: int)
    requires
        valid_utf8(b),
        0 <= i,
    ensures
        i <= b.len() ==> i <= ceil_boundary(b, i),
        ceil_boundary(b, i) <= b.len(),
        is_char_boundary(b, ceil_boundary(b, i)),
    decreases b.len() - i,
{
    broadcast use is_char_boundary_start_end_of_seq;

    if i < b.len() && !is_char_boundary(b, i) {
        lemma_ceil_boundary(b, i + 1);
    }
}

proof fn lemma_rfind(h: Seq<u8>, p: Seq<u8>)
    requires
        p.len() > 0,
    ensures
        rfind(h, p) matches Some(at) ==> 0 <= at && at + p.len() <= h.len() && h.subrange(
            at,
            at + p.len(),
        ) == p,
    decreases h.len(),
{
    if h.len() >= p.len() && h.subrange(h.len() - p.len(), h.len() as int) != p {
        lemma_rfind(h.drop_last(), p);
        if let Some(at) = rfind(h, p) {
            assert(h.drop_last().subrange(at, at + p.len()) =~= h.subrange(at, at + p.len()));
        }
    }
}

/// An ASCII byte of valid UTF-8 starts a character, and so does the byte
/// after it.
pub proof fn lemma_ascii_boundary(b: Seq<u8>, i: int)
    requires
        valid_utf8(b),
        0 <= i < b.len(),
        b[i] < 0x80,
    ensures
        is_char_boundary(b, i),
        is_char_boundary(b, i + 1),
{
    broadcast use is_char_boundary_iff_not_is_continuation_byte;

    let x = b[i];
    assert(!is_continuation_byte(x)) by (bit_vector)
        requires
            x < 0x80,
    ;
    lemma_after_ascii(b, i);
}

proof fn lemma_after_ascii(b: Seq<u8>, i: int)
    requires
        valid_utf8(b),
        0 <= i < b.len(),
        is_char_boundary(b, i),
        b[i] < 0x80,
    ensures
        is_char_boundary(b, i + 1),
    decreases b.len(),
{
    let x = b[i];
    let l = length_of_first_scalar(b);
    let rest = pop_first_scalar(b);
    assert(0 < l <= b.len());
    assert(rest.len() == b.len() - l);
    if i == 0 {
        assert(is_leading_byte_width_1(x)) by (bit_vector)
            requires
                x < 0x80,
        ;
        assert(l == 1);
        assert(is_char_boundary(rest, 0));
    } else {
        assert(is_char_boundary(rest, i - l));
        assert(i - l >= 0);
        assert(rest[i - l] == b[i]);
        lemma_after_ascii(rest, i - l);
    }
}


/// Start of the last occurrence of `p` in `h[..end]`.
fn rfind_bytes(h: &[u8], end: usize, p: &[u8]) -> (r: Option<usize>)
    requires
        end <= h@.len(),
        p@.len() > 0,
    ensures
        r matches Some(at) ==> rfind(h@.take(end as int), p@) == Some(at as int),
        r is None ==> rfind(h@.take(end as int), p@) is None,
{
    let mut e = end;
    while e >= p.len()
        invariant
            e <= end <= h@.len(),
            p@.len() > 0,
            rfind(h@.take(end as int), p@) == rfind(h@.take(e as int), p@),
        decreases e,
    {
        let start = e - p.len();
        let mut k: usize = 0;
        let mut same = true;
        while k < p.len()
            invariant
                start + p@.len() == e <= h@.len(),
                k <= p@.len(),
                same == (forall|j: int| 0 <= j < k ==> h@[start + j] == p@[j]),
            decreases p.len() - k,
        {
            if h[start + k] != p[k] {
                same = false;
            }
            k += 1;
        }
        proof {
            let w = h@.take(e as int);
            assert(w.subrange(w.len() - p@.len(), w.len() as int) =~= h@.subrange(
                start as int,
                e as int,
            ));
            if same {
                assert(h@.subrange(start as int, e as int) =~= p@);
            } else {
                assert(h@.subrange(start as int, e as int) != p@) by {
                    let j = choose|j: int| 0 <= j < p@.len() && h@[start + j] != p@[j];
                    assert(h@.subrange(start as int, e as int)[j] != p@[j]);
                }
                assert(w.drop_last() =~= h@.take(e - 1));
            }
        }
        if same {
            return Some(start);
        }
        e -= 1;
    }
    None
}

proof fn lemma_rfind_bound(h: Seq<u8>, p: Seq<u8>)
    requires
        p.len() > 0,
    ensures
        rfind(h, p) matches Some(at) ==> 0 <= at && at + p.len() <= h.len() && h[at + p.len()
            - 1] == p[p.len() - 1],
    decreases h.len(),
{
    if h.len() >= p.len() && h.subrange(h.len() - p.len(), h.len() as int) == p {
        assert(h.subrange(h.len() - p.len(), h.len() as int)[p.len() - 1] == h[h.len() - 1]);
    } else if h.len() >= p.len() && h.len() > 0 {
        lemma_rfind_bound(h.drop_last(), p);
    }
}

/// Pull a cut back to the nearest paragraph, line, or word boundary.
///
/// A window that ends mid-word reads as corrupted rather than continued.
/// Snapping costs a few tokens and keeps both halves readable; beyond a fifth
/// of the window the text has no usable break and the hard cut stands.
fn snap_to_boundary(text: &str, end: usize) -> (r: usize)
    requires
        end <= bytes_of(text@).len(),
        is_char_boundary(bytes_of(text@), end as int),
    ensures
        r == snap_spec(bytes_of(text@), end as int),
        is_char_boundary(bytes_of(text@), r as int),
        r <= end,
        end > 0 ==> r > 0,
{
    let bytes = text.as_bytes();
    let ghost b = bytes@;
    if end == 0 || end >= bytes.len() {
        return end;
    }
    let floor = end - end / 5;
    let para: [u8; 2] = [0x0a, 0x0a];
    let line: [u8; 1] = [0x0a];
    let space: [u8; 1] = [0x20];
    proof {
        assert(para@ =~= seq![0x0au8, 0x0au8]);
        assert(line@ =~= seq![0x0au8]);
        assert(space@ =~= seq![0x20u8]);
        lemma_rfind_bound(b.take(end as int), para@);
        lemma_rfind_bound(b.take(end as int), line@);
        lemma_rfind_bound(b.take(end as int), space@);
    }
    if let Some(at) = rfind_bytes(bytes, end, &para) {
        if at + 2 >= floor {
            proof {
                lemma_ascii_boundary(b, at + 1);
            }
            return at + 2;
        }
    }
    if let Some(at) = rfind_bytes(bytes, end, &line) {
        if at + 1 >= floor {
            proof {
                lemma_ascii_boundary(b, at as int);
            }
            return at + 1;
        }
    }
    if let Some(at) = rfind_bytes(bytes, end, &space) {
        if at + 1 >= floor {
            proof {
                lemma_ascii_boundary(b, at as int);
            }
            return at + 1;
        }
    }
    end
}

/// The fit prefix is the only length that fits the budget while one more
/// byte would not.
proof fn lemma_fit_prefix_unique(b: Seq<u8>, budget: int, e: int)
    requires
        budget >= 0,
        0 <= e <= b.len(),
        cost_q(b.take(e)) <= budget,
        e < b.len() ==> cost_q(b.take(e + 1)) > budget,
    ensures
        fit_prefix(b, budget) == e,
{
    lemma_fit_prefix(b, budget);
    let f = fit_prefix(b, budget);
    if f < e {
        lemma_cost_prefix_mono(b, f + 1, e);
    } else if e < f {
        lemma_cost_prefix_mono(b, e + 1, f);
    }
}

/// [`truncate_to_tokens`], also reporting how many bytes of `text` the
/// returned prefix consumed.
///
/// Callers that page through a document resume from the consumption, so it is
/// returned exactly rather than re-derived from a lossy token count. The count
/// covers only `text`; the elision marker is not part of it.
pub fn truncate_to_tokens_at(text: &str, max_tokens: usize) -> (r: (String, usize))
    ensures
        r.1 == consumed(bytes_of(text@), max_tokens as int),
        r.1 <= bytes_of(text@).len(),
        is_char_boundary(bytes_of(text@), r.1 as int),
        tokens(bytes_of(text@)) <= max_tokens ==> r.0@ == text@,
        tokens(bytes_of(text@)) > max_tokens ==> bytes_of(r.0@) == bytes_of(text@).take(
            r.1 as int,
        ) + marker_bytes(),
        r.0@ == truncated(text@, max_tokens as int),
{
    broadcast use is_char_boundary_start_end_of_seq;

    let bytes = text.as_bytes();
    let ghost b = bytes@;
    let total = cost_quarters(text);
    if total / 4 <= max_tokens as u128 {
        return (crate::text::owned(text), bytes.len());
    }
    proof {
        lemma_cost_bounds(b);
        lemma_cost_bounds(marker_bytes());
    }
    let marker_cost = cost_quarters(TRUNCATION_MARKER);
    let four = (max_tokens as u128) * 4;
    let budget: u128 = if four >= marker_cost {
        four - marker_cost
    } else {
        0
    };
    let mut spent: u128 = 0;
    let mut end: usize = 0;
    while end < bytes.len()
        invariant
            b == bytes@,
            end <= b.len(),
            spent == cost_q(b.take(end as int)),
            spent <= budget,
            budget <= 4 * (max_tokens as u128),
        ensures
            end <= b.len(),
            spent == cost_q(b.take(end as int)),
            spent <= budget,
            end < b.len() ==> cost_q(b.take(end + 1)) > budget,
        decreases bytes.len() - end,
    {
        let next = spent + if is_url_punct(bytes[end]) {
            3
        } else {
            1
        };
        proof {
            assert(b.take(end + 1).drop_last() =~= b.take(end as int));
        }
        if next > budget {
            break;
        }
        spent = next;
        end += 1;
    }
    proof {
        lemma_fit_prefix_unique(b, budget as int, end as int);
    }
    let ghost fit = end as int;
    while end > 0 && !text.is_char_boundary(end)
        invariant
            end <= b.len(),
            b == bytes_of(text@),
            floor_boundary(b, fit) == floor_boundary(b, end as int),
        decreases end,
    {
        end -= 1;
    }
    proof {
        lemma_floor_boundary(b, end as int);
    }
    let mut cut = snap_to_boundary(text, end);
    if cut == 0 {
        let mut e: usize = 1;
        while e < bytes.len() && !text.is_char_boundary(e)
            invariant
                1 <= e <= b.len(),
                b == bytes_of(text@),
                b == bytes@,
                ceil_boundary(b, 1) == ceil_boundary(b, e as int),
            decreases bytes.len() - e,
        {
            e += 1;
        }
        cut = e;
    }
    proof {
        lemma_cost_bounds(b);
        lemma_cost_bounds(marker_bytes());
    }
    let (head, _) = text.split_at(cut);
    let mut out = crate::text::owned(head);
    let ghost hv = out@;
    push_str(&mut out, TRUNCATION_MARKER);
    proof {
        assert(bytes_of(hv) == b.take(cut as int)) by {
            assert(head.spec_bytes() =~= b.subrange(0, cut as int));
        }
        lemma_bytes_concat(hv, TRUNCATION_MARKER@);
        broadcast use encode_utf8_decode_utf8;

        assert(out@ == decode_utf8(bytes_of(out@)));
    }
    (out, cut)
}

/// The characters [`truncate_to_tokens`] returns for `s` and a budget of `n`
/// tokens: `s` itself when it fits, else the consumed prefix plus the marker.
pub open spec fn truncated(s: Seq<char>, n: int) -> Seq<char> {
    if tokens(bytes_of(s)) <= n {
        s
    } else {
        decode_utf8(bytes_of(s).take(consumed(bytes_of(s), n)) + marker_bytes())
    }
}

/// Truncate text to roughly `max_tokens`, on a character boundary, appending
/// an elision marker when content is dropped.
pub fn truncate_to_tokens(text: &str, max_tokens: usize) -> (r: String)
    ensures
        r@ == truncated(text@, max_tokens as int),
        tokens(bytes_of(text@)) > max_tokens ==> bytes_of(r@) == bytes_of(text@).take(
            consumed(bytes_of(text@), max_tokens as int),
        ) + marker_bytes(),
{
    broadcast use encode_utf8_decode_utf8;

    truncate_to_tokens_at(text, max_tokens).0
}

/// The remainder of `text` from a byte `offset`, for reading a long document a
/// window at a time.
///
/// The offset is clamped to the document and snapped back to a character
/// boundary, so an offset from any source is safe to pass.
pub fn window_from(text: &str, offset: usize) -> (r: &str)
    ensures
        bytes_of(r@) == bytes_of(text@).skip(
            floor_boundary(
                bytes_of(text@),
                if offset <= bytes_of(text@).len() {
                    offset as int
                } else {
                    bytes_of(text@).len() as int
                },
            ),
        ),
{
    broadcast use is_char_boundary_start_end_of_seq;

    let bytes = text.as_bytes();
    let ghost b = bytes@;
    let mut start = if offset <= bytes.len() {
        offset
    } else {
        bytes.len()
    };
    let ghost s0 = start as int;
    while start > 0 && !text.is_char_boundary(start)
        invariant
            start <= b.len(),
            b == bytes_of(text@),
            floor_boundary(b, s0) == floor_boundary(b, start as int),
        decreases start,
    {
        start -= 1;
    }
    let (_, tail) = text.split_at(start);
    proof {
        assert(tail.spec_bytes() =~= b.skip(start as int));
    }
    tail
}


proof fn lemma_floor_le(b: Seq<u8>, i: int)
    ensures
        floor_boundary(b, i) <= if i < 0 { 0 } else { i },
        floor_boundary(b, i) >= 0,
    decreases i,
{
    if i > 0 && !is_char_boundary(b, i) {
        lemma_floor_le(b, i - 1);
    }
}

/// A boundary at or below `i` bounds the floor from below.
proof fn lemma_floor_ge(b: Seq<u8>, i: int, j: int)
    requires
        0 <= j <= i,
        is_char_boundary(b, j),
    ensures
        floor_boundary(b, i) >= j,
    decreases i,
{
    if i > 0 && !is_char_boundary(b, i) {
        lemma_floor_ge(b, i - 1, j);
    }
}

/// A boundary at or above `i` bounds the ceiling from above.
proof fn lemma_ceil_le(b: Seq<u8>, i: int, j: int)
    requires
        0 <= i <= j <= b.len(),
        is_char_boundary(b, j),
    ensures
        ceil_boundary(b, i) <= j,
    decreases b.len() - i,
{
    if i < b.len() && !is_char_boundary(b, i) {
        lemma_ceil_le(b, i + 1, j);
    }
}

proof fn lemma_ceil_ge(b: Seq<u8>, i: int)
    requires
        0 <= i <= b.len(),
    ensures
        i <= ceil_boundary(b, i) <= b.len(),
    decreases b.len() - i,
{
    if i < b.len() && !is_char_boundary(b, i) {
        lemma_ceil_ge(b, i + 1);
    }
}

proof fn lemma_snap_bounds(b: Seq<u8>, end: int)
    requires
        0 <= end <= b.len(),
    ensures
        snap_spec(b, end) <= end,
        end > 0 ==> snap_spec(b, end) > 0,
{
    if end > 0 && end < b.len() {
        let head = b.take(end);
        lemma_rfind_bound(head, seq![0x0au8, 0x0au8]);
        lemma_rfind_bound(head, seq![0x0au8]);
        lemma_rfind_bound(head, seq![0x20u8]);
    }
}

proof fn lemma_fit_prefix_bounds(b: Seq<u8>, budget: int)
    ensures
        0 <= fit_prefix(b, budget) <= b.len(),
    decreases b.len(),
{
    if !(b.len() == 0 || cost_q(b) <= budget) {
        lemma_fit_prefix_bounds(b.drop_last(), budget);
    }
}

/// Every window makes progress and stays inside the text it reads.
pub proof fn lemma_consumed_progress(b: Seq<u8>, n: int)
    ensures
        0 <= consumed(b, n) <= b.len(),
        b.len() > 0 ==> consumed(b, n) > 0,
{
    if tokens(b) > n {
        let budget = if 4 * n >= cost_q(marker_bytes()) {
            4 * n - cost_q(marker_bytes())
        } else {
            0
        };
        let fit = fit_prefix(b, budget);
        lemma_fit_prefix_bounds(b, budget);
        lemma_floor_le(b, fit);
        let fl = floor_boundary(b, fit);
        lemma_snap_bounds(b, fl);
        if snap_spec(b, fl) == 0 {
            if b.len() >= 1 {
                lemma_ceil_ge(b, 1);
            }
        }
        lemma_cost_bounds(b);
    }
}

/// The concatenation of successive windows, each starting where the last one
/// stopped, from byte `off` to the end.
pub open spec fn paged(b: Seq<u8>, n: int, off: int) -> Seq<u8>
    decreases b.len() - off,
{
    if off < 0 || off >= b.len() {
        Seq::<u8>::empty()
    } else {
        let w = b.skip(off);
        let c = consumed(w, n);
        if c <= 0 || c > w.len() {
            Seq::<u8>::empty()
        } else {
            w.take(c) + paged(b, n, off + c)
        }
    }
}

/// Paging law: walking the reported consumption from one window to the next
/// reproduces the document exactly — nothing repeated, nothing skipped — and
/// the walk ends, whatever the token budget.
pub proof fn lemma_windows_tile(b: Seq<u8>, n: int, off: int)
    requires
        0 <= off <= b.len(),
    ensures
        paged(b, n, off) == b.skip(off),
    decreases b.len() - off,
{
    if off < b.len() {
        let w = b.skip(off);
        lemma_consumed_progress(w, n);
        let c = consumed(w, n);
        lemma_windows_tile(b, n, off + c);
        assert(w.take(c) + b.skip(off + c) =~= b.skip(off));
    } else {
        assert(b.skip(off) =~= Seq::<u8>::empty());
    }
}

/// The elision marker costs fifteen quarter-tokens.
proof fn lemma_marker_cost()
    ensures
        cost_q(marker_bytes()) == 15,
{
    reveal_strlit("\n…[truncated]");
    let m = TRUNCATION_MARKER@;
    let head = seq!['\n'];
    let dots = seq!['\u{2026}'];
    let tail = m.skip(2);
    assert(m =~= head + dots + tail);
    lemma_bytes_concat(head + dots, tail);
    lemma_bytes_concat(head, dots);
    crate::text::lemma_bytes_ascii_char('\n');
    crate::text::lemma_bytes_ascii_seq(tail);
    reveal_with_fuel(encode_utf8, 2);
    assert(dots.drop_first() =~= Seq::<char>::empty());
    let u = 0x2026u32;
    assert(leading_byte_width_3(u) == 0xE2) by (bit_vector)
        requires
            u == 0x2026,
    ;
    assert(second_last_continuation_byte(u) == 0x80) by (bit_vector)
        requires
            u == 0x2026,
    ;
    assert(last_continuation_byte(u) == 0xA6) by (bit_vector)
        requires
            u == 0x2026,
    ;
    assert(bytes_of(dots) =~= seq![0xE2u8, 0x80u8, 0xA6u8]);
    let tb = bytes_of(tail);
    assert(tb =~= seq![0x5bu8, 0x74, 0x72, 0x75, 0x6e, 0x63, 0x61, 0x74, 0x65, 0x64, 0x5d]);
    reveal_with_fuel(cost_q, 12);
    lemma_cost_concat(bytes_of(head) + bytes_of(dots), tb);
    lemma_cost_concat(bytes_of(head), bytes_of(dots));
    assert(cost_q(seq![0x0au8]) == 1);
    assert(cost_q(seq![0xE2u8, 0x80u8, 0xA6u8]) == 3);
    assert(cost_q(tb) == 11);
}

/// Cost of the first character is at most twelve quarter-tokens (at most four
/// bytes, at most three each), and it ends at a boundary no later than byte 4.
proof fn lemma_first_char(b: Seq<u8>)
    requires
        valid_utf8(b),
        b.len() > 0,
    ensures
        1 <= ceil_boundary(b, 1) <= 4,
        ceil_boundary(b, 1) <= b.len(),
        cost_q(b.take(ceil_boundary(b, 1))) <= 12,
{
    let l = length_of_first_scalar(b);
    assert(1 <= l <= 4);
    assert(is_char_boundary(b, l)) by {
        assert(is_char_boundary(pop_first_scalar(b), 0));
    }
    lemma_ceil_le(b, 1, l);
    lemma_ceil_ge(b, 1);
    let c = ceil_boundary(b, 1);
    lemma_cost_bounds(b.take(c));
}

pub proof fn lemma_cost_plain(s: Seq<u8>)
    requires
        forall|i: int| 0 <= i < s.len() ==> !url_punct(#[trigger] s[i]),
    ensures
        cost_q(s) == s.len(),
    decreases s.len(),
{
    if s.len() > 0 {
        lemma_cost_plain(s.drop_last());
    }
}

/// The first character costs at most four quarter-tokens: an ASCII byte
/// costs at most three, and every byte of a longer encoding is above the
/// URL punctuation and costs one.
proof fn lemma_first_char_cost(b: Seq<u8>)
    requires
        valid_utf8(b),
        b.len() > 0,
    ensures
        cost_q(b.take(ceil_boundary(b, 1))) <= 4,
{
    lemma_first_char(b);
    assert(valid_first_scalar(b));
    let l = length_of_first_scalar(b);
    let c = ceil_boundary(b, 1);
    assert(is_char_boundary(b, l)) by {
        assert(is_char_boundary(pop_first_scalar(b), 0));
    }
    lemma_ceil_le(b, 1, l);
    lemma_ceil_ge(b, 1);
    let t = b.take(c);
    assert(t.len() == c);
    if l == 1 {
        assert(c == 1);
        assert(t.drop_last() =~= Seq::<u8>::empty());
        assert(t.last() == b[0]);
        assert(cost_q(t) == cost_q(t.drop_last()) + byte_cost(t.last()));
    } else {
        assert(b[0] >= 0xc0);
        assert forall|i: int| 0 <= i < t.len() implies !url_punct(#[trigger] t[i]) by {
            assert(t[i] == b[i]);
            assert(i < l);
            if i > 0 {
                assert(is_continuation_byte(b[i]));
            }
            assert(b[i] >= 0x80);
        }
        lemma_cost_plain(t);
    }
}

/// Budget law: when the text has to be cut, the cut output — kept prefix plus
/// elision marker — fits the token budget, for any budget of four tokens or
/// more. The marker costs fifteen quarter-tokens; what fits the rest of the
/// budget is kept, and when nothing does, the one character always kept
/// costs at most four.
pub proof fn lemma_truncation_fits_budget(b: Seq<u8>, n: int)
    requires
        valid_utf8(b),
        n >= 4,
    ensures
        tokens(b) > n ==> tokens(b.take(consumed(b, n)) + marker_bytes()) <= n,
{
    if tokens(b) > n {
        lemma_marker_cost();
        lemma_cost_bounds(b);
        let budget = 4 * n - 15;
        let fit = fit_prefix(b, budget);
        lemma_fit_prefix(b, budget);
        lemma_floor_le(b, fit);
        let fl = floor_boundary(b, fit);
        lemma_snap_bounds(b, fl);
        let end = snap_spec(b, fl);
        let cut = consumed(b, n);
        if end > 0 {
            assert(cut == end);
            lemma_cost_prefix_mono(b, cut, fit);
        } else {
            assert(cut == ceil_boundary(b, 1));
            lemma_first_char_cost(b);
        }
        lemma_cost_concat(b.take(cut), marker_bytes());
    }
}


proof fn lemma_snap_boundary(b: Seq<u8>, end: int)
    requires
        valid_utf8(b),
        0 <= end <= b.len(),
        is_char_boundary(b, end),
    ensures
        is_char_boundary(b, snap_spec(b, end)),
{
    if end > 0 && end < b.len() {
        let head = b.take(end);
        let p2 = seq![0x0au8, 0x0au8];
        let p1 = seq![0x0au8];
        let ps = seq![0x20u8];
        lemma_rfind_bound(head, p2);
        lemma_rfind_bound(head, p1);
        lemma_rfind_bound(head, ps);
        if let Some(at) = rfind(head, p2) {
            assert(head[at + 1] == b[at + 1]);
            lemma_ascii_boundary(b, at + 1);
        }
        if let Some(at) = rfind(head, p1) {
            assert(head[at] == b[at]);
            lemma_ascii_boundary(b, at);
        }
        if let Some(at) = rfind(head, ps) {
            assert(head[at] == b[at]);
            lemma_ascii_boundary(b, at);
        }
    }
}

/// A window always ends on a character boundary.
pub proof fn lemma_consumed_boundary(b: Seq<u8>, n: int)
    requires
        valid_utf8(b),
    ensures
        is_char_boundary(b, consumed(b, n)),
{
    broadcast use is_char_boundary_start_end_of_seq;

    if tokens(b) > n {
        let budget = if 4 * n >= cost_q(marker_bytes()) {
            4 * n - cost_q(marker_bytes())
        } else {
            0
        };
        let fit = fit_prefix(b, budget);
        lemma_fit_prefix_bounds(b, budget);
        lemma_floor_boundary(b, fit);
        let fl = floor_boundary(b, fit);
        lemma_snap_boundary(b, fl);
        lemma_ceil_boundary(b, 1);
    }
}

/// Budget law, on characters: for any budget of four tokens or more, the
/// truncated text fits it.
pub proof fn lemma_truncated_fits(s: Seq<char>, n: int)
    requires
        n >= 4,
    ensures
        tokens(bytes_of(truncated(s, n))) <= n,
{
    broadcast use valid_utf8_concat, valid_utf8_split, decode_utf8_encode_utf8;

    let b = bytes_of(s);
    if tokens(b) > n {
        lemma_truncation_fits_budget(b, n);
        lemma_consumed_boundary(b, n);
        lemma_consumed_progress(b, n);
        let c = consumed(b, n);
        assert(b.take(c) =~= b.subrange(0, c));
        assert(valid_utf8(b.take(c)));
        assert(valid_utf8(b.take(c) + marker_bytes()));
    }
}

/// A truncation is the text itself, or a prefix of it cut at a character
/// boundary followed by the elision marker.
pub proof fn lemma_truncated_is_cut(s: Seq<char>, n: int)
    ensures
        truncated(s, n) == s || (is_char_boundary(bytes_of(s), consumed(bytes_of(s), n)) && bytes_of(
            truncated(s, n),
        ) == bytes_of(s).take(consumed(bytes_of(s), n)) + marker_bytes()),
{
    broadcast use valid_utf8_concat, valid_utf8_split, decode_utf8_encode_utf8;

    let b = bytes_of(s);
    if tokens(b) > n {
        lemma_consumed_boundary(b, n);
        lemma_consumed_progress(b, n);
        let c = consumed(b, n);
        assert(b.take(c) =~= b.subrange(0, c));
        assert(valid_utf8(b.take(c)));
        assert(valid_utf8(b.take(c) + marker_bytes()));
    }
}

} // verus!
