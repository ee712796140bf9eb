//! Listing rows inside a token budget: whole rows are kept while they fit,
//! so a budget cuts between rows rather than through one.

use vstd::prelude::*;

use crate::compress::{cost_q, estimate_tokens, join_lines, lemma_cost_concat, lemma_cost_plain, tokens, url_punct};
use crate::json::strings_view;
use crate::text::{
    bytes_of, decimal, lemma_bytes_ascii_seq, lemma_bytes_concat, lemma_decimal_digits, owned, push_char, push_str,
    usize_to_string,
};

verus! {

/// Rows taken from `i` on while the listing so far, with the footer, stays
/// within `max` tokens: the listing kept and how many rows it holds.
pub open spec fn fit_from(rows: Seq<Seq<char>>, i: int, body: Seq<char>, max: int, footer: Seq<char>) -> (
    Seq<char>,
    int,
)
    decreases rows.len() - i,
{
    if i < 0 || i >= rows.len() {
        (body, i)
    } else {
        let cand = if body.len() == 0 {
            rows[i]
        } else {
            body + seq!['\n'] + rows[i]
        };
        if tokens(bytes_of(cand + footer)) > max {
            (body, i)
        } else {
            fit_from(rows, i + 1, cand, max, footer)
        }
    }
}

/// Rows taken while they fit are a leading run of the rows, joined with
/// newlines (every row being non-empty, the empty listing is the empty
/// run).
pub proof fn lemma_fit_from_prefix(rows: Seq<Seq<char>>, i: int, body: Seq<char>, max: int, footer: Seq<char>)
    requires
        0 <= i <= rows.len(),
        forall|k: int| 0 <= k < rows.len() ==> (#[trigger] rows[k]).len() > 0,
        body == join_lines(rows.take(i)),
    ensures
        i <= fit_from(rows, i, body, max, footer).1 <= rows.len(),
        fit_from(rows, i, body, max, footer).0 == join_lines(rows.take(fit_from(rows, i, body, max, footer).1)),
    decreases rows.len() - i,
{
    if i < rows.len() {
        let cand = if body.len() == 0 {
            rows[i]
        } else {
            body + seq!['\n'] + rows[i]
        };
        let t = rows.take(i + 1);
        assert(t.drop_last() =~= rows.take(i));
        assert(t.last() == rows[i]);
        if i == 0 {
            assert(t =~= seq![rows[0]]);
            assert(join_lines(t) == rows[0]);
        } else {
            assert(body.len() > 0) by {
                let u = rows.take(i);
                assert(u.last() == rows[i - 1]);
                if i == 1 {
                    assert(join_lines(u) == u[0]);
                } else {
                    assert(join_lines(u) == join_lines(u.drop_last()) + seq!['\n'] + u.last());
                }
            }
            assert(join_lines(t) == join_lines(t.drop_last()) + seq!['\n'] + t.last());
        }
        assert(cand == join_lines(t));
        if tokens(bytes_of(cand + footer)) <= max {
            lemma_fit_from_prefix(rows, i + 1, cand, max, footer);
        }
    }
}

/// Take rows while they fit.
pub fn fit_rows(rows: &Vec<String>, max_tokens: usize, footer: &str) -> (r: (String, usize))
    ensures
        (r.0@, r.1 as int) == fit_from(strings_view(rows@), 0, Seq::<char>::empty(), max_tokens as int, footer@),
        r.1 <= rows@.len(),
{
    let ghost rv = strings_view(rows@);
    let mut body = String::new();
    let mut shown: usize = 0;
    while shown < rows.len()
        invariant
            rv == strings_view(rows@),
            shown <= rows@.len(),
            fit_from(rv, 0, Seq::<char>::empty(), max_tokens as int, footer@) == fit_from(
                rv,
                shown as int,
                body@,
                max_tokens as int,
                footer@,
            ),
        decreases rows.len() - shown,
    {
        let mut cand = String::new();
        if body.as_str().is_empty() {
            push_str(&mut cand, rows[shown].as_str());
        } else {
            push_str(&mut cand, body.as_str());
            push_char(&mut cand, '\n');
            push_str(&mut cand, rows[shown].as_str());
        }
        let mut probe = cand.clone();
        push_str(&mut probe, footer);
        proof {
            if body@.len() == 0 {
                assert(cand@ =~= rv[shown as int]);
            } else {
                assert(cand@ =~= body@ + seq!['\n'] + rv[shown as int]);
            }
        }
        if estimate_tokens(probe.as_str()) > max_tokens {
            return (body, shown);
        }
        body = cand;
        shown += 1;
    }
    (body, shown)
}

/// Join rows with line breaks.
pub fn join_rows(rows: &Vec<String>) -> (r: String)
    ensures
        r@ == join_lines(strings_view(rows@)),
{
    let ghost rv = strings_view(rows@);
    let mut out = String::new();
    let mut i: usize = 0;
    while i < rows.len()
        invariant
            rv == strings_view(rows@),
            i <= rows@.len(),
            out@ == join_lines(rv.take(i as int)),
        decreases rows.len() - i,
    {
        if i > 0 {
            push_char(&mut out, '\n');
        }
        push_str(&mut out, rows[i].as_str());
        proof {
            let t = rv.take(i + 1);
            assert(t.drop_last() =~= rv.take(i as int));
            if i == 0 {
                assert(out@ =~= t[0]);
            }
        }
        i += 1;
    }
    proof {
        assert(rv.take(rows@.len() as int) =~= rv);
    }
    out
}

/// The note counting rows left out: `[`, the count, then the rest of the
/// sentence.
pub open spec fn counted_note(dropped: int, tail: Seq<char>) -> Seq<char> {
    "["@ + decimal(dropped as nat) + tail
}

/// Rows listed within a token budget, footer included. When every row fits
/// they are all listed. Otherwise the rows are refitted against the budget
/// less the whole line that counts what is left out (its newline, and the
/// note as it would read with every row left out), and that line follows
/// the rows that fit: a budget too small for any row still gets the note.
pub open spec fn budgeted_listing(rows: Seq<Seq<char>>, max: int, footer: Seq<char>, tail: Seq<char>) -> Seq<char> {
    let first = fit_from(rows, 0, Seq::<char>::empty(), max, footer);
    if first.1 == rows.len() {
        first.0 + footer
    } else {
        let suffix = seq!['\n'] + counted_note(rows.len() as int, tail) + footer;
        let second = fit_from(rows, 0, Seq::<char>::empty(), max, suffix);
        let note = counted_note(rows.len() - second.1, tail);
        if second.1 == 0 {
            note + footer
        } else {
            second.0 + seq!['\n'] + note + footer
        }
    }
}

/// The first `p` rows, and, when the listing was `cut`, the note counting
/// the rest.
pub open spec fn listing_of(rows: Seq<Seq<char>>, p: int, cut: bool, tail: Seq<char>) -> Seq<char> {
    let body = join_lines(rows.take(p));
    if !cut {
        body
    } else if p == 0 {
        counted_note(rows.len() - p, tail)
    } else {
        body + seq!['\n'] + counted_note(rows.len() - p, tail)
    }
}

fn counted_note_text(dropped: usize, tail: &str) -> (r: String)
    ensures
        r@ == counted_note(dropped as int, tail@),
{
    let mut out = owned("[");
    let d = usize_to_string(dropped);
    push_str(&mut out, d.as_str());
    push_str(&mut out, tail);
    proof {
        reveal_strlit("[");
        assert(out@ =~= counted_note(dropped as int, tail@));
    }
    out
}

/// List rows within `max` tokens, as [`budgeted_listing`] says.
pub fn budgeted_rows(rows: &Vec<String>, max: usize, footer: &str, tail: &str) -> (r: String)
    ensures
        r@ == budgeted_listing(strings_view(rows@), max as int, footer@, tail@),
{
    let (body, shown) = fit_rows(rows, max, footer);
    if shown == rows.len() {
        let mut out = body;
        push_str(&mut out, footer);
        return out;
    }
    let all_note = counted_note_text(rows.len(), tail);
    let mut suffix = owned("\n");
    push_str(&mut suffix, all_note.as_str());
    push_str(&mut suffix, footer);
    proof {
        reveal_strlit("\n");
        assert(suffix@ =~= seq!['\n'] + counted_note(rows@.len() as int, tail@) + footer@);
    }
    let (body2, shown2) = fit_rows(rows, max, suffix.as_str());
    let note = counted_note_text(rows.len() - shown2, tail);
    if shown2 == 0 {
        let mut out = note;
        push_str(&mut out, footer);
        return out;
    }
    let mut out = body2;
    push_char(&mut out, '\n');
    push_str(&mut out, note.as_str());
    push_str(&mut out, footer);
    proof {
        assert(out@ =~= body2@ + seq!['\n'] + note@ + footer@);
    }
    out
}

/// Quarter-token cost of a text.
pub open spec fn quarters(s: Seq<char>) -> int {
    cost_q(bytes_of(s))
}

proof fn lemma_quarters_concat(a: Seq<char>, b: Seq<char>)
    ensures
        quarters(a + b) == quarters(a) + quarters(b),
{
    lemma_bytes_concat(a, b);
    lemma_cost_concat(bytes_of(a), bytes_of(b));
}

proof fn lemma_quarters_nonneg(a: Seq<char>)
    ensures
        quarters(a) >= 0,
{
    crate::compress::lemma_cost_bounds(bytes_of(a));
}

/// A decimal number costs one quarter-token per digit.
proof fn lemma_decimal_quarters(n: nat)
    ensures
        quarters(decimal(n)) == decimal(n).len(),
{
    lemma_decimal_digits(n);
    let s = decimal(n);
    lemma_bytes_ascii_seq(s);
    let b = bytes_of(s);
    assert forall|i: int| 0 <= i < b.len() implies !url_punct(#[trigger] b[i]) by {
        assert(b[i] == s[i] as u8);
        assert('0' <= s[i] <= '9');
    }
    lemma_cost_plain(b);
}

proof fn lemma_decimal_len_mono(d: nat, n: nat)
    requires
        d <= n,
    ensures
        decimal(d).len() <= decimal(n).len(),
    decreases n,
{
    lemma_decimal_digits(d);
    lemma_decimal_digits(n);
    if d >= 10 {
        lemma_decimal_len_mono(d / 10, n / 10);
    }
}

/// A smaller count never makes the note dearer.
proof fn lemma_note_quarters_mono(d: int, n: int, tail: Seq<char>)
    requires
        0 <= d <= n,
    ensures
        quarters(counted_note(d, tail)) <= quarters(counted_note(n, tail)),
{
    lemma_quarters_concat("["@ + decimal(d as nat), tail);
    lemma_quarters_concat("["@, decimal(d as nat));
    lemma_quarters_concat("["@ + decimal(n as nat), tail);
    lemma_quarters_concat("["@, decimal(n as nat));
    lemma_decimal_quarters(d as nat);
    lemma_decimal_quarters(n as nat);
    lemma_decimal_len_mono(d as nat, n as nat);
}

/// Rows taken while they fit keep the listing so far, with the footer,
/// within the budget.
proof fn lemma_fit_from_fits(rows: Seq<Seq<char>>, i: int, body: Seq<char>, max: int, footer: Seq<char>)
    requires
        0 <= i <= rows.len(),
    ensures
        i <= fit_from(rows, i, body, max, footer).1 <= rows.len(),
        fit_from(rows, i, body, max, footer).1 > i ==> tokens(bytes_of(fit_from(rows, i, body, max, footer).0 + footer))
            <= max,
        fit_from(rows, i, body, max, footer).1 == i ==> fit_from(rows, i, body, max, footer).0 == body,
    decreases rows.len() - i,
{
    if i < rows.len() {
        let cand = if body.len() == 0 {
            rows[i]
        } else {
            body + seq!['\n'] + rows[i]
        };
        if tokens(bytes_of(cand + footer)) <= max {
            lemma_fit_from_fits(rows, i + 1, cand, max, footer);
        }
    }
}

/// Budget law: whenever the budget holds the note and the footer alone, the
/// listing — rows, note and footer — fits the budget.
pub proof fn lemma_listing_fits(rows: Seq<Seq<char>>, max: int, footer: Seq<char>, tail: Seq<char>)
    requires
        tokens(bytes_of(counted_note(rows.len() as int, tail) + footer)) <= max,
    ensures
        tokens(bytes_of(budgeted_listing(rows, max, footer, tail))) <= max,
{
    let n = rows.len() as int;
    let note_all = counted_note(n, tail);
    lemma_fit_from_fits(rows, 0, Seq::<char>::empty(), max, footer);
    let first = fit_from(rows, 0, Seq::<char>::empty(), max, footer);
    let out = budgeted_listing(rows, max, footer, tail);
    lemma_quarters_concat(note_all, footer);
    lemma_quarters_nonneg(note_all);
    if first.1 == n {
        if n == 0 {
            assert(first.0 + footer =~= footer);
            assert(quarters(footer) <= quarters(note_all + footer));
            assert(quarters(out) / 4 <= quarters(note_all + footer) / 4);
        }
    } else {
        let suffix = seq!['\n'] + note_all + footer;
        lemma_fit_from_fits(rows, 0, Seq::<char>::empty(), max, suffix);
        let second = fit_from(rows, 0, Seq::<char>::empty(), max, suffix);
        let k = second.1;
        let note = counted_note(n - k, tail);
        lemma_note_quarters_mono(n - k, n, tail);
        if k > 0 {
            let a = second.0;
            assert(out == a + seq!['\n'] + note + footer);
            lemma_quarters_concat(a + seq!['\n'] + note, footer);
            lemma_quarters_concat(a + seq!['\n'], note);
            lemma_quarters_concat(a, seq!['\n']);
            lemma_quarters_concat(a, suffix);
            lemma_quarters_concat(seq!['\n'] + note_all, footer);
            lemma_quarters_concat(seq!['\n'], note_all);
            assert(quarters(out) <= quarters(a + suffix));
            assert(quarters(out) / 4 <= quarters(a + suffix) / 4);
        }
    }
}

/// Shape of a listing: a leading run of the rows, in order, then — when
/// rows were left out — the note counting them, then the footer.
pub proof fn lemma_listing_shape(rows: Seq<Seq<char>>, max: int, footer: Seq<char>, tail: Seq<char>)
    requires
        forall|k: int| 0 <= k < rows.len() ==> (#[trigger] rows[k]).len() > 0,
    ensures
        exists|p: int, cut: bool|
            0 <= p <= rows.len() && (!cut ==> p == rows.len()) && budgeted_listing(rows, max, footer, tail)
                == #[trigger] listing_of(rows, p, cut, tail) + footer,
{
    let n = rows.len() as int;
    assert(join_lines(rows.take(0)) == Seq::<char>::empty()) by {
        assert(rows.take(0) =~= Seq::<Seq<char>>::empty());
    }
    lemma_fit_from_prefix(rows, 0, Seq::<char>::empty(), max, footer);
    let first = fit_from(rows, 0, Seq::<char>::empty(), max, footer);
    if first.1 == n {
        assert(budgeted_listing(rows, max, footer, tail) == listing_of(rows, n, false, tail) + footer);
    } else {
        let suffix = seq!['\n'] + counted_note(n, tail) + footer;
        lemma_fit_from_prefix(rows, 0, Seq::<char>::empty(), max, suffix);
        let second = fit_from(rows, 0, Seq::<char>::empty(), max, suffix);
        assert(budgeted_listing(rows, max, footer, tail) =~= listing_of(rows, second.1, true, tail) + footer);
    }
}

} // verus!
