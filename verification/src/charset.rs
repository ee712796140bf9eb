//! Decoding response bodies that are not UTF-8.
//!
//! Most of the web is UTF-8. The common exception by a wide margin is the
//! single-byte Western European family — `windows-1252`, and
//! `ISO-8859-1`/`latin1`, which browsers treat as windows-1252 anyway. Those
//! are a 128-entry table, decoded here directly. Any other declared charset is
//! decoded as UTF-8 (lossily) and its label is reported, so a caller can see
//! why the text looks wrong rather than guessing.

use vstd::prelude::*;
use vstd::utf8::*;

use crate::text::{
    chars_eq_str, chars_vec, is_ws, lead_ws, lemma_lead_ws_at, lemma_lead_ws_bound, lemma_trail_ws_at,
    lemma_trail_ws_bound, lower, opt_chars, opt_str_chars, lower_seq, push_char, string_of_range,
    to_ascii_lowercase, trail_ws, trim, trim_bounds,
};

verus! {

/// What decoding a body needs, given its declared charset.
#[derive(Debug, Clone, PartialEq, Eq)]
pub enum Charset {
    /// UTF-8 (or nothing declared): decode lossily as UTF-8.
    Utf8,
    /// windows-1252 / ISO-8859-1: decoded here, exactly.
    Cp1252,
    /// Something else. Decoded as UTF-8; the label is carried on the result.
    Unsupported(String),
}

/// The logical value of a [`Charset`], with the label as characters.
pub enum CharsetView {
    Utf8,
    Cp1252,
    Unsupported(Seq<char>),
}

impl Charset {
    pub open spec fn view_of(self) -> CharsetView {
        match self {
            Charset::Utf8 => CharsetView::Utf8,
            Charset::Cp1252 => CharsetView::Cp1252,
            Charset::Unsupported(s) => CharsetView::Unsupported(s@),
        }
    }
}

/// Leading `"` characters.
pub open spec fn lead_quotes(s: Seq<char>) -> nat
    decreases s.len(),
{
    if s.len() > 0 && s[0] == '"' {
        1 + lead_quotes(s.drop_first())
    } else {
        0
    }
}

/// Trailing `"` characters.
pub open spec fn trail_quotes(s: Seq<char>) -> nat
    decreases s.len(),
{
    if s.len() > 0 && s.last() == '"' {
        1 + trail_quotes(s.drop_last())
    } else {
        0
    }
}

/// `str::trim_matches('"')`: every leading and trailing quote removed.
pub open spec fn strip_quotes(s: Seq<char>) -> Seq<char> {
    let t = s.skip(lead_quotes(s) as int);
    t.take(t.len() - trail_quotes(t))
}

/// The label as written, minus surrounding whitespace and quotes.
pub open spec fn bare_label(label: Seq<char>) -> Seq<char> {
    strip_quotes(trim(label))
}

/// The label normalized for comparison: bare, ASCII-lowercased, `_` → `-`.
pub open spec fn normalized_label(label: Seq<char>) -> Seq<char> {
    lower_seq(bare_label(label)).map_values(|c: char| if c == '_' { '-' } else { c })
}

pub open spec fn is_utf8_name(n: Seq<char>) -> bool {
    ||| n.len() == 0
    ||| n == "utf-8"@
    ||| n == "utf8"@
    ||| n == "us-ascii"@
    ||| n == "ascii"@
}

pub open spec fn is_cp1252_name(n: Seq<char>) -> bool {
    ||| n == "windows-1252"@
    ||| n == "cp1252"@
    ||| n == "iso-8859-1"@
    ||| n == "latin1"@
    ||| n == "latin-1"@
    ||| n == "iso8859-1"@
    ||| n == "iso-latin-1"@
    ||| n == "ansi-x3.4-1968"@
}

/// How a label is classified.
pub open spec fn classify_spec(label: Seq<char>) -> CharsetView {
    let n = normalized_label(label);
    if is_utf8_name(n) {
        CharsetView::Utf8
    } else if is_cp1252_name(n) {
        CharsetView::Cp1252
    } else {
        CharsetView::Unsupported(bare_label(label))
    }
}

proof fn lemma_lead_quotes_at(s: Seq<char>, i: int)
    requires
        0 <= i <= s.len(),
        forall|k: int| 0 <= k < i ==> #[trigger] s[k] == '"',
        i == s.len() || s[i] != '"',
    ensures
        lead_quotes(s) == i,
    decreases i,
{
    if i > 0 {
        assert forall|k: int| 0 <= k < i - 1 implies #[trigger] s.drop_first()[k] == '"' by {
            assert(s.drop_first()[k] == s[k + 1]);
        }
        if i < s.len() {
            assert(s.drop_first()[i - 1] == s[i]);
        }
        lemma_lead_quotes_at(s.drop_first(), i - 1);
    }
}

proof fn lemma_trail_quotes_at(s: Seq<char>, j: int)
    requires
        0 <= j <= s.len(),
        forall|k: int| j <= k < s.len() ==> #[trigger] s[k] == '"',
        j == 0 || s[j - 1] != '"',
    ensures
        trail_quotes(s) == s.len() - j,
    decreases s.len() - j,
{
    if j < s.len() {
        let t = s.drop_last();
        assert forall|k: int| j <= k < t.len() implies #[trigger] t[k] == '"' by {
            assert(t[k] == s[k]);
        }
        if j > 0 {
            assert(t[j - 1] == s[j - 1]);
        }
        lemma_trail_quotes_at(t, j);
    }
}

proof fn lemma_lead_quotes_bound(s: Seq<char>)
    ensures
        lead_quotes(s) <= s.len(),
        forall|k: int| 0 <= k < lead_quotes(s) ==> #[trigger] s[k] == '"',
        lead_quotes(s) < s.len() ==> s[lead_quotes(s) as int] != '"',
    decreases s.len(),
{
    if s.len() > 0 && s[0] == '"' {
        lemma_lead_quotes_bound(s.drop_first());
        assert forall|k: int| 0 <= k < lead_quotes(s) implies #[trigger] s[k] == '"' by {
            if k > 0 {
                assert(s[k] == s.drop_first()[k - 1]);
            }
        }
    }
}

proof fn lemma_trail_quotes_bound(s: Seq<char>)
    ensures
        trail_quotes(s) <= s.len(),
        forall|k: int| s.len() - trail_quotes(s) <= k < s.len() ==> #[trigger] s[k] == '"',
        trail_quotes(s) < s.len() ==> s[s.len() - trail_quotes(s) - 1] != '"',
    decreases s.len(),
{
    if s.len() > 0 && s.last() == '"' {
        lemma_trail_quotes_bound(s.drop_last());
        assert forall|k: int| s.len() - trail_quotes(s) <= k < s.len() implies #[trigger] s[k] == '"' by {
            if k < s.len() - 1 {
                assert(s[k] == s.drop_last()[k]);
            }
        }
    }
}

/// A character map that keeps whitespace whitespace and quotes quotes.
pub open spec fn keeps_frame(f: spec_fn(char) -> char) -> bool {
    forall|c: char| is_ws(#[trigger] f(c)) == is_ws(c) && (f(c) == '"') == (c == '"')
}

proof fn lemma_bare_commutes(l: Seq<char>, f: spec_fn(char) -> char)
    requires
        keeps_frame(f),
    ensures
        bare_label(l.map_values(f)) == bare_label(l).map_values(f),
{
    let m = l.map_values(f);
    lemma_lead_ws_bound(l);
    let a = lead_ws(l) as int;
    assert forall|k: int| 0 <= k < a implies is_ws(#[trigger] m[k]) by {
        assert(is_ws(f(l[k])) == is_ws(l[k]));
    }
    if a < l.len() {
        assert(is_ws(f(l[a])) == is_ws(l[a]));
    }
    lemma_lead_ws_at(m, a);
    let t = l.skip(a);
    let tm = m.skip(a);
    assert(tm =~= t.map_values(f));
    lemma_trail_ws_bound(t);
    let b = trail_ws(t) as int;
    assert forall|k: int| t.len() - b <= k < tm.len() implies is_ws(#[trigger] tm[k]) by {
        assert(is_ws(f(t[k])) == is_ws(t[k]));
    }
    if b < t.len() {
        assert(is_ws(f(t[t.len() - b - 1])) == is_ws(t[t.len() - b - 1]));
    }
    lemma_trail_ws_at(tm, t.len() - b);
    let x = trim(l);
    let xm = trim(m);
    assert(xm =~= x.map_values(f));
    lemma_lead_quotes_bound(x);
    let q = lead_quotes(x) as int;
    assert forall|k: int| 0 <= k < q implies #[trigger] xm[k] == '"' by {
        assert((f(x[k]) == '"') == (x[k] == '"'));
    }
    if q < x.len() {
        assert((f(x[q]) == '"') == (x[q] == '"'));
    }
    lemma_lead_quotes_at(xm, q);
    let u = x.skip(q);
    let um = xm.skip(q);
    assert(um =~= u.map_values(f));
    lemma_trail_quotes_bound(u);
    let e = trail_quotes(u) as int;
    assert forall|k: int| u.len() - e <= k < um.len() implies #[trigger] um[k] == '"' by {
        assert((f(u[k]) == '"') == (u[k] == '"'));
    }
    if e < u.len() {
        assert((f(u[u.len() - e - 1]) == '"') == (u[u.len() - e - 1] == '"'));
    }
    lemma_trail_quotes_at(um, u.len() - e);
    assert(bare_label(m) =~= bare_label(l).map_values(f));
}

/// The same classification, label aside.
pub open spec fn same_kind(a: CharsetView, b: CharsetView) -> bool {
    match (a, b) {
        (CharsetView::Utf8, CharsetView::Utf8) => true,
        (CharsetView::Cp1252, CharsetView::Cp1252) => true,
        (CharsetView::Unsupported(_), CharsetView::Unsupported(_)) => true,
        _ => false,
    }
}

/// `_` written as `-`.
pub open spec fn dashed(c: char) -> char {
    if c == '_' {
        '-'
    } else {
        c
    }
}

proof fn lemma_normalized_lower(x: Seq<char>)
    ensures
        normalized_label(lower_seq(x)) == normalized_label(x),
{
    let fl = |c: char| lower(c);
    assert(keeps_frame(fl));
    lemma_bare_commutes(x, fl);
    assert(lower_seq(x) =~= x.map_values(fl));
    let bx = bare_label(x);
    assert(lower_seq(bare_label(lower_seq(x))) =~= lower_seq(bx)) by {
        assert(bare_label(lower_seq(x)) =~= bx.map_values(fl));
        assert forall|i: int| 0 <= i < bx.len() implies lower(lower(#[trigger] bx[i])) == lower(bx[i]) by {}
    }
}

proof fn lemma_normalized_dashed(l: Seq<char>)
    ensures
        normalized_label(l.map_values(|c: char| dashed(c))) == normalized_label(l),
{
    let fd = |c: char| dashed(c);
    assert(keeps_frame(fd));
    let d = l.map_values(fd);
    lemma_bare_commutes(l, fd);
    assert(l.map_values(|c: char| dashed(c)) =~= d);
    let bl = bare_label(l);
    assert(bare_label(d) == bl.map_values(fd));
    assert(normalized_label(d) =~= normalized_label(l)) by {
        assert forall|i: int| 0 <= i < bl.len() implies (if lower(dashed(#[trigger] bl[i])) == '_' {
            '-'
        } else {
            lower(dashed(bl[i]))
        }) == (if lower(bl[i]) == '_' {
            '-'
        } else {
            lower(bl[i])
        }) by {}
    }
}

/// `v[from..to]` with every leading and trailing quote removed.
fn strip_quote_bounds(v: &[char], from: usize, to: usize) -> (r: (usize, usize))
    requires
        from <= to <= v@.len(),
    ensures
        from <= r.0 <= r.1 <= to,
        v@.subrange(r.0 as int, r.1 as int) == strip_quotes(v@.subrange(from as int, to as int)),
{
    let ghost s = v@.subrange(from as int, to as int);
    let mut a = from;
    while a < to && v[a] == '"'
        invariant
            from <= a <= to <= v@.len(),
            s == v@.subrange(from as int, to as int),
            forall|k: int| from <= k < a ==> #[trigger] v@[k] == '"',
        decreases to - a,
    {
        a += 1;
    }
    proof {
        assert forall|k: int| 0 <= k < a - from implies #[trigger] s[k] == '"' by {
            assert(s[k] == v@[k + from]);
        }
        if a < to {
            assert(s[a - from] == v@[a as int]);
        }
        lemma_lead_quotes_at(s, a - from);
    }
    let ghost t = s.skip(a - from);
    let mut b = to;
    while b > a && v[b - 1] == '"'
        invariant
            from <= a <= b <= to <= v@.len(),
            forall|k: int| b <= k < to ==> #[trigger] v@[k] == '"',
        decreases b,
    {
        b -= 1;
    }
    proof {
        assert(t =~= v@.subrange(a as int, to as int));
        assert forall|k: int| b - a <= k < t.len() implies #[trigger] t[k] == '"' by {
            assert(t[k] == v@[k + a]);
        }
        if b > a {
            assert(t[b - a - 1] == v@[b - 1]);
        }
        lemma_trail_quotes_at(t, b - a);
        assert(t.take(t.len() - trail_quotes(t)) =~= v@.subrange(a as int, b as int));
    }
    (a, b)
}

/// A label of the WHATWG Encoding Standard, which browsers (and
/// encoding_rs) decode exactly.
pub open spec fn standard_label(n: Seq<char>) -> bool {
    ||| n == "unicode-1-1-utf-8"@
    ||| n == "unicode11utf8"@
    ||| n == "unicode20utf8"@
    ||| n == "utf-8"@
    ||| n == "utf8"@
    ||| n == "x-unicode20utf8"@
    ||| n == "866"@
    ||| n == "cp866"@
    ||| n == "csibm866"@
    ||| n == "ibm866"@
    ||| n == "csisolatin2"@
    ||| n == "iso-8859-2"@
    ||| n == "iso-ir-101"@
    ||| n == "iso8859-2"@
    ||| n == "iso88592"@
    ||| n == "iso_8859-2"@
    ||| n == "iso_8859-2:1987"@
    ||| n == "l2"@
    ||| n == "latin2"@
    ||| n == "csisolatin3"@
    ||| n == "iso-8859-3"@
    ||| n == "iso-ir-109"@
    ||| n == "iso8859-3"@
    ||| n == "iso88593"@
    ||| n == "iso_8859-3"@
    ||| n == "iso_8859-3:1988"@
    ||| n == "l3"@
    ||| n == "latin3"@
    ||| n == "csisolatin4"@
    ||| n == "iso-8859-4"@
    ||| n == "iso-ir-110"@
    ||| n == "iso8859-4"@
    ||| n == "iso88594"@
    ||| n == "iso_8859-4"@
    ||| n == "iso_8859-4:1988"@
    ||| n == "l4"@
    ||| n == "latin4"@
    ||| n == "csisolatincyrillic"@
    ||| n == "cyrillic"@
    ||| n == "iso-8859-5"@
    ||| n == "iso-ir-144"@
    ||| n == "iso8859-5"@
    ||| n == "iso88595"@
    ||| n == "iso_8859-5"@
    ||| n == "iso_8859-5:1988"@
    ||| n == "arabic"@
    ||| n == "asmo-708"@
    ||| n == "csiso88596e"@
    ||| n == "csiso88596i"@
    ||| n == "csisolatinarabic"@
    ||| n == "ecma-114"@
    ||| n == "iso-8859-6"@
    ||| n == "iso-8859-6-e"@
    ||| n == "iso-8859-6-i"@
    ||| n == "iso-ir-127"@
    ||| n == "iso8859-6"@
    ||| n == "iso88596"@
    ||| n == "iso_8859-6"@
    ||| n == "iso_8859-6:1987"@
    ||| n == "csisolatingreek"@
    ||| n == "ecma-118"@
    ||| n == "elot_928"@
    ||| n == "greek"@
    ||| n == "greek8"@
    ||| n == "iso-8859-7"@
    ||| n == "iso-ir-126"@
    ||| n == "iso8859-7"@
    ||| n == "iso88597"@
    ||| n == "iso_8859-7"@
    ||| n == "iso_8859-7:1987"@
    ||| n == "sun_eu_greek"@
    ||| n == "csiso88598e"@
    ||| n == "csisolatinhebrew"@
    ||| n == "hebrew"@
    ||| n == "iso-8859-8"@
    ||| n == "iso-8859-8-e"@
    ||| n == "iso-ir-138"@
    ||| n == "iso8859-8"@
    ||| n == "iso88598"@
    ||| n == "iso_8859-8"@
    ||| n == "iso_8859-8:1988"@
    ||| n == "visual"@
    ||| n == "csiso88598i"@
    ||| n == "iso-8859-8-i"@
    ||| n == "logical"@
    ||| n == "csisolatin6"@
    ||| n == "iso-8859-10"@
    ||| n == "iso-ir-157"@
    ||| n == "iso8859-10"@
    ||| n == "iso885910"@
    ||| n == "l6"@
    ||| n == "latin6"@
    ||| n == "iso-8859-13"@
    ||| n == "iso8859-13"@
    ||| n == "iso885913"@
    ||| n == "iso-8859-14"@
    ||| n == "iso8859-14"@
    ||| n == "iso885914"@
    ||| n == "csisolatin9"@
    ||| n == "iso-8859-15"@
    ||| n == "iso8859-15"@
    ||| n == "iso885915"@
    ||| n == "iso_8859-15"@
    ||| n == "l9"@
    ||| n == "iso-8859-16"@
    ||| n == "cskoi8r"@
    ||| n == "koi"@
    ||| n == "koi8"@
    ||| n == "koi8-r"@
    ||| n == "koi8_r"@
    ||| n == "koi8-ru"@
    ||| n == "koi8-u"@
    ||| n == "csmacintosh"@
    ||| n == "mac"@
    ||| n == "macintosh"@
    ||| n == "x-mac-roman"@
    ||| n == "dos-874"@
    ||| n == "iso-8859-11"@
    ||| n == "iso8859-11"@
    ||| n == "iso885911"@
    ||| n == "tis-620"@
    ||| n == "windows-874"@
    ||| n == "cp1250"@
    ||| n == "windows-1250"@
    ||| n == "x-cp1250"@
    ||| n == "cp1251"@
    ||| n == "windows-1251"@
    ||| n == "x-cp1251"@
    ||| n == "ansi_x3.4-1968"@
    ||| n == "ascii"@
    ||| n == "cp1252"@
    ||| n == "cp819"@
    ||| n == "csisolatin1"@
    ||| n == "ibm819"@
    ||| n == "iso-8859-1"@
    ||| n == "iso-ir-100"@
    ||| n == "iso8859-1"@
    ||| n == "iso88591"@
    ||| n == "iso_8859-1"@
    ||| n == "iso_8859-1:1987"@
    ||| n == "l1"@
    ||| n == "latin1"@
    ||| n == "us-ascii"@
    ||| n == "windows-1252"@
    ||| n == "x-cp1252"@
    ||| n == "cp1253"@
    ||| n == "windows-1253"@
    ||| n == "x-cp1253"@
    ||| n == "cp1254"@
    ||| n == "csisolatin5"@
    ||| n == "iso-8859-9"@
    ||| n == "iso-ir-148"@
    ||| n == "iso8859-9"@
    ||| n == "iso88599"@
    ||| n == "iso_8859-9"@
    ||| n == "iso_8859-9:1989"@
    ||| n == "l5"@
    ||| n == "latin5"@
    ||| n == "windows-1254"@
    ||| n == "x-cp1254"@
    ||| n == "cp1255"@
    ||| n == "windows-1255"@
    ||| n == "x-cp1255"@
    ||| n == "cp1256"@
    ||| n == "windows-1256"@
    ||| n == "x-cp1256"@
    ||| n == "cp1257"@
    ||| n == "windows-1257"@
    ||| n == "x-cp1257"@
    ||| n == "cp1258"@
    ||| n == "windows-1258"@
    ||| n == "x-cp1258"@
    ||| n == "x-mac-cyrillic"@
    ||| n == "x-mac-ukrainian"@
    ||| n == "chinese"@
    ||| n == "csgb2312"@
    ||| n == "csiso58gb231280"@
    ||| n == "gb2312"@
    ||| n == "gb_2312"@
    ||| n == "gb_2312-80"@
    ||| n == "gbk"@
    ||| n == "iso-ir-58"@
    ||| n == "x-gbk"@
    ||| n == "gb18030"@
    ||| n == "big5"@
    ||| n == "big5-hkscs"@
    ||| n == "cn-big5"@
    ||| n == "csbig5"@
    ||| n == "x-x-big5"@
    ||| n == "cseucpkdfmtjapanese"@
    ||| n == "euc-jp"@
    ||| n == "x-euc-jp"@
    ||| n == "csiso2022jp"@
    ||| n == "iso-2022-jp"@
    ||| n == "csshiftjis"@
    ||| n == "ms932"@
    ||| n == "ms_kanji"@
    ||| n == "shift-jis"@
    ||| n == "shift_jis"@
    ||| n == "sjis"@
    ||| n == "windows-31j"@
    ||| n == "x-sjis"@
    ||| n == "cseuckr"@
    ||| n == "csksc56011987"@
    ||| n == "euc-kr"@
    ||| n == "iso-ir-149"@
    ||| n == "korean"@
    ||| n == "ks_c_5601-1987"@
    ||| n == "ks_c_5601-1989"@
    ||| n == "ksc5601"@
    ||| n == "ksc_5601"@
    ||| n == "windows-949"@
    ||| n == "csiso2022kr"@
    ||| n == "hz-gb-2312"@
    ||| n == "iso-2022-cn"@
    ||| n == "iso-2022-cn-ext"@
    ||| n == "iso-2022-kr"@
    ||| n == "replacement"@
    ||| n == "unicodefffe"@
    ||| n == "utf-16be"@
    ||| n == "csunicode"@
    ||| n == "iso-10646-ucs-2"@
    ||| n == "ucs-2"@
    ||| n == "unicode"@
    ||| n == "unicodefeff"@
    ||| n == "utf-16"@
    ||| n == "utf-16le"@
    ||| n == "x-user-defined"@
}

fn is_standard_label(n: &Vec<char>) -> (r: bool)
    ensures
        r == standard_label(n@),
{
    chars_eq_str(n, "unicode-1-1-utf-8")
        || chars_eq_str(n, "unicode11utf8")
        || chars_eq_str(n, "unicode20utf8")
        || chars_eq_str(n, "utf-8")
        || chars_eq_str(n, "utf8")
        || chars_eq_str(n, "x-unicode20utf8")
        || chars_eq_str(n, "866")
        || chars_eq_str(n, "cp866")
        || chars_eq_str(n, "csibm866")
        || chars_eq_str(n, "ibm866")
        || chars_eq_str(n, "csisolatin2")
        || chars_eq_str(n, "iso-8859-2")
        || chars_eq_str(n, "iso-ir-101")
        || chars_eq_str(n, "iso8859-2")
        || chars_eq_str(n, "iso88592")
        || chars_eq_str(n, "iso_8859-2")
        || chars_eq_str(n, "iso_8859-2:1987")
        || chars_eq_str(n, "l2")
        || chars_eq_str(n, "latin2")
        || chars_eq_str(n, "csisolatin3")
        || chars_eq_str(n, "iso-8859-3")
        || chars_eq_str(n, "iso-ir-109")
        || chars_eq_str(n, "iso8859-3")
        || chars_eq_str(n, "iso88593")
        || chars_eq_str(n, "iso_8859-3")
        || chars_eq_str(n, "iso_8859-3:1988")
        || chars_eq_str(n, "l3")
        || chars_eq_str(n, "latin3")
        || chars_eq_str(n, "csisolatin4")
        || chars_eq_str(n, "iso-8859-4")
        || chars_eq_str(n, "iso-ir-110")
        || chars_eq_str(n, "iso8859-4")
        || chars_eq_str(n, "iso88594")
        || chars_eq_str(n, "iso_8859-4")
        || chars_eq_str(n, "iso_8859-4:1988")
        || chars_eq_str(n, "l4")
        || chars_eq_str(n, "latin4")
        || chars_eq_str(n, "csisolatincyrillic")
        || chars_eq_str(n, "cyrillic")
        || chars_eq_str(n, "iso-8859-5")
        || chars_eq_str(n, "iso-ir-144")
        || chars_eq_str(n, "iso8859-5")
        || chars_eq_str(n, "iso88595")
        || chars_eq_str(n, "iso_8859-5")
        || chars_eq_str(n, "iso_8859-5:1988")
        || chars_eq_str(n, "arabic")
        || chars_eq_str(n, "asmo-708")
        || chars_eq_str(n, "csiso88596e")
        || chars_eq_str(n, "csiso88596i")
        || chars_eq_str(n, "csisolatinarabic")
        || chars_eq_str(n, "ecma-114")
        || chars_eq_str(n, "iso-8859-6")
        || chars_eq_str(n, "iso-8859-6-e")
        || chars_eq_str(n, "iso-8859-6-i")
        || chars_eq_str(n, "iso-ir-127")
        || chars_eq_str(n, "iso8859-6")
        || chars_eq_str(n, "iso88596")
        || chars_eq_str(n, "iso_8859-6")
        || chars_eq_str(n, "iso_8859-6:1987")
        || chars_eq_str(n, "csisolatingreek")
        || chars_eq_str(n, "ecma-118")
        || chars_eq_str(n, "elot_928")
        || chars_eq_str(n, "greek")
        || chars_eq_str(n, "greek8")
        || chars_eq_str(n, "iso-8859-7")
        || chars_eq_str(n, "iso-ir-126")
        || chars_eq_str(n, "iso8859-7")
        || chars_eq_str(n, "iso88597")
        || chars_eq_str(n, "iso_8859-7")
        || chars_eq_str(n, "iso_8859-7:1987")
        || chars_eq_str(n, "sun_eu_greek")
        || chars_eq_str(n, "csiso88598e")
        || chars_eq_str(n, "csisolatinhebrew")
        || chars_eq_str(n, "hebrew")
        || chars_eq_str(n, "iso-8859-8")
        || chars_eq_str(n, "iso-8859-8-e")
        || chars_eq_str(n, "iso-ir-138")
        || chars_eq_str(n, "iso8859-8")
        || chars_eq_str(n, "iso88598")
        || chars_eq_str(n, "iso_8859-8")
        || chars_eq_str(n, "iso_8859-8:1988")
        || chars_eq_str(n, "visual")
        || chars_eq_str(n, "csiso88598i")
        || chars_eq_str(n, "iso-8859-8-i")
        || chars_eq_str(n, "logical")
        || chars_eq_str(n, "csisolatin6")
        || chars_eq_str(n, "iso-8859-10")
        || chars_eq_str(n, "iso-ir-157")
        || chars_eq_str(n, "iso8859-10")
        || chars_eq_str(n, "iso885910")
        || chars_eq_str(n, "l6")
        || chars_eq_str(n, "latin6")
        || chars_eq_str(n, "iso-8859-13")
        || chars_eq_str(n, "iso8859-13")
        || chars_eq_str(n, "iso885913")
        || chars_eq_str(n, "iso-8859-14")
        || chars_eq_str(n, "iso8859-14")
        || chars_eq_str(n, "iso885914")
        || chars_eq_str(n, "csisolatin9")
        || chars_eq_str(n, "iso-8859-15")
        || chars_eq_str(n, "iso8859-15")
        || chars_eq_str(n, "iso885915")
        || chars_eq_str(n, "iso_8859-15")
        || chars_eq_str(n, "l9")
        || chars_eq_str(n, "iso-8859-16")
        || chars_eq_str(n, "cskoi8r")
        || chars_eq_str(n, "koi")
        || chars_eq_str(n, "koi8")
        || chars_eq_str(n, "koi8-r")
        || chars_eq_str(n, "koi8_r")
        || chars_eq_str(n, "koi8-ru")
        || chars_eq_str(n, "koi8-u")
        || chars_eq_str(n, "csmacintosh")
        || chars_eq_str(n, "mac")
        || chars_eq_str(n, "macintosh")
        || chars_eq_str(n, "x-mac-roman")
        || chars_eq_str(n, "dos-874")
        || chars_eq_str(n, "iso-8859-11")
        || chars_eq_str(n, "iso8859-11")
        || chars_eq_str(n, "iso885911")
        || chars_eq_str(n, "tis-620")
        || chars_eq_str(n, "windows-874")
        || chars_eq_str(n, "cp1250")
        || chars_eq_str(n, "windows-1250")
        || chars_eq_str(n, "x-cp1250")
        || chars_eq_str(n, "cp1251")
        || chars_eq_str(n, "windows-1251")
        || chars_eq_str(n, "x-cp1251")
        || chars_eq_str(n, "ansi_x3.4-1968")
        || chars_eq_str(n, "ascii")
        || chars_eq_str(n, "cp1252")
        || chars_eq_str(n, "cp819")
        || chars_eq_str(n, "csisolatin1")
        || chars_eq_str(n, "ibm819")
        || chars_eq_str(n, "iso-8859-1")
        || chars_eq_str(n, "iso-ir-100")
        || chars_eq_str(n, "iso8859-1")
        || chars_eq_str(n, "iso88591")
        || chars_eq_str(n, "iso_8859-1")
        || chars_eq_str(n, "iso_8859-1:1987")
        || chars_eq_str(n, "l1")
        || chars_eq_str(n, "latin1")
        || chars_eq_str(n, "us-ascii")
        || chars_eq_str(n, "windows-1252")
        || chars_eq_str(n, "x-cp1252")
        || chars_eq_str(n, "cp1253")
        || chars_eq_str(n, "windows-1253")
        || chars_eq_str(n, "x-cp1253")
        || chars_eq_str(n, "cp1254")
        || chars_eq_str(n, "csisolatin5")
        || chars_eq_str(n, "iso-8859-9")
        || chars_eq_str(n, "iso-ir-148")
        || chars_eq_str(n, "iso8859-9")
        || chars_eq_str(n, "iso88599")
        || chars_eq_str(n, "iso_8859-9")
        || chars_eq_str(n, "iso_8859-9:1989")
        || chars_eq_str(n, "l5")
        || chars_eq_str(n, "latin5")
        || chars_eq_str(n, "windows-1254")
        || chars_eq_str(n, "x-cp1254")
        || chars_eq_str(n, "cp1255")
        || chars_eq_str(n, "windows-1255")
        || chars_eq_str(n, "x-cp1255")
        || chars_eq_str(n, "cp1256")
        || chars_eq_str(n, "windows-1256")
        || chars_eq_str(n, "x-cp1256")
        || chars_eq_str(n, "cp1257")
        || chars_eq_str(n, "windows-1257")
        || chars_eq_str(n, "x-cp1257")
        || chars_eq_str(n, "cp1258")
        || chars_eq_str(n, "windows-1258")
        || chars_eq_str(n, "x-cp1258")
        || chars_eq_str(n, "x-mac-cyrillic")
        || chars_eq_str(n, "x-mac-ukrainian")
        || chars_eq_str(n, "chinese")
        || chars_eq_str(n, "csgb2312")
        || chars_eq_str(n, "csiso58gb231280")
        || chars_eq_str(n, "gb2312")
        || chars_eq_str(n, "gb_2312")
        || chars_eq_str(n, "gb_2312-80")
        || chars_eq_str(n, "gbk")
        || chars_eq_str(n, "iso-ir-58")
        || chars_eq_str(n, "x-gbk")
        || chars_eq_str(n, "gb18030")
        || chars_eq_str(n, "big5")
        || chars_eq_str(n, "big5-hkscs")
        || chars_eq_str(n, "cn-big5")
        || chars_eq_str(n, "csbig5")
        || chars_eq_str(n, "x-x-big5")
        || chars_eq_str(n, "cseucpkdfmtjapanese")
        || chars_eq_str(n, "euc-jp")
        || chars_eq_str(n, "x-euc-jp")
        || chars_eq_str(n, "csiso2022jp")
        || chars_eq_str(n, "iso-2022-jp")
        || chars_eq_str(n, "csshiftjis")
        || chars_eq_str(n, "ms932")
        || chars_eq_str(n, "ms_kanji")
        || chars_eq_str(n, "shift-jis")
        || chars_eq_str(n, "shift_jis")
        || chars_eq_str(n, "sjis")
        || chars_eq_str(n, "windows-31j")
        || chars_eq_str(n, "x-sjis")
        || chars_eq_str(n, "cseuckr")
        || chars_eq_str(n, "csksc56011987")
        || chars_eq_str(n, "euc-kr")
        || chars_eq_str(n, "iso-ir-149")
        || chars_eq_str(n, "korean")
        || chars_eq_str(n, "ks_c_5601-1987")
        || chars_eq_str(n, "ks_c_5601-1989")
        || chars_eq_str(n, "ksc5601")
        || chars_eq_str(n, "ksc_5601")
        || chars_eq_str(n, "windows-949")
        || chars_eq_str(n, "csiso2022kr")
        || chars_eq_str(n, "hz-gb-2312")
        || chars_eq_str(n, "iso-2022-cn")
        || chars_eq_str(n, "iso-2022-cn-ext")
        || chars_eq_str(n, "iso-2022-kr")
        || chars_eq_str(n, "replacement")
        || chars_eq_str(n, "unicodefffe")
        || chars_eq_str(n, "utf-16be")
        || chars_eq_str(n, "csunicode")
        || chars_eq_str(n, "iso-10646-ucs-2")
        || chars_eq_str(n, "ucs-2")
        || chars_eq_str(n, "unicode")
        || chars_eq_str(n, "unicodefeff")
        || chars_eq_str(n, "utf-16")
        || chars_eq_str(n, "utf-16le")
        || chars_eq_str(n, "x-user-defined")
}

/// A label the Encoding Standard recognizes, compared as it prescribes
/// (surrounding whitespace ignored, ASCII case folded), quotes removed.
pub open spec fn known_label(label: Seq<char>) -> bool {
    standard_label(lower_seq(bare_label(label)))
}

/// A label as written, without surrounding whitespace and quotes.
pub fn bare_text(label: &str) -> (r: String)
    ensures
        r@ == bare_label(label@),
{
    let v = chars_vec(label);
    let (t0, t1) = trim_bounds(&v);
    let (a, b) = strip_quote_bounds(&v, t0, t1);
    proof {
        assert(v@.subrange(t0 as int, t1 as int) == trim(label@));
    }
    string_of_range(&v, a, b)
}

/// Is this a charset label the Encoding Standard recognizes?
pub fn is_known_label(label: &str) -> (r: bool)
    ensures
        r == known_label(label@),
{
    let v = chars_vec(label);
    let (t0, t1) = trim_bounds(&v);
    let (a, b) = strip_quote_bounds(&v, t0, t1);
    proof {
        assert(v@.subrange(t0 as int, t1 as int) == trim(label@));
    }
    let bare = string_of_range(&v, a, b);
    let lowered = to_ascii_lowercase(&chars_vec(bare.as_str()));
    is_standard_label(&lowered)
}

/// Classify a charset label.
pub fn classify(label: &str) -> (c: Charset)
    ensures
        c.view_of() == classify_spec(label@),
{
    let v = chars_vec(label);
    let (t0, t1) = trim_bounds(&v);
    let (a, b) = strip_quote_bounds(&v, t0, t1);
    proof {
        assert(v@.subrange(t0 as int, t1 as int) == trim(label@));
    }
    let bare = string_of_range(&v, a, b);
    let bare_chars = chars_vec(bare.as_str());
    let lowered = to_ascii_lowercase(&bare_chars);
    let mut n: Vec<char> = Vec::new();
    let mut i: usize = 0;
    while i < lowered.len()
        invariant
            i <= lowered@.len(),
            n@ =~= lowered@.take(i as int).map_values(|c: char| if c == '_' { '-' } else { c }),
        decreases lowered.len() - i,
    {
        let c = lowered[i];
        n.push(if c == '_' { '-' } else { c });
        i += 1;
    }
    proof {
        assert(lowered@.take(lowered@.len() as int) =~= lowered@);
        assert(n@ == normalized_label(label@));
    }
    if n.len() == 0 || chars_eq_str(&n, "utf-8") || chars_eq_str(&n, "utf8") || chars_eq_str(
        &n,
        "us-ascii",
    ) || chars_eq_str(&n, "ascii") {
        Charset::Utf8
    } else if chars_eq_str(&n, "windows-1252") || chars_eq_str(&n, "cp1252") || chars_eq_str(
        &n,
        "iso-8859-1",
    ) || chars_eq_str(&n, "latin1") || chars_eq_str(&n, "latin-1") || chars_eq_str(
        &n,
        "iso8859-1",
    ) || chars_eq_str(&n, "iso-latin-1") || chars_eq_str(&n, "ansi-x3.4-1968") {
        Charset::Cp1252
    } else {
        Charset::Unsupported(bare)
    }
}

/// Classification laws, over what [`classify`] returns (its contract is
/// `classify(l).view_of() == classify_spec(l@)`): an unsupported label is
/// reported bare (trimmed, then stripped of quotes); nothing declared is
/// UTF-8; and neither ASCII case nor writing `_` for `-` changes how a label
/// is classified.
pub proof fn lemma_classify_laws(l: Seq<char>, l2: Seq<char>)
    ensures
        classify_spec(l) matches CharsetView::Unsupported(n) ==> n == bare_label(l),
        classify_spec(Seq::<char>::empty()) == CharsetView::Utf8,
        lower_seq(l) == lower_seq(l2) ==> same_kind(classify_spec(l), classify_spec(l2)),
        same_kind(classify_spec(l.map_values(|c: char| dashed(c))), classify_spec(l)),
{
    assert(normalized_label(Seq::<char>::empty()) =~= Seq::<char>::empty()) by {
        assert(lead_ws(Seq::<char>::empty()) == 0);
        assert(trim(Seq::<char>::empty()) =~= Seq::<char>::empty());
        assert(lead_quotes(Seq::<char>::empty()) == 0);
        assert(bare_label(Seq::<char>::empty()) =~= Seq::<char>::empty());
    }
    if lower_seq(l) == lower_seq(l2) {
        lemma_normalized_lower(l);
        lemma_normalized_lower(l2);
    }
    lemma_normalized_dashed(l);
}

/// Classification law: a label quoted and then padded with whitespace
/// classifies as the label does, label included, when the label has no
/// surrounding whitespace of its own. (One that has some is not protected:
/// `" utf8"` is UTF-8, but quoted its space stays inside the quotes.)
pub proof fn lemma_classify_quoted(l: Seq<char>, pre: Seq<char>, post: Seq<char>)
    requires
        trim(l) == l,
        forall|k: int| 0 <= k < pre.len() ==> is_ws(#[trigger] pre[k]),
        forall|k: int| 0 <= k < post.len() ==> is_ws(#[trigger] post[k]),
    ensures
        classify_spec(pre + seq!['"'] + l + seq!['"'] + post) == classify_spec(l),
{
    let q = seq!['"'] + l + seq!['"'];
    let w = pre + q + post;
    assert(!is_ws('"'));
    assert forall|k: int| 0 <= k < pre.len() implies is_ws(#[trigger] w[k]) by {
        assert(w[k] == pre[k]);
    }
    assert(w[pre.len() as int] == '"');
    lemma_lead_ws_at(w, pre.len() as int);
    let t = w.skip(pre.len() as int);
    assert(t =~= q + post);
    assert forall|k: int| q.len() <= k < t.len() implies is_ws(#[trigger] t[k]) by {
        assert(t[k] == post[k - q.len()]);
    }
    assert(t[q.len() - 1] == '"');
    lemma_trail_ws_at(t, q.len() as int);
    assert(trim(w) =~= q);
    // Stripping the quotes from the quoted label strips them from the label.
    lemma_lead_quotes_bound(l);
    let a = lead_quotes(l) as int;
    if a == l.len() {
        assert forall|k: int| 0 <= k < q.len() implies #[trigger] q[k] == '"' by {
            if 0 < k < q.len() - 1 {
                assert(q[k] == l[k - 1]);
            }
        }
        lemma_lead_quotes_at(q, q.len() as int);
        lemma_lead_quotes_at(l, l.len() as int);
        assert(strip_quotes(q) =~= Seq::<char>::empty());
        assert(l.skip(a) =~= Seq::<char>::empty());
        assert(strip_quotes(l) =~= Seq::<char>::empty());
    } else {
        assert forall|k: int| 0 <= k < a + 1 implies #[trigger] q[k] == '"' by {
            if k > 0 {
                assert(q[k] == l[k - 1]);
            }
        }
        assert(q[a + 1] == l[a]);
        lemma_lead_quotes_at(q, a + 1);
        let u = l.skip(a);
        let uq = q.skip(a + 1);
        assert(uq =~= u.push('"'));
        lemma_trail_quotes_bound(u);
        let e = trail_quotes(u) as int;
        assert forall|k: int| u.len() - e <= k < uq.len() implies #[trigger] uq[k] == '"' by {
            if k < u.len() {
                assert(uq[k] == u[k]);
            }
        }
        assert(u[0] == l[a]);
        assert(e < u.len());
        assert(uq[u.len() - e - 1] == u[u.len() - e - 1]);
        lemma_trail_quotes_at(uq, u.len() - e);
        assert(strip_quotes(q) =~= strip_quotes(l));
    }
    assert(bare_label(w) == bare_label(l));
    assert(w =~= pre + seq!['"'] + l + seq!['"'] + post);
}


/// The windows-1252 decoding of one byte. 0x80-0x9F hold the printable
/// extras (five code points are undefined and decode to U+FFFD); every other
/// byte is the Latin-1 code point of the same value.
pub open spec fn cp1252_char(b: u8) -> char {
    if b < 0x80 || b >= 0xA0 {
        b as char
    } else {
        cp1252_high(b)
    }
}

pub open spec fn cp1252_high(b: u8) -> char {
    if b == 0x80 { '\u{20AC}' }
    else if b == 0x82 { '\u{201A}' }
    else if b == 0x83 { '\u{0192}' }
    else if b == 0x84 { '\u{201E}' }
    else if b == 0x85 { '\u{2026}' }
    else if b == 0x86 { '\u{2020}' }
    else if b == 0x87 { '\u{2021}' }
    else if b == 0x88 { '\u{02C6}' }
    else if b == 0x89 { '\u{2030}' }
    else if b == 0x8A { '\u{0160}' }
    else if b == 0x8B { '\u{2039}' }
    else if b == 0x8C { '\u{0152}' }
    else if b == 0x8E { '\u{017D}' }
    else if b == 0x91 { '\u{2018}' }
    else if b == 0x92 { '\u{2019}' }
    else if b == 0x93 { '\u{201C}' }
    else if b == 0x94 { '\u{201D}' }
    else if b == 0x95 { '\u{2022}' }
    else if b == 0x96 { '\u{2013}' }
    else if b == 0x97 { '\u{2014}' }
    else if b == 0x98 { '\u{02DC}' }
    else if b == 0x99 { '\u{2122}' }
    else if b == 0x9A { '\u{0161}' }
    else if b == 0x9B { '\u{203A}' }
    else if b == 0x9C { '\u{0153}' }
    else if b == 0x9E { '\u{017E}' }
    else if b == 0x9F { '\u{0178}' }
    else { '\u{FFFD}' }
}

fn cp1252_byte(b: u8) -> (c: char)
    ensures
        c == cp1252_char(b),
{
    if b < 0x80 || b >= 0xA0 {
        b as char
    } else if b == 0x80 { '\u{20AC}' }
    else if b == 0x82 { '\u{201A}' }
    else if b == 0x83 { '\u{0192}' }
    else if b == 0x84 { '\u{201E}' }
    else if b == 0x85 { '\u{2026}' }
    else if b == 0x86 { '\u{2020}' }
    else if b == 0x87 { '\u{2021}' }
    else if b == 0x88 { '\u{02C6}' }
    else if b == 0x89 { '\u{2030}' }
    else if b == 0x8A { '\u{0160}' }
    else if b == 0x8B { '\u{2039}' }
    else if b == 0x8C { '\u{0152}' }
    else if b == 0x8E { '\u{017D}' }
    else if b == 0x91 { '\u{2018}' }
    else if b == 0x92 { '\u{2019}' }
    else if b == 0x93 { '\u{201C}' }
    else if b == 0x94 { '\u{201D}' }
    else if b == 0x95 { '\u{2022}' }
    else if b == 0x96 { '\u{2013}' }
    else if b == 0x97 { '\u{2014}' }
    else if b == 0x98 { '\u{02DC}' }
    else if b == 0x99 { '\u{2122}' }
    else if b == 0x9A { '\u{0161}' }
    else if b == 0x9B { '\u{203A}' }
    else if b == 0x9C { '\u{0153}' }
    else if b == 0x9E { '\u{017E}' }
    else if b == 0x9F { '\u{0178}' }
    else { '\u{FFFD}' }
}

/// The five bytes windows-1252 leaves undefined.
pub open spec fn cp1252_undefined(b: u8) -> bool {
    b == 0x81 || b == 0x8D || b == 0x8F || b == 0x90 || b == 0x9D
}

/// Decoding law: windows-1252 is read one character per byte; ASCII and
/// the bytes from 0xA0 keep their code point (they are Latin-1); an
/// undefined byte reads as the replacement character; and no two defined
/// bytes read as the same character, so nothing is conflated.
pub proof fn lemma_cp1252_law(a: u8, b: u8)
    ensures
        (a < 0x80 || a >= 0xA0) ==> cp1252_char(a) as u32 == a as u32,
        cp1252_undefined(a) ==> cp1252_char(a) == '\u{FFFD}',
        a != b && !cp1252_undefined(a) && !cp1252_undefined(b) ==> cp1252_char(a) != cp1252_char(b),
{
}

/// Decode windows-1252. Every byte maps to exactly one character, so this
/// cannot fail.
pub fn decode_cp1252(bytes: &[u8]) -> (s: String)
    ensures
        s@ == bytes@.map_values(|b: u8| cp1252_char(b)),
{
    let mut s = String::new();
    let mut i: usize = 0;
    while i < bytes.len()
        invariant
            i <= bytes@.len(),
            s@ =~= bytes@.take(i as int).map_values(|b: u8| cp1252_char(b)),
        decreases bytes.len() - i,
    {
        push_char(&mut s, cp1252_byte(bytes[i]));
        i += 1;
    }
    assert(bytes@.take(bytes@.len() as int) =~= bytes@);
    s
}

/// What `String::from_utf8_lossy` makes of a byte sequence.
pub uninterp spec fn utf8_lossy(bytes: Seq<u8>) -> Seq<char>;

/// Wraps `String::from_utf8_lossy`: the result is a function of the bytes,
/// and its documentation states that valid UTF-8 comes back unchanged (only
/// invalid sequences are replaced by U+FFFD).
#[verifier::external_body]
pub(crate) fn from_utf8_lossy(bytes: &[u8]) -> (s: String)
    ensures
        s@ == utf8_lossy(bytes@),
        valid_utf8(bytes@) ==> s@ == decode_utf8(bytes@),
{
    String::from_utf8_lossy(bytes).into_owned()
}

/// What decoding produces for a body, given its declared label: the text and
/// the label to report when the text may be garbled.
pub open spec fn decode_spec(bytes: Seq<u8>, label: Option<Seq<char>>) -> (Seq<char>, Option<Seq<char>>) {
    let cls = match label {
        Some(l) => classify_spec(l),
        None => CharsetView::Utf8,
    };
    match cls {
        CharsetView::Utf8 => (utf8_lossy(bytes), None),
        CharsetView::Cp1252 => (bytes.map_values(|b: u8| cp1252_char(b)), None),
        CharsetView::Unsupported(name) => (utf8_lossy(bytes), Some(name)),
    }
}

/// Decode a body according to its declared charset.
///
/// Returns the text, plus the charset label to report when the result may be
/// garbled (`None` when the decoding is exact).
pub fn decode(bytes: &[u8], label: Option<&str>) -> (r: (String, Option<String>))
    ensures
        r.0@ == decode_spec(bytes@, opt_str_chars(label)).0,
        opt_chars(r.1) == decode_spec(bytes@, opt_str_chars(label)).1,
{
    let cls = match label {
        Some(l) => classify(l),
        None => Charset::Utf8,
    };
    match cls {
        Charset::Utf8 => (from_utf8_lossy(bytes), None),
        Charset::Cp1252 => (decode_cp1252(bytes), None),
        Charset::Unsupported(name) => (from_utf8_lossy(bytes), Some(name)),
    }
}

/// Index of the first `c` in `s`, or `s.len()` when there is none.
pub open spec fn find_char(s: Seq<char>, c: char) -> nat
    decreases s.len(),
{
    if s.len() == 0 {
        0
    } else if s[0] == c {
        0
    } else {
        1 + find_char(s.drop_first(), c)
    }
}

pub proof fn lemma_find_char_at(s: Seq<char>, c: char, i: int)
    requires
        0 <= i <= s.len(),
        forall|k: int| 0 <= k < i ==> #[trigger] s[k] != c,
        i == s.len() || s[i] == c,
    ensures
        find_char(s, c) == i,
    decreases i,
{
    if i > 0 {
        assert forall|k: int| 0 <= k < i - 1 implies #[trigger] s.drop_first()[k] != c by {
            assert(s.drop_first()[k] == s[k + 1]);
        }
        if i < s.len() {
            assert(s.drop_first()[i - 1] == s[i]);
        }
        lemma_find_char_at(s.drop_first(), c, i - 1);
    }
}

/// The value of one `;`-separated parameter, if it is a non-empty `charset=`.
pub open spec fn charset_param(part: Seq<char>) -> Option<Seq<char>> {
    let p = trim(part);
    if p.len() >= 8 && lower_seq(p.take(8)) == "charset="@ {
        let v = strip_quotes(trim(p.skip(8)));
        if v.len() > 0 {
            Some(v)
        } else {
            None
        }
    } else {
        None
    }
}

/// The first `charset=` parameter of a header, scanning its `;` parts in order.
pub open spec fn content_type_charset(h: Seq<char>) -> Option<Seq<char>>
    decreases h.len(),
{
    let i = find_char(h, ';');
    match charset_param(h.take(i as int)) {
        Some(v) => Some(v),
        None => if i < h.len() {
            content_type_charset(h.skip(i + 1int))
        } else {
            None
        },
    }
}

pub proof fn lemma_find_char_bound(s: Seq<char>, c: char)
    ensures
        find_char(s, c) <= s.len(),
        find_char(s, c) < s.len() ==> s[find_char(s, c) as int] == c,
    decreases s.len(),
{
    if s.len() > 0 && s[0] != c {
        lemma_find_char_bound(s.drop_first(), c);
        if find_char(s.drop_first(), c) < s.drop_first().len() {
            assert(s[find_char(s, c) as int] == s.drop_first()[find_char(s.drop_first(), c) as int]);
        }
    }
}

/// The charset parameter of `v[from..to]`, as `charset_param` describes.
fn charset_param_of(v: &[char], from: usize, to: usize) -> (r: Option<String>)
    requires
        from <= to <= v@.len(),
    ensures
        opt_chars(r) == charset_param(v@.subrange(from as int, to as int)),
{
    let part = string_of_range(v, from, to);
    let pv = chars_vec(part.as_str());
    let (a, b) = trim_bounds(&pv);
    let ghost p = trim(part@);
    if b - a < 8 {
        return None;
    }
    let head = string_of_range(&pv, a, a + 8);
    let hv = chars_vec(head.as_str());
    let lowered = to_ascii_lowercase(&hv);
    proof {
        assert(head@ =~= p.take(8));
    }
    if !chars_eq_str(&lowered, "charset=") {
        return None;
    }
    let rest = string_of_range(&pv, a + 8, b);
    proof {
        assert(rest@ =~= p.skip(8));
    }
    let rv = chars_vec(rest.as_str());
    let (c, d) = trim_bounds(&rv);
    let (e, f) = strip_quote_bounds(&rv, c, d);
    if e == f {
        return None;
    }
    Some(string_of_range(&rv, e, f))
}

/// Pull a `charset=` value out of a `Content-Type` header.
pub fn from_content_type(header: &str) -> (r: Option<String>)
    ensures
        opt_chars(r) == content_type_charset(header@),
{
    let v = chars_vec(header);
    let mut start: usize = 0;
    assert(v@.skip(0) =~= v@);
    loop
        invariant
            start <= v@.len(),
            content_type_charset(header@) == content_type_charset(v@.skip(start as int)),
        decreases v@.len() - start,
    {
        let ghost rest = v@.skip(start as int);
        let mut end = start;
        while end < v.len() && v[end] != ';'
            invariant
                start <= end <= v@.len(),
                forall|k: int| start <= k < end ==> #[trigger] v@[k] != ';',
            decreases v.len() - end,
        {
            end += 1;
        }
        proof {
            assert forall|k: int| 0 <= k < end - start implies #[trigger] rest[k] != ';' by {
                assert(rest[k] == v@[k + start]);
            }
            if end < v.len() {
                assert(rest[end - start] == v@[end as int]);
            }
            lemma_find_char_at(rest, ';', end - start);
            assert(rest.take(end - start) =~= v@.subrange(start as int, end as int));
        }
        let found = charset_param_of(&v, start, end);
        if found.is_some() {
            return found;
        }
        if end == v.len() {
            return None;
        }
        proof {
            assert(rest.skip(end - start + 1) =~= v@.skip(end + 1));
        }
        start = end + 1;
    }
}

} // verus!
