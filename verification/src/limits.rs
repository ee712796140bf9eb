//! A pre-parse bound on document complexity.
//!
//! An HTML tree builder rescans its stack of open elements when it inserts
//! certain tags, so parse time grows quadratically with nesting depth: 16 000
//! nested `<div>`s take seconds and 200 000 take minutes. So depth is measured
//! up front, in one linear scan, and a document past the limit is refused
//! rather than parsed. Real pages sit around depth 20-50; the limit is far
//! above anything a document written for humans reaches.

use vstd::prelude::*;

use crate::text::bytes_of;

verus! {

/// Nesting depth past which a document is refused.
pub const MAX_NESTING_DEPTH: usize = 10_000;

/// The first `needle` at or after `from`.
pub open spec fn find_byte_spec(b: Seq<u8>, from: int, needle: u8) -> Option<int>
    decreases b.len() - from,
{
    if from < 0 || from >= b.len() {
        None
    } else if b[from] == needle {
        Some(from)
    } else {
        find_byte_spec(b, from + 1, needle)
    }
}

/// The first occurrence of `needle` starting at or after `from`.
pub open spec fn find_slice_spec(b: Seq<u8>, from: int, needle: Seq<u8>) -> Option<int>
    decreases b.len() - from,
{
    if from < 0 || from >= b.len() || from + needle.len() > b.len() {
        None
    } else if b.subrange(from, from + needle.len()) == needle {
        Some(from)
    } else {
        find_slice_spec(b, from + 1, needle)
    }
}

/// `[A-Za-z0-9]`.
pub open spec fn is_alnum(c: u8) -> bool {
    (0x30 <= c <= 0x39) || (0x41 <= c <= 0x5a) || (0x61 <= c <= 0x7a)
}

/// End of the run of ASCII alphanumerics starting at `from`.
pub open spec fn alnum_end(b: Seq<u8>, from: int) -> int
    decreases b.len() - from,
{
    if from < b.len() && from >= 0 && is_alnum(b[from]) {
        alnum_end(b, from + 1)
    } else {
        from
    }
}

pub open spec fn lower_byte(c: u8) -> u8 {
    if 0x41 <= c <= 0x5a {
        (c + 32) as u8
    } else {
        c
    }
}

/// HTML void elements: they never open a level.
pub open spec fn is_void(name: Seq<u8>) -> bool {
    ||| name == bytes_of("area"@)
    ||| name == bytes_of("base"@)
    ||| name == bytes_of("br"@)
    ||| name == bytes_of("col"@)
    ||| name == bytes_of("embed"@)
    ||| name == bytes_of("hr"@)
    ||| name == bytes_of("img"@)
    ||| name == bytes_of("input"@)
    ||| name == bytes_of("link"@)
    ||| name == bytes_of("meta"@)
    ||| name == bytes_of("param"@)
    ||| name == bytes_of("source"@)
    ||| name == bytes_of("track"@)
    ||| name == bytes_of("wbr"@)
}

/// What the tag scan makes of the `<` at `i`: `None` to stop scanning, or where
/// to resume and whether the tag closes (-1), opens (+1) or leaves (0) a level.
pub open spec fn tag_step(b: Seq<u8>, i: int) -> Option<(int, int)> {
    if i + 1 >= b.len() {
        None
    } else if i + 4 <= b.len() && b.subrange(i, i + 4) == seq![0x3cu8, 0x21, 0x2d, 0x2d] {
        match find_slice_spec(b, i + 4, seq![0x2du8, 0x2d, 0x3e]) {
            Some(end) => Some((end + 3, 0)),
            None => None,
        }
    } else if b[i + 1] == 0x21 || b[i + 1] == 0x3f {
        match find_byte_spec(b, i, 0x3e) {
            Some(end) => Some((end + 1, 0)),
            None => None,
        }
    } else {
        let closing = b[i + 1] == 0x2f;
        let name_start = if closing {
            i + 2
        } else {
            i + 1
        };
        let name_end = alnum_end(b, name_start);
        if name_end == name_start {
            Some((i + 1, 0))
        } else {
            match find_byte_spec(b, name_end, 0x3e) {
                None => None,
                Some(tag_end) => {
                    let name = b.subrange(name_start, name_end).map_values(|c: u8| lower_byte(c));
                    let self_closing = tag_end > 0 && b[tag_end - 1] == 0x2f;
                    if closing {
                        Some((tag_end + 1, -1))
                    } else if !self_closing && !is_void(name) {
                        Some((tag_end + 1, 1))
                    } else {
                        Some((tag_end + 1, 0))
                    }
                },
            }
        }
    }
}

/// The deepest level the tag scan reaches from byte `i`, at depth `depth`,
/// having seen `max` so far.
pub open spec fn scan_depth(b: Seq<u8>, i: int, depth: int, max: int) -> int
    decreases b.len() - i,
{
    if i < 0 || i >= b.len() {
        max
    } else if b[i] != 0x3c {
        scan_depth(b, i + 1, depth, max)
    } else {
        match tag_step(b, i) {
            None => max,
            Some((next, d)) => if next <= i || next > b.len() {
                max
            } else {
                let nd = depth + d;
                scan_depth(b, next, nd, if nd > max { nd } else { max })
            },
        }
    }
}

/// The estimated maximum nesting depth of a document.
pub open spec fn nesting_depth(b: Seq<u8>) -> int {
    scan_depth(b, 0, 0, 0)
}

pub fn find_byte(bytes: &[u8], from: usize, needle: u8) -> (r: Option<usize>)
    requires
        from <= bytes@.len(),
    ensures
        r matches Some(k) ==> find_byte_spec(bytes@, from as int, needle) == Some(k as int),
        r is None ==> find_byte_spec(bytes@, from as int, needle) is None,
        r matches Some(k) ==> from <= k < bytes@.len(),
{
    let mut k = from;
    while k < bytes.len()
        invariant
            from <= k <= bytes@.len(),
            find_byte_spec(bytes@, from as int, needle) == find_byte_spec(bytes@, k as int, needle),
        decreases bytes.len() - k,
    {
        if bytes[k] == needle {
            return Some(k);
        }
        k += 1;
    }
    None
}

pub fn find_slice(bytes: &[u8], from: usize, needle: &[u8]) -> (r: Option<usize>)
    ensures
        r matches Some(k) ==> find_slice_spec(bytes@, from as int, needle@) == Some(k as int),
        r is None ==> find_slice_spec(bytes@, from as int, needle@) is None,
        r matches Some(k) ==> from <= k && k + needle@.len() <= bytes@.len(),
{
    let mut k = from;
    while k < bytes.len() && needle.len() <= bytes.len() - k
        invariant
            from <= k,
            find_slice_spec(bytes@, from as int, needle@) == find_slice_spec(
                bytes@,
                k as int,
                needle@,
            ),
        decreases bytes.len() - k,
    {
        let mut j: usize = 0;
        let mut same = true;
        let n = bytes.len();
        while j < needle.len()
            invariant
                n == bytes@.len(),
                k + needle@.len() <= bytes@.len(),
                j <= needle@.len(),
                same == (forall|t: int| 0 <= t < j ==> bytes@[k + t] == needle@[t]),
            decreases needle.len() - j,
        {
            if bytes[k + j] != needle[j] {
                same = false;
            }
            j += 1;
        }
        proof {
            if same {
                assert(bytes@.subrange(k as int, k + needle@.len()) =~= needle@);
            } else {
                let t = choose|t: int| 0 <= t < needle@.len() && bytes@[k + t] != needle@[t];
                assert(bytes@.subrange(k as int, k + needle@.len())[t] != needle@[t]);
            }
        }
        if same {
            return Some(k);
        }
        k += 1;
    }
    None
}

fn is_void_name(name: &[u8]) -> (r: bool)
    ensures
        r == is_void(name@),
{
    bytes_eq(name, "area".as_bytes()) || bytes_eq(name, "base".as_bytes()) || bytes_eq(
        name,
        "br".as_bytes(),
    ) || bytes_eq(name, "col".as_bytes()) || bytes_eq(name, "embed".as_bytes()) || bytes_eq(
        name,
        "hr".as_bytes(),
    ) || bytes_eq(name, "img".as_bytes()) || bytes_eq(name, "input".as_bytes()) || bytes_eq(
        name,
        "link".as_bytes(),
    ) || bytes_eq(name, "meta".as_bytes()) || bytes_eq(name, "param".as_bytes()) || bytes_eq(
        name,
        "source".as_bytes(),
    ) || bytes_eq(name, "track".as_bytes()) || bytes_eq(name, "wbr".as_bytes())
}

/// Do two byte sequences agree?
pub fn bytes_eq(a: &[u8], b: &[u8]) -> (r: bool)
    ensures
        r == (a@ == b@),
{
    if a.len() != b.len() {
        return false;
    }
    let mut i: usize = 0;
    while i < a.len()
        invariant
            i <= a@.len() == b@.len(),
            forall|k: int| 0 <= k < i ==> a@[k] == b@[k],
        decreases a.len() - i,
    {
        if a[i] != b[i] {
            return false;
        }
        i += 1;
    }
    assert(a@ =~= b@);
    true
}

fn is_alnum_byte(c: u8) -> (r: bool)
    ensures
        r == is_alnum(c),
{
    (0x30 <= c && c <= 0x39) || (0x41 <= c && c <= 0x5a) || (0x61 <= c && c <= 0x7a)
}

/// Estimate a document's maximum element nesting depth.
///
/// A tag scan, not a parse — the whole point is to answer before paying for a
/// parse. It ignores the implicit closes a real parser performs (`<p>` inside
/// `<p>`, unclosed `<li>`), so it can *over*-estimate on sloppy markup; that is
/// the safe direction only because the limit sits so far above real documents.
pub fn max_nesting_depth(html: &str) -> (r: usize)
    ensures
        r == nesting_depth(bytes_of(html@)),
{
    let bytes = html.as_bytes();
    let ghost b = bytes@;
    let mut depth: i128 = 0;
    let mut max: i128 = 0;
    let mut i: usize = 0;
    while i < bytes.len()
        invariant
            b == bytes@,
            b == bytes_of(html@),
            i <= b.len(),
            -(i as int) <= depth <= i as int,
            0 <= max <= i as int,
            depth <= max,
            nesting_depth(b) == scan_depth(b, i as int, depth as int, max as int),
        ensures
            0 <= max,
            nesting_depth(b) == max as int,
        decreases bytes.len() - i,
    {
        if bytes[i] != 0x3c {
            i += 1;
            continue;
        }
        if i + 1 >= bytes.len() {
            break;
        }
        let next = bytes[i + 1];
        let comment: [u8; 4] = [0x3c, 0x21, 0x2d, 0x2d];
        let comment_end: [u8; 3] = [0x2d, 0x2d, 0x3e];
        proof {
            assert(comment@ =~= seq![0x3cu8, 0x21, 0x2d, 0x2d]);
            assert(comment_end@ =~= seq![0x2du8, 0x2d, 0x3e]);
        }
        let mut starts_comment = bytes.len() - i >= 4;
        if starts_comment {
            let mut t: usize = 0;
            let n = bytes.len();
            while t < 4
                invariant
                    n == b.len(),
                    i + 4 <= b.len(),
                    b == bytes@,
                    comment@ == seq![0x3cu8, 0x21, 0x2d, 0x2d],
                    t <= 4,
                    starts_comment == (forall|k: int| 0 <= k < t ==> b[i + k] == comment@[k]),
                decreases 4 - t,
            {
                if bytes[i + t] != comment[t] {
                    starts_comment = false;
                }
                t += 1;
            }
            proof {
                if starts_comment {
                    assert(b.subrange(i as int, i + 4) =~= comment@);
                } else {
                    let k = choose|k: int| 0 <= k < 4 && b[i + k] != comment@[k];
                    assert(b.subrange(i as int, i + 4)[k] != comment@[k]);
                }
            }
        }
        if starts_comment {
            match find_slice(bytes, i + 4, &comment_end) {
                Some(end) => {
                    i = end + 3;
                    continue;
                },
                None => {
                    break;
                },
            }
        }
        if next == 0x21 || next == 0x3f {
            match find_byte(bytes, i, 0x3e) {
                Some(end) => {
                    i = end + 1;
                    continue;
                },
                None => {
                    break;
                },
            }
        }
        let closing = next == 0x2f;
        let name_start = if closing {
            i + 2
        } else {
            i + 1
        };
        let mut name_end = name_start;
        while name_end < bytes.len() && is_alnum_byte(bytes[name_end])
            invariant
                b == bytes@,
                name_start <= name_end <= b.len(),
                alnum_end(b, name_start as int) == alnum_end(b, name_end as int),
            decreases bytes.len() - name_end,
        {
            name_end += 1;
        }
        if name_end == name_start {
            i += 1;
            continue;
        }
        let tag_end = match find_byte(bytes, name_end, 0x3e) {
            Some(e) => e,
            None => {
                break;
            },
        };
        let mut name: Vec<u8> = Vec::new();
        let mut k = name_start;
        while k < name_end
            invariant
                b == bytes@,
                name_start <= k <= name_end <= b.len(),
                name@ =~= b.subrange(name_start as int, k as int).map_values(
                    |c: u8| lower_byte(c),
                ),
            decreases name_end - k,
        {
            let c = bytes[k];
            name.push(
                if 0x41 <= c && c <= 0x5a {
                    c + 32
                } else {
                    c
                },
            );
            k += 1;
        }
        let self_closing = tag_end > 0 && bytes[tag_end - 1] == 0x2f;
        if closing {
            depth = depth - 1;
        } else if !self_closing && !is_void_name(&name) {
            depth = depth + 1;
            if depth > max {
                max = depth;
            }
        }
        i = tag_end + 1;
    }
    max as usize
}

/// Is this document too deeply nested to parse within a sane time budget?
/// Returns its depth when it is.
pub fn too_deeply_nested(html: &str) -> (r: Option<usize>)
    ensures
        r == (if nesting_depth(bytes_of(html@)) > MAX_NESTING_DEPTH {
            Some(nesting_depth(bytes_of(html@)) as usize)
        } else {
            None
        }),
        r matches Some(d) ==> d as int == nesting_depth(bytes_of(html@)),
{
    let depth = max_nesting_depth(html);
    if depth > MAX_NESTING_DEPTH {
        Some(depth)
    } else {
        None
    }
}

} // verus!
