//! Byte-sequence utilities shared by the request parser and the response
//! encoder: trimming, searching for a separator, splitting, comparison,
//! ASCII lowercasing and decimal formatting. Each executable function is
//! verified against a spec-level definition on `Seq<u8>`.
use vstd::prelude::*;
use vstd::slice::{slice_index_get, slice_subrange, slice_to_vec};
use vstd::string::is_ascii;
use vstd::string::StrSliceExecFns;
use vstd::string::StringSliceAdditionalSpecFns;

verus! {

/// The views of every element of a sequence of byte vectors.
pub open spec fn views(s: Seq<Vec<u8>>) -> Seq<Seq<u8>> {
    s.map_values(|v: Vec<u8>| v@)
}

pub proof fn lemma_views_push(s: Seq<Vec<u8>>, v: Vec<u8>)
    ensures
        views(s.push(v)) == views(s).push(v@),
{
    assert(views(s.push(v)) =~= views(s).push(v@));
}

/// Bytes of a string literal, as a spec value (meaningful for ASCII text).
pub open spec fn lit(s: &str) -> Seq<u8> {
    s.spec_bytes()
}

/// Bytes of an ASCII string, as an executable vector.
pub fn ascii_bytes(s: &str) -> (r: Vec<u8>)
    requires
        s.is_ascii(),
    ensures
        r@ == lit(s),
{
    proof {
        vstd::string::is_ascii_spec_bytes(s);
    }
    s.as_bytes_vec()
}

/// True of the ASCII whitespace bytes that surrounding-whitespace trimming
/// removes: tab, line feed, vertical tab, form feed, carriage return, space.
pub open spec fn is_ws(b: u8) -> bool {
    b == 9 || b == 10 || b == 11 || b == 12 || b == 13 || b == 32
}

pub open spec fn trim_front(s: Seq<u8>) -> Seq<u8>
    decreases s.len(),
{
    if s.len() > 0 && is_ws(s[0]) {
        trim_front(s.drop_first())
    } else {
        s
    }
}

pub open spec fn trim_back(s: Seq<u8>) -> Seq<u8>
    decreases s.len(),
{
    if s.len() > 0 && is_ws(s.last()) {
        trim_back(s.drop_last())
    } else {
        s
    }
}

/// A sequence with leading and trailing whitespace removed.
pub open spec fn trim(s: Seq<u8>) -> Seq<u8> {
    trim_back(trim_front(s))
}

proof fn lemma_trim_front_skip(s: Seq<u8>, i: int)
    requires
        0 <= i <= s.len(),
        forall|k: int| 0 <= k < i ==> is_ws(#[trigger] s[k]),
        i < s.len() ==> !is_ws(s[i]),
    ensures
        trim_front(s) == s.skip(i),
    decreases i,
{
    if i == 0 {
        assert(s.skip(0) =~= s);
    } else {
        lemma_trim_front_skip(s.drop_first(), i - 1);
        assert(s.drop_first().skip(i - 1) =~= s.skip(i));
    }
}

proof fn lemma_trim_back_take(s: Seq<u8>, j: int)
    requires
        0 <= j <= s.len(),
        forall|k: int| j <= k < s.len() ==> is_ws(#[trigger] s[k]),
        j > 0 ==> !is_ws(s[j - 1]),
    ensures
        trim_back(s) == s.take(j),
    decreases s.len(),
{
    if j == s.len() {
        if s.len() > 0 && is_ws(s.last()) {
            assert(!is_ws(s[j - 1]));
            assert(false);
        } else {
            assert(s.take(j) =~= s);
        }
    } else {
        assert(is_ws(s.last()));
        lemma_trim_back_take(s.drop_last(), j);
        assert(s.drop_last().take(j) =~= s.take(j));
    }
}

fn is_ws_exec(b: u8) -> (r: bool)
    ensures
        r == is_ws(b),
{
    b == 9 || b == 10 || b == 11 || b == 12 || b == 13 || b == 32
}

/// Copy of `v[a..b]` as a fresh vector.
pub fn subrange_to_vec(v: &[u8], a: usize, b: usize) -> (r: Vec<u8>)
    requires
        a <= b <= v@.len(),
    ensures
        r@ == v@.subrange(a as int, b as int),
{
    slice_to_vec(slice_subrange(v, a, b))
}

/// Remove leading and trailing ASCII whitespace.
pub fn trim_exec(v: &[u8]) -> (r: Vec<u8>)
    ensures
        r@ == trim(v@),
{
    let mut i: usize = 0;
    while i < v.len() && is_ws_exec(*slice_index_get(v, i))
        invariant
            i <= v@.len(),
            forall|k: int| 0 <= k < i ==> is_ws(#[trigger] v@[k]),
        decreases v@.len() - i,
    {
        i += 1;
    }
    let mut j: usize = v.len();
    while j > i && is_ws_exec(*slice_index_get(v, j - 1))
        invariant
            i <= j <= v@.len(),
            forall|k: int| j <= k < v@.len() ==> is_ws(#[trigger] v@[k]),
        decreases j,
    {
        j -= 1;
    }
    proof {
        lemma_trim_front_skip(v@, i as int);
        let s = v@.skip(i as int);
        assert(forall|k: int|
            j - i <= k < s.len() ==> is_ws(#[trigger] s[k]) && s[k] == v@[k + i]) by {
            assert(forall|k: int| j - i <= k < s.len() ==> s[k] == v@[k + i]);
        }
        lemma_trim_back_take(s, j - i);
        assert(s.take(j - i) =~= v@.subrange(i as int, j as int));
    }
    subrange_to_vec(v, i, j)
}

/// True when `p` is a prefix of `s`.
pub open spec fn starts_with(s: Seq<u8>, p: Seq<u8>) -> bool {
    p.len() <= s.len() && s.take(p.len() as int) == p
}

/// Index of the leftmost occurrence of `p` in `s`, or -1 when there is none.
pub open spec fn find_at(s: Seq<u8>, p: Seq<u8>) -> int
    decreases s.len(),
{
    if starts_with(s, p) {
        0
    } else if s.len() == 0 {
        -1
    } else {
        let r = find_at(s.drop_first(), p);
        if r < 0 {
            -1
        } else {
            r + 1
        }
    }
}

proof fn lemma_find_none(s: Seq<u8>, p: Seq<u8>)
    requires
        forall|j: int| 0 <= j <= s.len() ==> !starts_with(#[trigger] s.skip(j), p),
    ensures
        find_at(s, p) == -1,
    decreases s.len(),
{
    assert(s.skip(0) =~= s);
    if s.len() > 0 {
        let t = s.drop_first();
        assert(forall|j: int| 0 <= j <= t.len() ==> t.skip(j) =~= s.skip(j + 1)
            && !starts_with(#[trigger] t.skip(j), p));
        lemma_find_none(t, p);
    }
}

proof fn lemma_find_some(s: Seq<u8>, p: Seq<u8>, k: int)
    requires
        0 <= k <= s.len(),
        starts_with(s.skip(k), p),
        forall|j: int| 0 <= j < k ==> !starts_with(#[trigger] s.skip(j), p),
    ensures
        find_at(s, p) == k,
    decreases k,
{
    assert(s.skip(0) =~= s);
    if k == 0 {
    } else {
        assert(!starts_with(s, p));
        let t = s.drop_first();
        assert(forall|j: int| 0 <= j <= t.len() ==> t.skip(j) =~= s.skip(j + 1));
        assert(starts_with(t.skip(k - 1), p));
        assert(forall|j: int| 0 <= j < k - 1 ==> !starts_with(#[trigger] t.skip(j), p));
        lemma_find_some(t, p, k - 1);
    }
}

/// Byte-for-byte equality of two slices.
pub fn slice_eq(a: &[u8], b: &[u8]) -> (r: bool)
    ensures
        r == (a@ == b@),
{
    if a.len() != b.len() {
        return false;
    }
    let mut i: usize = 0;
    while i < a.len()
        invariant
            i <= a@.len(),
            a@.len() == b@.len(),
            forall|k: int| 0 <= k < i ==> a@[k] == #[trigger] b@[k],
        decreases a@.len() - i,
    {
        if *slice_index_get(a, i) != *slice_index_get(b, i) {
            return false;
        }
        i += 1;
    }
    proof {
        assert(a@ =~= b@);
    }
    true
}

/// Leftmost occurrence of the separator `p` in `v` at or after `from`,
/// reported as an absolute index.
pub fn find_sep(v: &[u8], from: usize, p: &[u8]) -> (r: Option<usize>)
    requires
        from <= v@.len(),
        p@.len() >= 1,
    ensures
        match r {
            Some(i) => from <= i && i + p@.len() <= v@.len() && find_at(
                v@.skip(from as int),
                p@,
            ) == i - from,
            None => find_at(v@.skip(from as int), p@) == -1,
        },
{
    let ghost s = v@.skip(from as int);
    proof {
        assert(forall|a: int|
            from <= a <= v@.len() ==> #[trigger] v@.skip(a) =~= s.skip(a - from));
    }
    if p.len() > v.len() || from > v.len() - p.len() {
        proof {
            assert(forall|j: int| 0 <= j <= s.len() ==> (#[trigger] s.skip(j)).len() < p@.len());
            lemma_find_none(s, p@);
        }
        return None;
    }
    let n = v.len();
    let last_start = n - p.len();
    let mut j = from;
    while j <= last_start
        invariant
            n == v@.len(),
            from <= j <= last_start + 1,
            last_start + p@.len() == v@.len(),
            p@.len() >= 1,
            from <= v@.len(),
            s == v@.skip(from as int),
            forall|a: int| from <= a < j ==> !starts_with(#[trigger] v@.skip(a), p@),
        decreases last_start + 1 - j,
    {
        let cand = slice_subrange(v, j, j + p.len());
        if slice_eq(cand, p) {
            proof {
                assert(v@.skip(j as int).take(p@.len() as int) =~= v@.subrange(
                    j as int,
                    j + p@.len(),
                ));
                assert(starts_with(v@.skip(j as int), p@));
                assert(s.skip(j - from) =~= v@.skip(j as int));
                assert(forall|x: int| 0 <= x < j - from ==> s.skip(x) =~= v@.skip(x + from));
                lemma_find_some(s, p@, j - from);
            }
            return Some(j);
        }
        proof {
            assert(v@.skip(j as int).take(p@.len() as int) =~= v@.subrange(
                j as int,
                j + p@.len(),
            ));
            assert(!starts_with(v@.skip(j as int), p@));
        }
        j += 1;
    }
    proof {
        assert(forall|a: int|
            j <= a <= v@.len() ==> (#[trigger] v@.skip(a)).len() < p@.len());
        assert(forall|x: int| 0 <= x <= s.len() ==> s.skip(x) =~= v@.skip(x + from));
        lemma_find_none(s, p@);
    }
    None
}

/// The pieces of `s` between non-overlapping occurrences of the separator
/// `p`, leftmost first; the pieces do not contain the separator bytes.
pub open spec fn split(s: Seq<u8>, p: Seq<u8>) -> Seq<Seq<u8>>
    decreases s.len(),
{
    let i = find_at(s, p);
    if 0 <= i && p.len() >= 1 && i + p.len() <= s.len() {
        seq![s.take(i)] + split(s.skip(i + p.len() as int), p)
    } else {
        seq![s]
    }
}

/// Split `v` on every occurrence of the separator `p`.
pub fn split_bytes(v: &[u8], p: &[u8]) -> (r: Vec<Vec<u8>>)
    requires
        p@.len() >= 1,
    ensures
        views(r@) == split(v@, p@),
{
    let mut r: Vec<Vec<u8>> = Vec::new();
    let mut start: usize = 0;
    let vlen: usize = v.len();
    proof {
        assert(v@.skip(0) =~= v@);
        assert(views(r@) + split(v@, p@) =~= split(v@, p@));
    }
    loop
        invariant
            start <= v@.len(),
            v@.len() == vlen,
            p@.len() >= 1,
            split(v@, p@) == views(r@) + split(v@.skip(start as int), p@),
        decreases v@.len() - start,
    {
        let found = find_sep(v, start, p);
        match found {
            None => {
                let piece = subrange_to_vec(v, start, v.len());
                proof {
                    let rest = v@.skip(start as int);
                    assert(split(rest, p@) =~= seq![rest]);
                    assert(piece@ =~= rest);
                    lemma_views_push(r@, piece);
                    assert(views(r@.push(piece)) =~= views(r@) + seq![rest]);
                }
                r.push(piece);
                return r;
            },
            Some(i) => {
                let piece = subrange_to_vec(v, start, i);
                proof {
                    let rest = v@.skip(start as int);
                    let k = i - start;
                    assert(rest.take(k) =~= v@.subrange(start as int, i as int));
                    assert(rest.skip(k + p@.len() as int) =~= v@.skip(i + p@.len() as int));
                    assert(split(rest, p@) == seq![rest.take(k)] + split(
                        rest.skip(k + p@.len() as int),
                        p@,
                    ));
                    lemma_views_push(r@, piece);
                    assert(views(r@) + split(rest, p@) =~= views(r@.push(piece)) + split(
                        v@.skip(i + p@.len() as int),
                        p@,
                    ));
                }
                r.push(piece);
                start = i + p.len();
            },
        }
    }
}

/// ASCII lowercasing of a byte sequence: `A`..`Z` map to `a`..`z`.
pub open spec fn lower(s: Seq<u8>) -> Seq<u8> {
    s.map_values(|b: u8| if 65 <= b <= 90 { (b + 32) as u8 } else { b })
}

/// ASCII-lowercase a byte slice.
pub fn lower_exec(v: &[u8]) -> (r: Vec<u8>)
    ensures
        r@ == lower(v@),
{
    let mut r: Vec<u8> = Vec::new();
    let mut i: usize = 0;
    while i < v.len()
        invariant
            i <= v@.len(),
            r@ == lower(v@.take(i as int)),
        decreases v@.len() - i,
    {
        let b = *slice_index_get(v, i);
        if 65 <= b && b <= 90 {
            r.push(b + 32);
        } else {
            r.push(b);
        }
        proof {
            assert(lower(v@.take(i + 1)) =~= lower(v@.take(i as int)).push(
                if 65 <= v@[i as int] <= 90 {
                    (v@[i as int] + 32) as u8
                } else {
                    v@[i as int]
                },
            ));
        }
        i += 1;
    }
    proof {
        assert(v@.take(v@.len() as int) =~= v@);
    }
    r
}

/// Append the bytes of `src` to `dst`.
pub fn append_bytes(dst: &mut Vec<u8>, src: &[u8])
    ensures
        final(dst)@ == old(dst)@ + src@,
{
    let mut i: usize = 0;
    while i < src.len()
        invariant
            i <= src@.len(),
            dst@ == old(dst)@ + src@.take(i as int),
        decreases src@.len() - i,
    {
        dst.push(*slice_index_get(src, i));
        proof {
            assert(old(dst)@ + src@.take(i + 1) =~= (old(dst)@ + src@.take(i as int)).push(
                src@[i as int],
            ));
        }
        i += 1;
    }
    proof {
        assert(src@.take(src@.len() as int) =~= src@);
    }
}

/// Decimal digits of `n`, most significant first, as ASCII bytes.
pub open spec fn dec(n: nat) -> Seq<u8>
    decreases n,
{
    if n < 10 {
        seq![(48 + n) as u8]
    } else {
        dec(n / 10).push((48 + n % 10) as u8)
    }
}

/// Format `n` in decimal.
pub fn dec_exec(n: u64) -> (r: Vec<u8>)
    ensures
        r@ == dec(n as nat),
    decreases n,
{
    if n < 10 {
        let mut v: Vec<u8> = Vec::new();
        v.push(48 + n as u8);
        v
    } else {
        let mut v = dec_exec(n / 10);
        v.push(48 + (n % 10) as u8);
        v
    }
}

} // verus!
