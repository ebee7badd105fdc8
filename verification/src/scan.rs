//! Byte-sequence scanning: first-occurrence substring search, the core
//! primitive of the boundary-framing engine.
use vstd::prelude::*;

verus! {

/// The needle `n` occurs in the haystack `h` at position `i`.
pub open spec fn matches_at(h: Seq<u8>, n: Seq<u8>, i: int) -> bool {
    &&& 0 <= i
    &&& i + n.len() <= h.len()
    &&& forall|j: int| 0 <= j < n.len() ==> h[i + j] == n[j]
}

/// Position of the first occurrence of `n` in `h` at or after `from`.
pub open spec fn find_spec(h: Seq<u8>, n: Seq<u8>, from: int) -> Option<int>
    decreases h.len() - from,
{
    if from < 0 {
        None
    } else if from + n.len() > h.len() {
        None
    } else if matches_at(h, n, from) {
        Some(from)
    } else {
        find_spec(h, n, from + 1)
    }
}

/// `find_spec` returns the first match: a match, before which nothing matches;
/// or `None` when nothing matches at all.
pub proof fn lemma_find_spec_props(h: Seq<u8>, n: Seq<u8>, from: int)
    requires
        0 <= from,
    ensures
        match find_spec(h, n, from) {
            Some(i) => from <= i && matches_at(h, n, i) && forall|k: int|
                from <= k < i ==> !matches_at(h, n, k),
            None => forall|k: int| from <= k ==> !matches_at(h, n, k),
        },
    decreases h.len() - from,
{
    if from + n.len() > h.len() {
        assert forall|k: int| from <= k implies !matches_at(h, n, k) by {}
    } else if matches_at(h, n, from) {
    } else {
        lemma_find_spec_props(h, n, from + 1);
    }
}

/// If nothing matches in `[from, to)`, the search may as well start at `to`.
pub proof fn lemma_find_spec_step(h: Seq<u8>, n: Seq<u8>, from: int, to: int)
    requires
        0 <= from <= to,
        forall|k: int| from <= k < to ==> !matches_at(h, n, k),
    ensures
        find_spec(h, n, from) == find_spec(h, n, to),
    decreases to - from,
{
    if from < to {
        if from + n.len() > h.len() {
            assert(find_spec(h, n, from) is None);
            assert(to + n.len() > h.len());
            assert(find_spec(h, n, to) is None);
        } else {
            lemma_find_spec_step(h, n, from + 1, to);
        }
    }
}

/// A match before which nothing matches is what `find_spec` returns.
pub proof fn lemma_find_spec_is_first(h: Seq<u8>, n: Seq<u8>, from: int, i: int)
    requires
        0 <= from <= i,
        matches_at(h, n, i),
        forall|k: int| from <= k < i ==> !matches_at(h, n, k),
    ensures
        find_spec(h, n, from) == Some(i),
{
    lemma_find_spec_step(h, n, from, i);
}

/// Whether `n` occurs in `h` at position `i`.
pub fn match_at(h: &Vec<u8>, n: &Vec<u8>, i: usize) -> (r: bool)
    requires
        i + n@.len() <= h@.len(),
    ensures
        r == matches_at(h@, n@, i as int),
{
    let hlen = h.len();
    let mut j: usize = 0;
    while j < n.len()
        invariant
            i + n@.len() <= h@.len(),
            hlen == h@.len(),
            0 <= j <= n@.len(),
            forall|k: int| 0 <= k < j ==> h@[i + k] == n@[k],
        decreases n@.len() - j,
    {
        assert(i + j < hlen);
        if h[i + j] != n[j] {
            assert(!matches_at(h@, n@, i as int)) by {
                assert(h@[i + j as int] != n@[j as int]);
            }
            return false;
        }
        j += 1;
    }
    true
}

/// First occurrence of `n` in `h` at or after `from`, or `None`.
pub fn find_sub(h: &Vec<u8>, n: &Vec<u8>, from: usize) -> (r: Option<usize>)
    ensures
        match r {
            Some(i) => find_spec(h@, n@, from as int) == Some(i as int),
            None => find_spec(h@, n@, from as int) is None,
        },
{
    if n.len() > h.len() {
        return None;
    }
    let hlen = h.len();
    let bound = hlen - n.len();
    let mut i = from;
    while i <= bound
        invariant
            n@.len() <= h@.len(),
            hlen == h@.len(),
            bound == h@.len() - n@.len(),
            from <= i,
            forall|k: int| from <= k < i ==> !matches_at(h@, n@, k),
        decreases bound + 1 - i,
    {
        if match_at(h, n, i) {
            proof {
                lemma_find_spec_is_first(h@, n@, from as int, i as int);
            }
            return Some(i);
        }
        proof {
            if n@.len() == 0 {
                assert(matches_at(h@, n@, i as int));
            }
            assert(i < bound + n@.len());
            assert(i < hlen);
        }
        i += 1;
    }
    proof {
        assert forall|k: int| from as int <= k implies !matches_at(h@, n@, k) by {
            if k < i {
            } else {
                assert(k + n@.len() > h@.len());
            }
        }
        lemma_find_spec_props(h@, n@, from as int);
        if find_spec(h@, n@, from as int) is Some {
            let w = find_spec(h@, n@, from as int)->Some_0;
            assert(!matches_at(h@, n@, w));
        }
    }
    None
}

/// A copy of `h[a..b]`.
pub fn subvec(h: &Vec<u8>, a: usize, b: usize) -> (r: Vec<u8>)
    requires
        a <= b <= h@.len(),
    ensures
        r@ == h@.subrange(a as int, b as int),
{
    let mut r: Vec<u8> = Vec::new();
    let mut i = a;
    while i < b
        invariant
            a <= i <= b <= h@.len(),
            r@ == h@.subrange(a as int, i as int),
        decreases b - i,
    {
        r.push(h[i]);
        assert(r@ =~= h@.subrange(a as int, i + 1));
        i += 1;
    }
    r
}

/// Appends all of `s` to `out`.
pub fn append_vec(out: &mut Vec<u8>, s: &Vec<u8>)
    ensures
        final(out)@ == old(out)@ + s@,
{
    let mut i: usize = 0;
    while i < s.len()
        invariant
            0 <= i <= s@.len(),
            out@ == old(out)@ + s@.subrange(0, i as int),
        decreases s@.len() - i,
    {
        out.push(s[i]);
        assert(out@ =~= old(out)@ + s@.subrange(0, i + 1));
        i += 1;
    }
    assert(out@ =~= old(out)@ + s@);
}

/// A match in the haystack is a match in its suffix, shifted.
pub proof fn lemma_matches_skip(h: Seq<u8>, n: Seq<u8>, sp: int, i: int)
    requires
        0 <= sp <= i,
        sp <= h.len(),
    ensures
        matches_at(h, n, i) == matches_at(h.skip(sp), n, i - sp),
{
    if matches_at(h, n, i) {
        assert forall|j: int| 0 <= j < n.len() implies h.skip(sp)[i - sp + j] == n[j] by {
            assert(h.skip(sp)[i - sp + j] == h[i + j]);
        }
        assert(matches_at(h.skip(sp), n, i - sp));
    }
    if matches_at(h.skip(sp), n, i - sp) {
        assert forall|j: int| 0 <= j < n.len() implies h[i + j] == n[j] by {
            assert(h.skip(sp)[i - sp + j] == h[i + j]);
        }
        assert(matches_at(h, n, i));
    }
}

/// Searching the haystack from `from` is searching its suffix at `sp`,
/// shifted by `sp`.
pub proof fn lemma_find_skip(h: Seq<u8>, n: Seq<u8>, sp: int, from: int)
    requires
        0 <= sp <= from,
        sp <= h.len(),
    ensures
        match find_spec(h, n, from) {
            Some(i) => sp <= i && find_spec(h.skip(sp), n, from - sp) == Some(i - sp),
            None => find_spec(h.skip(sp), n, from - sp) is None,
        },
    decreases h.len() - from,
{
    lemma_matches_skip(h, n, sp, from);
    if from + n.len() > h.len() {
        assert((from - sp) + n.len() > h.skip(sp).len());
    } else if matches_at(h, n, from) {
    } else {
        lemma_find_skip(h, n, sp, from + 1);
    }
}

} // verus!
