//! Random field material for differential testing: short ASCII names and
//! payloads salted with dash runs, the shapes that stress boundary framing.
use vstd::prelude::*;

use crate::wire::is_alnum_or_dash;
use crate::wire::token_clean;

verus! {

/// Shortest run of random characters in a generated string.
pub const MIN_LEN: usize = 2;

/// Longest run of random characters in a generated string.
pub const MAX_LEN: usize = 5;

/// Most dashes inserted into the middle of a generated string.
pub const MAX_DASHES: usize = 2;

/// A uniform random value in `lo..=hi`.
///
/// Relies on `rand::rng` and `rand::RngExt::random_range`: a uniform sample
/// from the nonempty range `lo..=hi`, never outside it.
#[verifier::external_body]
pub(crate) fn rand_range(lo: usize, hi: usize) -> (r: usize)
    requires
        lo <= hi,
    ensures
        lo <= r <= hi,
{
    rand::RngExt::random_range(&mut rand::rng(), lo..=hi)
}

/// A random letter or digit.
pub(crate) fn rand_alnum_byte() -> (r: u8)
    ensures
        is_alnum_or_dash(r),
        r != 45u8,
{
    let i = rand_range(0, 61);
    if i < 10 {
        48 + (i as u8)
    } else if i < 36 {
        65 + (i as u8 - 10)
    } else {
        97 + (i as u8 - 36)
    }
}

/// A coin flip.
pub fn gen_bool() -> bool {
    rand_range(0, 1) == 1
}

/// A random ASCII string, as bytes: letters and digits with a dash run in
/// the middle, the kind of content that looks like a delimiter prefix.
pub fn gen_string() -> (r: Vec<u8>)
    ensures
        2 * MIN_LEN <= r@.len() <= 2 * MAX_LEN + MAX_DASHES,
        forall|k: int| 0 <= k < r@.len() ==> is_alnum_or_dash(r@[k]),
        token_clean(r@),
{
    let len_1 = rand_range(MIN_LEN, MAX_LEN);
    let len_2 = rand_range(MIN_LEN, MAX_LEN);
    let dashes = rand_range(0, MAX_DASHES);
    let mut r: Vec<u8> = Vec::new();
    let mut i: usize = 0;
    while i < len_1
        invariant
            i <= len_1 <= MAX_LEN,
            r@.len() == i,
            forall|k: int| 0 <= k < r@.len() ==> is_alnum_or_dash(r@[k]),
        decreases len_1 - i,
    {
        r.push(rand_alnum_byte());
        i += 1;
    }
    i = 0;
    while i < dashes
        invariant
            i <= dashes <= MAX_DASHES,
            r@.len() == len_1 + i,
            forall|k: int| 0 <= k < r@.len() ==> is_alnum_or_dash(r@[k]),
        decreases dashes - i,
    {
        r.push(45u8);
        i += 1;
    }
    i = 0;
    while i < len_2
        invariant
            i <= len_2 <= MAX_LEN,
            r@.len() == len_1 + dashes + i,
            forall|k: int| 0 <= k < r@.len() ==> is_alnum_or_dash(r@[k]),
        decreases len_2 - i,
    {
        r.push(rand_alnum_byte());
        i += 1;
    }
    assert forall|k: int| 0 <= k < r@.len() implies r@[k] != 13u8 && r@[k] != 10u8 && r@[k]
        != 34u8 by {
        assert(is_alnum_or_dash(r@[k]));
    }
    r
}

/// A random payload: the bytes of a random ASCII string.
pub fn gen_bytes() -> (r: Vec<u8>)
    ensures
        2 * MIN_LEN <= r@.len() <= 2 * MAX_LEN + MAX_DASHES,
        forall|k: int| 0 <= k < r@.len() ==> is_alnum_or_dash(r@[k]),
        token_clean(r@),
{
    gen_string()
}

} // verus!
