//! Boundary tokens: the delimiter strings that separate the parts of a body.
use vstd::prelude::*;

use crate::MultipartError;
use crate::gen::rand_alnum_byte;
use crate::gen::rand_range;
use crate::wire::boundary_token_ok;
use crate::wire::check_boundary_token;
use crate::wire::is_alnum_or_dash;

verus! {

/// The delimiter token of one encode or decode session.
pub struct Boundary {
    bytes: Vec<u8>,
}

impl Boundary {
    /// The token's bytes.
    pub closed spec fn view(self) -> Seq<u8> {
        self.bytes@
    }

    /// Every boundary value holds a usable token.
    pub closed spec fn wf(self) -> bool {
        boundary_token_ok(self.bytes@)
    }

    /// Draws a fresh random token of 24 to 32 letters and digits.
    pub fn generate() -> (r: Boundary)
        ensures
            r.wf(),
    {
        let len = rand_range(24, 32);
        let mut bytes: Vec<u8> = Vec::new();
        let mut i: usize = 0;
        while i < len
            invariant
                i <= len,
                len <= 32,
                bytes@.len() == i,
                forall|k: int| 0 <= k < i ==> is_alnum_or_dash(bytes@[k]),
            decreases len - i,
        {
            bytes.push(rand_alnum_byte());
            i += 1;
        }
        Boundary { bytes }
    }

    /// Accepts a token told out-of-band, refusing one that is no boundary.
    pub fn from_bytes(bytes: Vec<u8>) -> (r: Result<Boundary, MultipartError>)
        ensures
            match r {
                Ok(b) => b.wf() && b@ == bytes@ && boundary_token_ok(bytes@),
                Err(e) => e == MultipartError::NotMultipart && !boundary_token_ok(bytes@),
            },
    {
        if check_boundary_token(&bytes) {
            Ok(Boundary { bytes })
        } else {
            Err(MultipartError::NotMultipart)
        }
    }

    /// The token's bytes, to put on the wire beside the body.
    pub fn as_bytes(&self) -> (r: &Vec<u8>)
        ensures
            r@ == self@,
    {
        &self.bytes
    }

    /// Gives the token up.
    pub fn into_bytes(self) -> (r: Vec<u8>)
        ensures
            r@ == self@,
    {
        self.bytes
    }
}

} // verus!
