use vstd::prelude::*;

use crate::error::Error;

verus! {

/// The key lengths, in bytes, that an algorithm accepts: every
/// `min + n * step` with `n >= 0` that does not exceed `max`.
#[derive(Debug, Clone, Copy, PartialEq, Eq, Structural)]
pub struct KeySpec {
    min_keylen: usize,
    max_keylen: usize,
    mod_keylen: usize,
}

impl KeySpec {
    pub closed spec fn min(self) -> nat {
        self.min_keylen as nat
    }

    pub closed spec fn max(self) -> nat {
        self.max_keylen as nat
    }

    pub closed spec fn step(self) -> nat {
        self.mod_keylen as nat
    }

    /// A key spec describes at least one length and steps forward.
    pub open spec fn wf(self) -> bool {
        self.min() <= self.max() && self.step() > 0
    }

    /// Whether `len` is one of the lengths that the spec describes.
    pub open spec fn accepts(self, len: nat) -> bool {
        self.min() <= len <= self.max() && (len - self.min()) as nat % self.step() == 0
    }

    /// Builds a key spec; fails when `max < min` or `step == 0`.
    pub fn new(min_keylen: usize, max_keylen: usize, mod_keylen: usize) -> (r: Result<KeySpec, Error>)
        ensures
            (min_keylen <= max_keylen && mod_keylen > 0) <==> r is Ok,
            r is Ok ==> r->Ok_0.min() == min_keylen && r->Ok_0.max() == max_keylen
                && r->Ok_0.step() == mod_keylen && r->Ok_0.wf(),
            r is Err ==> r == Err::<KeySpec, Error>(Error::InvalidKeySpec),
    {
        if min_keylen > max_keylen || mod_keylen == 0 {
            Err(Error::InvalidKeySpec)
        } else {
            Ok(KeySpec { min_keylen, max_keylen, mod_keylen })
        }
    }

    /// The shortest accepted key length.
    pub fn minimum_keylength(&self) -> (r: usize)
        ensures
            r == self.min(),
    {
        self.min_keylen
    }

    /// The longest accepted key length.
    pub fn maximum_keylength(&self) -> (r: usize)
        ensures
            r == self.max(),
    {
        self.max_keylen
    }

    /// The step between accepted key lengths.
    pub fn keylength_multiple(&self) -> (r: usize)
        ensures
            r == self.step(),
    {
        self.mod_keylen
    }

    /// Whether a key of `keylen` bytes is accepted.
    pub fn is_valid_keylength(&self, keylen: usize) -> (r: bool)
        requires
            self.wf(),
        ensures
            r == self.accepts(keylen as nat),
    {
        keylen >= self.min_keylen && keylen <= self.max_keylen
            && (keylen - self.min_keylen) % self.mod_keylen == 0
    }
}

} // verus!
