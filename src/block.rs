//! The block cipher engine: one instantiated algorithm with a key schedule
//! that is either installed or absent.
use vstd::prelude::*;

use crate::algorithm::Algorithm;
use crate::ecb::{ecb_map, lemma_aligned_block, lemma_ecb_block};
use crate::error::Error;
use crate::keyspec::KeySpec;

verus! {

/// What an engine is, abstractly: its algorithm and, once a key has been
/// set, the key schedule derived from it.
pub struct CipherState {
    pub algo: Algorithm,
    pub schedule: Option<Seq<u8>>,
}

impl CipherState {
    /// A fresh engine for `algo`, with no key.
    pub open spec fn unkeyed(algo: Algorithm) -> CipherState {
        CipherState { algo, schedule: None }
    }

    pub open spec fn block_size(self) -> nat {
        self.algo.block_size()
    }

    /// What `set_key` returns.
    pub open spec fn set_key_result(self, key: Seq<u8>) -> Result<(), Error> {
        if self.algo.accepts_key_len(key.len()) {
            Ok(())
        } else {
            Err(Error::InvalidKeyLength)
        }
    }

    /// The state after `set_key`: the new key's schedule replaces any
    /// earlier one; a key of invalid length changes nothing.
    pub open spec fn after_set_key(self, key: Seq<u8>) -> CipherState {
        if self.algo.accepts_key_len(key.len()) {
            CipherState { algo: self.algo, schedule: Some(self.algo.expand_key(key)) }
        } else {
            self
        }
    }

    /// The state after `clear`: no key.
    pub open spec fn after_clear(self) -> CipherState {
        CipherState { algo: self.algo, schedule: None }
    }

    /// What encryption of `data` gives: an error for a length that is not a
    /// multiple of the block size, then for a missing key; otherwise every
    /// block encrypted on its own.
    pub open spec fn encrypt(self, data: Seq<u8>) -> Result<Seq<u8>, Error> {
        if data.len() % self.block_size() != 0 {
            Err(Error::InvalidInputLength)
        } else {
            match self.schedule {
                None => Err(Error::NoKeySet),
                Some(s) => Ok(
                    ecb_map(self.block_size(), |b: Seq<u8>| self.algo.encrypt_block(s, b), data),
                ),
            }
        }
    }

    /// What decryption of `data` gives, with the same errors as `encrypt`.
    pub open spec fn decrypt(self, data: Seq<u8>) -> Result<Seq<u8>, Error> {
        if data.len() % self.block_size() != 0 {
            Err(Error::InvalidInputLength)
        } else {
            match self.schedule {
                None => Err(Error::NoKeySet),
                Some(s) => Ok(
                    ecb_map(self.block_size(), |b: Seq<u8>| self.algo.decrypt_block(s, b), data),
                ),
            }
        }
    }
}

/// A fresh copy of `bytes`.
fn copy_bytes(bytes: &[u8]) -> (r: Vec<u8>)
    ensures
        r@ == bytes@,
{
    let n = bytes.len();
    let mut r: Vec<u8> = Vec::with_capacity(n);
    let mut i: usize = 0;
    while i < n
        invariant
            n == bytes@.len(),
            i <= n,
            r@ == bytes@.subrange(0, i as int),
        decreases n - i,
    {
        r.push(bytes[i]);
        i = i + 1;
        assert(r@ =~= bytes@.subrange(0, i as int));
    }
    assert(bytes@ =~= bytes@.subrange(0, n as int));
    r
}

/// A raw block cipher (ECB-style: each block on its own). Modes of operation
/// are built on top of it elsewhere.
pub struct BlockCipher {
    algo: Algorithm,
    block_size: usize,
    min_keylen: usize,
    max_keylen: usize,
    mod_keylen: usize,
    sched: Vec<u8>,
    keyed: bool,
}

impl View for BlockCipher {
    type V = CipherState;

    closed spec fn view(&self) -> CipherState {
        CipherState {
            algo: self.algo,
            schedule: if self.keyed {
                Some(self.sched@)
            } else {
                None
            },
        }
    }
}

impl BlockCipher {
    /// The cached properties agree with the algorithm, the schedule buffer
    /// has the algorithm's schedule length, and it holds only zeros while no
    /// key is installed.
    pub closed spec fn wf(&self) -> bool {
        &&& self.block_size == self.algo.block_size()
        &&& self.min_keylen == self.algo.min_key_len()
        &&& self.max_keylen == self.algo.max_key_len()
        &&& self.mod_keylen == self.algo.key_len_step()
        &&& self.sched@.len() == self.algo.schedule_len()
        &&& !self.keyed ==> self.is_wiped()
    }

    /// The bytes of key material that the engine holds in memory.
    pub closed spec fn retained_key_bytes(&self) -> Seq<u8> {
        self.sched@
    }

    /// Every byte of key material held in memory is zero.
    pub open spec fn is_wiped(&self) -> bool {
        forall|i: int| 0 <= i < self.retained_key_bytes().len() ==> #[trigger] self.retained_key_bytes()[i] == 0
    }

    /// Overwrites every byte of the schedule buffer with zero.
    fn wipe_schedule(sched: &mut Vec<u8>)
        ensures
            final(sched)@.len() == old(sched)@.len(),
            forall|i: int| 0 <= i < final(sched)@.len() ==> #[trigger] final(sched)@[i] == 0,
    {
        let n = sched.len();
        let mut i: usize = 0;
        while i < n
            invariant
                n == sched@.len(),
                i <= n,
                forall|j: int| 0 <= j < i ==> #[trigger] sched@[j] == 0,
            decreases n - i,
        {
            sched[i] = 0;
            i = i + 1;
        }
    }

    /// Creates an engine for the algorithm registered under `name`, with no
    /// key; fails with `UnknownAlgorithm` when there is none.
    pub fn new(name: &str) -> (r: Result<BlockCipher, Error>)
        ensures
            Algorithm::from_name(name@) is None ==> r == Err::<BlockCipher, Error>(
                Error::UnknownAlgorithm,
            ),
            Algorithm::from_name(name@) is Some ==> r is Ok && r->Ok_0.wf() && r->Ok_0@
                == CipherState::unkeyed(Algorithm::from_name(name@)->Some_0),
    {
        let algo = match Algorithm::lookup(name) {
            Some(a) => a,
            None => return Err(Error::UnknownAlgorithm),
        };
        let block_size = algo.block_bytes();
        let (min_keylen, max_keylen, mod_keylen) = algo.key_lengths();
        let n = algo.schedule_bytes();
        let mut sched: Vec<u8> = Vec::with_capacity(n);
        let mut i: usize = 0;
        while i < n
            invariant
                i <= n,
                sched@.len() == i,
                forall|j: int| 0 <= j < i ==> #[trigger] sched@[j] == 0,
            decreases n - i,
        {
            sched.push(0);
            i = i + 1;
        }
        Ok(BlockCipher { algo, block_size, min_keylen, max_keylen, mod_keylen, sched, keyed: false })
    }

    /// The block size of the algorithm, in bytes.
    pub fn block_size(&self) -> (r: Result<usize, Error>)
        requires
            self.wf(),
        ensures
            r is Ok,
            r->Ok_0 == self@.block_size(),
            r->Ok_0 > 0,
    {
        proof {
            self.algo.lemma_shape();
        }
        Ok(self.block_size)
    }

    /// The canonical name of the algorithm that runs, which may be spelled
    /// otherwise than the identifier it was requested by.
    pub fn algo_name(&self) -> (r: Result<String, Error>)
        ensures
            r is Ok,
            r->Ok_0@ == self@.algo.name(),
    {
        Ok(self.algo.canonical_name())
    }

    /// The key lengths that the algorithm accepts.
    pub fn key_spec(&self) -> (r: Result<KeySpec, Error>)
        requires
            self.wf(),
        ensures
            r is Ok,
            r->Ok_0.wf(),
            r->Ok_0.min() == self@.algo.min_key_len(),
            r->Ok_0.max() == self@.algo.max_key_len(),
            r->Ok_0.step() == self@.algo.key_len_step(),
            forall|len: nat| #[trigger] r->Ok_0.accepts(len) == self@.algo.accepts_key_len(len),
    {
        proof {
            self.algo.lemma_shape();
        }
        KeySpec::new(self.min_keylen, self.max_keylen, self.mod_keylen)
    }

    /// Installs the schedule of `key`, wiping any earlier one first; fails
    /// with `InvalidKeyLength`, changing nothing, when the key spec does not
    /// accept the key's length. Nothing branches on the key's bytes.
    pub fn set_key(&mut self, key: &[u8]) -> (r: Result<(), Error>)
        requires
            old(self).wf(),
        ensures
            final(self).wf(),
            r == old(self)@.set_key_result(key@),
            final(self)@ == old(self)@.after_set_key(key@),
    {
        let len = key.len();
        if len < self.min_keylen || len > self.max_keylen || (len - self.min_keylen)
            % self.mod_keylen != 0 {
            return Err(Error::InvalidKeyLength);
        }
        Self::wipe_schedule(&mut self.sched);
        self.algo.install_schedule(key, &mut self.sched);
        self.keyed = true;
        Ok(())
    }

    /// The transform of one block: forward or inverse.
    pub open spec fn block_fn(algo: Algorithm, sched: Seq<u8>, forward: bool) -> spec_fn(Seq<u8>) -> Seq<u8> {
        if forward {
            |b: Seq<u8>| algo.encrypt_block(sched, b)
        } else {
            |b: Seq<u8>| algo.decrypt_block(sched, b)
        }
    }

    /// Runs the block transform over each block of `buf`, in block order.
    fn transform_blocks(&self, buf: &mut [u8], forward: bool)
        requires
            self.wf(),
            self.keyed,
            old(buf)@.len() % self.algo.block_size() == 0,
        ensures
            final(buf)@ == ecb_map(
                self.algo.block_size(),
                Self::block_fn(self.algo, self.sched@, forward),
                old(buf)@,
            ),
    {
        let n = buf.len();
        let bs = self.block_size;
        let ghost s = self.sched@;
        let ghost f = Self::block_fn(self.algo, s, forward);
        let ghost data = buf@;
        let ghost want = ecb_map(bs as nat, f, data);
        proof {
            self.algo.lemma_shape();
        }
        let mut start: usize = 0;
        while start < n
            invariant
                self.wf(),
                bs == self.algo.block_size(),
                s == self.sched@,
                n == data.len(),
                buf@.len() == n,
                n % bs == 0,
                start % bs == 0,
                start <= n,
                bs > 0,
                f == Self::block_fn(self.algo, s, forward),
                want == ecb_map(bs as nat, f, data),
                forall|i: int| 0 <= i < start ==> #[trigger] buf@[i] == want[i],
                forall|i: int| start <= i < n ==> #[trigger] buf@[i] == data[i],
            decreases n - start,
        {
            proof {
                lemma_aligned_block(start as int, n as nat, bs as nat);
                lemma_ecb_block(bs as nat, f, data, start as int);
            }
            let ghost before = buf@;
            if forward {
                self.algo.encrypt_block_at(&self.sched, buf, start);
            } else {
                self.algo.decrypt_block_at(&self.sched, buf, start);
            }
            proof {
                assert(before.subrange(start as int, start + bs) =~= data.subrange(
                    start as int,
                    start + bs,
                ));
                let blk = data.subrange(start as int, start + bs);
                let e = f(blk);
                assert(e.len() == bs);
                assert(buf@ == before.subrange(0, start as int) + e + before.subrange(
                    start + bs,
                    n as int,
                ));
                assert forall|i: int| start <= i < start + bs implies #[trigger] buf@[i]
                    == want[i] by {
                    assert(want[start + (i - start)] == e[i - start]);
                    assert(buf@[i] == e[i - start]);
                }
            }
            start = start + bs;
        }
        proof {
            assert(buf@ =~= want);
        }
    }

    /// Encrypts `buf` in place, block by block; fails, leaving `buf` as it
    /// was, with `InvalidInputLength` when its length is not a multiple of the
    /// block size, else with `NoKeySet` when no key is installed.
    pub fn encrypt_in_place(&self, buf: &mut [u8]) -> (r: Result<(), Error>)
        requires
            self.wf(),
        ensures
            match self@.encrypt(old(buf)@) {
                Ok(c) => r is Ok && final(buf)@ == c,
                Err(e) => r == Err::<(), Error>(e) && final(buf)@ == old(buf)@,
            },
    {
        if buf.len() % self.block_size != 0 {
            return Err(Error::InvalidInputLength);
        }
        if !self.keyed {
            return Err(Error::NoKeySet);
        }
        self.transform_blocks(buf, true);
        Ok(())
    }

    /// Decrypts `buf` in place, block by block, with the same errors as
    /// `encrypt_in_place`.
    pub fn decrypt_in_place(&self, buf: &mut [u8]) -> (r: Result<(), Error>)
        requires
            self.wf(),
        ensures
            match self@.decrypt(old(buf)@) {
                Ok(c) => r is Ok && final(buf)@ == c,
                Err(e) => r == Err::<(), Error>(e) && final(buf)@ == old(buf)@,
            },
    {
        if buf.len() % self.block_size != 0 {
            return Err(Error::InvalidInputLength);
        }
        if !self.keyed {
            return Err(Error::NoKeySet);
        }
        self.transform_blocks(buf, false);
        Ok(())
    }

    /// Encrypts a copy of `input` and returns it; `input` is left alone.
    pub fn encrypt_blocks(&self, input: &[u8]) -> (r: Result<Vec<u8>, Error>)
        requires
            self.wf(),
        ensures
            match self@.encrypt(input@) {
                Ok(c) => r is Ok && r->Ok_0@ == c,
                Err(e) => r == Err::<Vec<u8>, Error>(e),
            },
    {
        let mut ivec = copy_bytes(input);
        match self.encrypt_in_place(ivec.as_mut_slice()) {
            Ok(()) => Ok(ivec),
            Err(e) => Err(e),
        }
    }

    /// Decrypts a copy of `input` and returns it; `input` is left alone.
    pub fn decrypt_blocks(&self, input: &[u8]) -> (r: Result<Vec<u8>, Error>)
        requires
            self.wf(),
        ensures
            match self@.decrypt(input@) {
                Ok(c) => r is Ok && r->Ok_0@ == c,
                Err(e) => r == Err::<Vec<u8>, Error>(e),
            },
    {
        let mut ivec = copy_bytes(input);
        match self.decrypt_in_place(ivec.as_mut_slice()) {
            Ok(()) => Ok(ivec),
            Err(e) => Err(e),
        }
    }

    /// Wipes the key schedule from memory; the engine then has no key.
    /// Clearing an engine without a key succeeds and changes nothing.
    pub fn clear(&mut self) -> (r: Result<(), Error>)
        requires
            old(self).wf(),
        ensures
            r is Ok,
            final(self).wf(),
            final(self)@ == old(self)@.after_clear(),
            final(self).is_wiped(),
    {
        Self::wipe_schedule(&mut self.sched);
        self.keyed = false;
        Ok(())
    }
}

} // verus!
