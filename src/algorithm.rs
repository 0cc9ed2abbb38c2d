//! The closed registry of block cipher algorithms that an engine can run.
use vstd::prelude::*;

use crate::test_cipher;

verus! {

/// An algorithm of the registry.
#[derive(Debug, Clone, Copy, PartialEq, Eq, Structural)]
pub enum Algorithm {
    /// The reference cipher: 16-byte blocks, 16-byte keys.
    TestCipher,
}

/// Whether two strings hold the same characters.
fn same_chars(a: &str, b: &str) -> (r: bool)
    ensures
        r == (a@ == b@),
{
    let n = a.unicode_len();
    if n != b.unicode_len() {
        return false;
    }
    let mut i: usize = 0;
    while i < n
        invariant
            n == a@.len(),
            n == b@.len(),
            i <= n,
            a@.subrange(0, i as int) == b@.subrange(0, i as int),
        decreases n - i,
    {
        if a.get_char(i) != b.get_char(i) {
            assert(a@[i as int] != b@[i as int]);
            return false;
        }
        assert(a@.subrange(0, i + 1) =~= a@.subrange(0, i as int).push(a@[i as int]));
        assert(b@.subrange(0, i + 1) =~= b@.subrange(0, i as int).push(b@[i as int]));
        i = i + 1;
    }
    assert(a@ =~= a@.subrange(0, n as int));
    assert(b@ =~= b@.subrange(0, n as int));
    true
}

impl Algorithm {
    /// The algorithm registered under `id`, if any.
    pub open spec fn from_name(id: Seq<char>) -> Option<Algorithm> {
        if id == "TestCipher"@ {
            Some(Algorithm::TestCipher)
        } else {
            None
        }
    }

    /// The canonical name of the algorithm.
    pub open spec fn name(self) -> Seq<char> {
        match self {
            Algorithm::TestCipher => "TestCipher"@,
        }
    }

    pub open spec fn block_size(self) -> nat {
        match self {
            Algorithm::TestCipher => test_cipher::BLOCK_BYTES as nat,
        }
    }

    pub open spec fn min_key_len(self) -> nat {
        match self {
            Algorithm::TestCipher => test_cipher::KEY_BYTES as nat,
        }
    }

    pub open spec fn max_key_len(self) -> nat {
        match self {
            Algorithm::TestCipher => test_cipher::KEY_BYTES as nat,
        }
    }

    pub open spec fn key_len_step(self) -> nat {
        match self {
            Algorithm::TestCipher => 1,
        }
    }

    /// Whether a key of `len` bytes is valid: `min + n * step` for some
    /// `n >= 0`, at most `max`.
    pub open spec fn accepts_key_len(self, len: nat) -> bool {
        self.min_key_len() <= len <= self.max_key_len() && (len - self.min_key_len()) as nat
            % self.key_len_step() == 0
    }

    /// The length of the key schedule.
    pub open spec fn schedule_len(self) -> nat {
        match self {
            Algorithm::TestCipher => test_cipher::SCHEDULE_BYTES as nat,
        }
    }

    /// The key schedule derived from a key of valid length.
    pub open spec fn expand_key(self, key: Seq<u8>) -> Seq<u8> {
        match self {
            Algorithm::TestCipher => test_cipher::expand_key(key),
        }
    }

    /// The forward transform of one block.
    pub open spec fn encrypt_block(self, sched: Seq<u8>, block: Seq<u8>) -> Seq<u8> {
        match self {
            Algorithm::TestCipher => test_cipher::encrypt_block(sched, block),
        }
    }

    /// The inverse transform of one block.
    pub open spec fn decrypt_block(self, sched: Seq<u8>, block: Seq<u8>) -> Seq<u8> {
        match self {
            Algorithm::TestCipher => test_cipher::decrypt_block(sched, block),
        }
    }

    /// Every algorithm has blocks of at least two bytes and a sound key spec.
    pub proof fn lemma_shape(self)
        ensures
            self.block_size() > 1,
            self.min_key_len() <= self.max_key_len(),
            self.key_len_step() > 0,
    {
    }

    /// The block transforms keep the block size, and the inverse undoes the
    /// forward transform under a schedule derived from a valid key.
    pub proof fn lemma_block_inverse(self, key: Seq<u8>, block: Seq<u8>)
        requires
            self.accepts_key_len(key.len()),
            block.len() == self.block_size(),
        ensures
            self.expand_key(key).len() == self.schedule_len(),
            self.encrypt_block(self.expand_key(key), block).len() == self.block_size(),
            self.decrypt_block(self.expand_key(key), block).len() == self.block_size(),
            self.decrypt_block(self.expand_key(key), self.encrypt_block(self.expand_key(key), block))
                == block,
    {
        match self {
            Algorithm::TestCipher => test_cipher::lemma_block_inverse(
                test_cipher::expand_key(key),
                block,
            ),
        }
    }

    /// Looks an algorithm up by identifier.
    pub fn lookup(id: &str) -> (r: Option<Algorithm>)
        ensures
            r == Algorithm::from_name(id@),
    {
        if same_chars(id, "TestCipher") {
            Some(Algorithm::TestCipher)
        } else {
            None
        }
    }

    /// The canonical name of the algorithm.
    pub fn canonical_name(&self) -> (r: String)
        ensures
            r@ == self.name(),
    {
        match self {
            Algorithm::TestCipher => String::from_str("TestCipher"),
        }
    }

    pub fn block_bytes(&self) -> (r: usize)
        ensures
            r == self.block_size(),
    {
        match self {
            Algorithm::TestCipher => test_cipher::BLOCK_BYTES,
        }
    }

    /// The key spec as (minimum, maximum, step).
    pub fn key_lengths(&self) -> (r: (usize, usize, usize))
        ensures
            r.0 == self.min_key_len(),
            r.1 == self.max_key_len(),
            r.2 == self.key_len_step(),
    {
        match self {
            Algorithm::TestCipher => (test_cipher::KEY_BYTES, test_cipher::KEY_BYTES, 1),
        }
    }

    pub fn schedule_bytes(&self) -> (r: usize)
        ensures
            r == self.schedule_len(),
    {
        match self {
            Algorithm::TestCipher => test_cipher::SCHEDULE_BYTES,
        }
    }

    /// Writes the schedule of `key` over `sched`, which holds a schedule's
    /// worth of bytes.
    pub fn install_schedule(&self, key: &[u8], sched: &mut Vec<u8>)
        requires
            self.accepts_key_len(key@.len()),
            old(sched)@.len() == self.schedule_len(),
        ensures
            final(sched)@ == self.expand_key(key@),
    {
        match self {
            Algorithm::TestCipher => test_cipher::schedule_into(key, sched),
        }
    }

    /// Encrypts, in place, the block of `buf` that starts at `start`.
    pub fn encrypt_block_at(&self, sched: &Vec<u8>, buf: &mut [u8], start: usize)
        requires
            sched@.len() == self.schedule_len(),
            start + self.block_size() <= old(buf)@.len(),
        ensures
            final(buf)@ == old(buf)@.subrange(0, start as int) + self.encrypt_block(
                sched@,
                old(buf)@.subrange(start as int, start + self.block_size()),
            ) + old(buf)@.subrange(start + self.block_size(), old(buf)@.len() as int),
    {
        match self {
            Algorithm::TestCipher => test_cipher::encrypt_block_at(sched, buf, start),
        }
    }

    /// Decrypts, in place, the block of `buf` that starts at `start`.
    pub fn decrypt_block_at(&self, sched: &Vec<u8>, buf: &mut [u8], start: usize)
        requires
            sched@.len() == self.schedule_len(),
            start + self.block_size() <= old(buf)@.len(),
        ensures
            final(buf)@ == old(buf)@.subrange(0, start as int) + self.decrypt_block(
                sched@,
                old(buf)@.subrange(start as int, start + self.block_size()),
            ) + old(buf)@.subrange(start + self.block_size(), old(buf)@.len() as int),
    {
        match self {
            Algorithm::TestCipher => test_cipher::decrypt_block_at(sched, buf, start),
        }
    }
}

} // verus!
