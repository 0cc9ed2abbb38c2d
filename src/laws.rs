//! Properties of the engine that relate several of its operations, stated
//! over the state model that the operations' contracts use.
use vstd::prelude::*;

use crate::block::CipherState;
use crate::ecb::lemma_ecb_inverse;
use crate::error::Error;

verus! {

/// The block size is positive and is a property of the algorithm alone:
/// setting a key or clearing it never changes it.
pub proof fn lemma_block_size_fixed(m: CipherState, key: Seq<u8>)
    ensures
        m.block_size() > 0,
        m.after_set_key(key).block_size() == m.block_size(),
        m.after_clear().block_size() == m.block_size(),
{
    m.algo.lemma_shape();
}

/// `set_key` succeeds exactly on the key lengths that the key spec accepts.
/// On any other length it fails with `InvalidKeyLength` and leaves the
/// engine as it was: an engine without a key still refuses to encrypt with
/// `NoKeySet`, and one with a key keeps it.
pub proof fn lemma_key_length_rule(m: CipherState, key: Seq<u8>, data: Seq<u8>)
    ensures
        m.set_key_result(key) is Ok <==> m.algo.accepts_key_len(key.len()),
        !m.algo.accepts_key_len(key.len()) ==> m.set_key_result(key) == Err::<(), Error>(
            Error::InvalidKeyLength,
        ) && m.after_set_key(key) == m,
        !m.algo.accepts_key_len(key.len()) && m.schedule is None && data.len() % m.block_size()
            == 0 ==> m.after_set_key(key).encrypt(data) == Err::<Seq<u8>, Error>(Error::NoKeySet),
        m.algo.accepts_key_len(key.len()) ==> m.after_set_key(key).schedule == Some(
            m.algo.expand_key(key),
        ),
{
}

/// Decrypting what was encrypted under the same valid key gives the
/// plaintext back, for every plaintext made of whole blocks.
pub proof fn lemma_round_trip(m: CipherState, key: Seq<u8>, plain: Seq<u8>)
    requires
        m.algo.accepts_key_len(key.len()),
        plain.len() % m.block_size() == 0,
    ensures
        m.after_set_key(key).encrypt(plain) is Ok,
        m.after_set_key(key).decrypt(m.after_set_key(key).encrypt(plain)->Ok_0) == Ok::<
            Seq<u8>,
            Error,
        >(plain),
{
    let k = m.after_set_key(key);
    let s = k.schedule->Some_0;
    let bs = k.block_size();
    let f = |b: Seq<u8>| k.algo.encrypt_block(s, b);
    let g = |b: Seq<u8>| k.algo.decrypt_block(s, b);
    m.algo.lemma_shape();
    assert forall|b: Seq<u8>| b.len() == bs implies (#[trigger] f(b)).len() == bs && g(f(b)) == b by {
        k.algo.lemma_block_inverse(key, b);
    }
    lemma_ecb_inverse(bs, f, g, plain);
}

/// Clearing twice is the same as clearing once: no key either way.
pub proof fn lemma_clear_idempotent(m: CipherState)
    ensures
        m.after_clear().after_clear() == m.after_clear(),
        m.after_clear().schedule is None,
{
}

/// An empty buffer encrypts, as zero blocks, to an empty buffer once a key
/// is set; a buffer one byte short of a block is refused with
/// `InvalidInputLength`, with or without a key.
pub proof fn lemma_buffer_boundaries(m: CipherState, short: Seq<u8>)
    requires
        short.len() + 1 == m.block_size(),
    ensures
        m.schedule is Some ==> m.encrypt(Seq::empty()) == Ok::<Seq<u8>, Error>(Seq::empty()),
        m.encrypt(short) == Err::<Seq<u8>, Error>(Error::InvalidInputLength),
        m.decrypt(short) == Err::<Seq<u8>, Error>(Error::InvalidInputLength),
{
    m.algo.lemma_shape();
    if m.schedule is Some {
        assert(m.encrypt(Seq::empty())->Ok_0 =~= Seq::<u8>::empty());
    }
}

} // verus!
