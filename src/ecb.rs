//! The ECB-style model of a block transform applied to a whole buffer: every
//! block is transformed on its own, with nothing carried between blocks.
use vstd::prelude::*;
use vstd::arithmetic::div_mod::{
    lemma_fundamental_div_mod, lemma_fundamental_div_mod_converse, lemma_mod_add_multiples_vanish,
    lemma_mod_pos_bound,
};

verus! {

/// The offset of the block that holds position `i`.
pub open spec fn block_start(i: int, bs: nat) -> int {
    (i / bs as int) * bs as int
}

/// `data` with `f` applied to each of its `bs`-byte blocks.
pub open spec fn ecb_map(bs: nat, f: spec_fn(Seq<u8>) -> Seq<u8>, data: Seq<u8>) -> Seq<u8> {
    Seq::new(
        data.len(),
        |i: int|
            f(data.subrange(block_start(i, bs), block_start(i, bs) + bs))[i - block_start(i, bs)],
    )
}

/// Position `i` lies in the block that starts at `k * bs`.
pub proof fn lemma_block_start(i: int, k: int, bs: nat)
    requires
        bs > 0,
        k * bs <= i < k * bs + bs,
    ensures
        block_start(i, bs) == k * bs,
{
    lemma_fundamental_div_mod_converse(i, bs as int, k, i - k * bs);
}

/// In a buffer made of whole blocks, the block of any position lies inside it.
pub proof fn lemma_block_inside(i: int, len: nat, bs: nat)
    requires
        bs > 0,
        0 <= i < len,
        len % bs == 0,
    ensures
        0 <= block_start(i, bs),
        block_start(i, bs) <= i < block_start(i, bs) + bs <= len,
{
    lemma_fundamental_div_mod(i, bs as int);
    lemma_fundamental_div_mod(len as int, bs as int);
    lemma_mod_pos_bound(i, bs as int);
    let q = i / bs as int;
    let l = len as int / bs as int;
    let r = i % bs as int;
    assert(0 <= q && q * bs <= i < q * bs + bs <= len) by (nonlinear_arith)
        requires
            i == bs * q + r,
            0 <= r < bs,
            len == bs * l,
            0 <= i < len,
            bs > 0,
    ;
    assert(0 <= q * bs) by (nonlinear_arith)
        requires
            0 <= q,
            bs > 0,
    ;
}

/// A block that starts on a block boundary inside a buffer of whole blocks
/// ends inside it, on the next boundary.
pub proof fn lemma_aligned_block(start: int, len: nat, bs: nat)
    requires
        bs > 0,
        0 <= start < len,
        len % bs == 0,
        start % bs as int == 0,
    ensures
        start + bs <= len,
        (start + bs) % bs as int == 0,
{
    lemma_block_inside(start, len, bs);
    lemma_fundamental_div_mod(start, bs as int);
    let q = start / bs as int;
    assert(q * bs == start) by (nonlinear_arith)
        requires
            start == bs * q + start % bs as int,
            start % bs as int == 0,
    ;
    lemma_mod_add_multiples_vanish(start, bs as int);
}

/// The transform of block `k` is the transform of that block alone.
pub proof fn lemma_ecb_block(bs: nat, f: spec_fn(Seq<u8>) -> Seq<u8>, data: Seq<u8>, start: int)
    requires
        bs > 0,
        0 <= start,
        start + bs <= data.len(),
        start % bs as int == 0,
    ensures
        forall|m: int|
            0 <= m < bs ==> #[trigger] ecb_map(bs, f, data)[start + m] == f(
                data.subrange(start, start + bs),
            )[m],
{
    lemma_fundamental_div_mod(start, bs as int);
    let k = start / bs as int;
    assert(k * bs == start) by (nonlinear_arith)
        requires
            start == bs * k + start % bs as int,
            start % bs as int == 0,
    ;
    assert forall|m: int| 0 <= m < bs implies #[trigger] ecb_map(bs, f, data)[start + m] == f(
        data.subrange(start, start + bs),
    )[m] by {
        lemma_block_start(start + m, k, bs);
    }
}

/// Transforming every block with `f` and then with `g` gives the data back
/// when `g` undoes `f` on every block.
pub proof fn lemma_ecb_inverse(
    bs: nat,
    f: spec_fn(Seq<u8>) -> Seq<u8>,
    g: spec_fn(Seq<u8>) -> Seq<u8>,
    data: Seq<u8>,
)
    requires
        bs > 0,
        data.len() % bs == 0,
        forall|b: Seq<u8>| b.len() == bs ==> (#[trigger] f(b)).len() == bs && g(f(b)) == b,
    ensures
        ecb_map(bs, g, ecb_map(bs, f, data)) == data,
{
    let e = ecb_map(bs, f, data);
    assert forall|i: int| 0 <= i < data.len() implies #[trigger] ecb_map(bs, g, e)[i] == data[i] by {
        lemma_block_inside(i, data.len(), bs);
        let st = block_start(i, bs);
        let blk = data.subrange(st, st + bs);
        lemma_fundamental_div_mod_converse(st, bs as int, i / bs as int, 0);
        lemma_ecb_block(bs, f, data, st);
        assert(f(blk).len() == bs && g(f(blk)) == blk);
        assert forall|m: int| 0 <= m < bs implies #[trigger] e.subrange(st, st + bs)[m] == f(blk)[m] by {
            assert(e[st + m] == f(blk)[m]);
        }
        assert(e.subrange(st, st + bs) =~= f(blk));
    }
    assert(ecb_map(bs, g, e) =~= data);
}

} // verus!
