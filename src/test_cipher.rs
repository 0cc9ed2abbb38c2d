//! A minimal reference cipher with 16-byte blocks and 16-byte keys. It exists
//! to exercise the engine and offers no security: each output byte depends on
//! one input byte and two schedule bytes.
use vstd::prelude::*;

verus! {

pub const BLOCK_BYTES: usize = 16;

pub const KEY_BYTES: usize = 16;

/// Two schedule bytes per block position.
pub const SCHEDULE_BYTES: usize = 32;

/// `(a + b) mod 256`.
pub open spec fn add_u8(a: u8, b: u8) -> u8 {
    ((a as int + b as int) % 256) as u8
}

/// `(a - b) mod 256`.
pub open spec fn sub_u8(a: u8, b: u8) -> u8 {
    ((a as int - b as int + 256) % 256) as u8
}

/// The round constant of block position `j`.
pub open spec fn round_constant(j: int) -> u8 {
    ((j * 29 + 90) % 256) as u8
}

/// The schedule derived from a 16-byte key: the key itself, then the key
/// reversed with a round constant added to each byte.
pub open spec fn expand_key(key: Seq<u8>) -> Seq<u8> {
    Seq::new(
        SCHEDULE_BYTES as nat,
        |i: int|
            if i < 16 {
                key[i]
            } else {
                add_u8(key[31 - i], round_constant(i - 16))
            },
    )
}

pub open spec fn encrypt_byte(p: u8, k0: u8, k1: u8) -> u8 {
    add_u8(p ^ k0, k1)
}

pub open spec fn decrypt_byte(c: u8, k0: u8, k1: u8) -> u8 {
    sub_u8(c, k1) ^ k0
}

/// Output byte `j` is input byte `j + 1` (cyclically) masked with schedule
/// byte `j` and shifted by schedule byte `16 + j`.
pub open spec fn encrypt_block(sched: Seq<u8>, block: Seq<u8>) -> Seq<u8> {
    Seq::new(
        BLOCK_BYTES as nat,
        |j: int| encrypt_byte(block[(j + 1) % 16], sched[j], sched[16 + j]),
    )
}

/// The inverse of `encrypt_block`: input byte `i` comes back from output
/// byte `i - 1` (cyclically).
pub open spec fn decrypt_block(sched: Seq<u8>, block: Seq<u8>) -> Seq<u8> {
    Seq::new(
        BLOCK_BYTES as nat,
        |i: int| decrypt_byte(block[(i + 15) % 16], sched[(i + 15) % 16], sched[16 + (i + 15) % 16]),
    )
}

proof fn lemma_byte_inverse(p: u8, k0: u8, k1: u8)
    ensures
        decrypt_byte(encrypt_byte(p, k0, k1), k0, k1) == p,
{
    let x = p ^ k0;
    assert(sub_u8(add_u8(x, k1), k1) == x);
    assert((x ^ k0) == p) by (bit_vector)
        requires
            x == p ^ k0,
    ;
}

/// Decrypting an encrypted block under the same schedule gives the block back.
pub proof fn lemma_block_inverse(sched: Seq<u8>, block: Seq<u8>)
    requires
        sched.len() == SCHEDULE_BYTES,
        block.len() == BLOCK_BYTES,
    ensures
        decrypt_block(sched, encrypt_block(sched, block)) == block,
{
    let c = encrypt_block(sched, block);
    assert forall|i: int| 0 <= i < 16 implies #[trigger] decrypt_block(sched, c)[i] == block[i] by {
        let j = (i + 15) % 16;
        assert((j + 1) % 16 == i);
        lemma_byte_inverse(block[i], sched[j], sched[16 + j]);
    }
    assert(decrypt_block(sched, c) =~= block);
}

/// Writes the schedule of a 16-byte key over the 32 bytes of `sched`.
pub fn schedule_into(key: &[u8], sched: &mut Vec<u8>)
    requires
        key@.len() == KEY_BYTES,
        old(sched)@.len() == SCHEDULE_BYTES,
    ensures
        final(sched)@ == expand_key(key@),
{
    let mut i: usize = 0;
    while i < SCHEDULE_BYTES
        invariant
            key@.len() == KEY_BYTES,
            i <= SCHEDULE_BYTES,
            sched@.len() == SCHEDULE_BYTES,
            forall|m: int| 0 <= m < i ==> sched@[m] == #[trigger] expand_key(key@)[m],
        decreases SCHEDULE_BYTES - i,
    {
        let b: u8 = if i < 16 {
            key[i]
        } else {
            let rc: u8 = (((i - 16) * 29 + 90) % 256) as u8;
            key[31 - i].wrapping_add(rc)
        };
        sched.set(i, b);
        i = i + 1;
    }
    assert(sched@ =~= expand_key(key@));
}

/// Copies the block of `buf` that starts at `start`.
fn copy_block(buf: &[u8], start: usize) -> (r: Vec<u8>)
    requires
        start + BLOCK_BYTES <= buf@.len(),
    ensures
        r@ == buf@.subrange(start as int, start + BLOCK_BYTES),
{
    let len: usize = buf.len();
    let mut r: Vec<u8> = Vec::with_capacity(BLOCK_BYTES);
    let mut j: usize = 0;
    while j < BLOCK_BYTES
        invariant
            start + BLOCK_BYTES <= buf@.len(),
            buf@.len() == len,
            j <= BLOCK_BYTES,
            r@ == buf@.subrange(start as int, start + j),
        decreases BLOCK_BYTES - j,
    {
        r.push(buf[start + j]);
        j = j + 1;
        assert(r@ =~= buf@.subrange(start as int, start + j));
    }
    r
}

/// Encrypts, in place, the block of `buf` that starts at `start`.
pub fn encrypt_block_at(sched: &Vec<u8>, buf: &mut [u8], start: usize)
    requires
        sched@.len() == SCHEDULE_BYTES,
        start + BLOCK_BYTES <= old(buf)@.len(),
    ensures
        final(buf)@ == old(buf)@.subrange(0, start as int) + encrypt_block(
            sched@,
            old(buf)@.subrange(start as int, start + BLOCK_BYTES),
        ) + old(buf)@.subrange(start + BLOCK_BYTES, old(buf)@.len() as int),
{
    let block = copy_block(buf, start);
    let len: usize = buf.len();
    let ghost old_buf = buf@;
    let mut j: usize = 0;
    while j < BLOCK_BYTES
        invariant
            sched@.len() == SCHEDULE_BYTES,
            start + BLOCK_BYTES <= old_buf.len(),
            block@ == old_buf.subrange(start as int, start + BLOCK_BYTES),
            buf@.len() == old_buf.len(),
            len == old_buf.len(),
            j <= BLOCK_BYTES,
            forall|i: int|
                0 <= i < buf@.len() && !(start <= i < start + j) ==> #[trigger] buf@[i]
                    == old_buf[i],
            forall|m: int|
                0 <= m < j ==> #[trigger] buf@[start + m] == encrypt_block(sched@, block@)[m],
        decreases BLOCK_BYTES - j,
    {
        let src: usize = (j + 1) % BLOCK_BYTES;
        let x: u8 = block[src] ^ sched[j];
        buf[start + j] = x.wrapping_add(sched[16 + j]);
        j = j + 1;
    }
    assert forall|n: int| start <= n < start + BLOCK_BYTES implies buf@[n] == encrypt_block(
        sched@,
        block@,
    )[n - start] by {
        assert(buf@[start + (n - start)] == encrypt_block(sched@, block@)[n - start]);
    }
    assert(buf@ =~= old_buf.subrange(0, start as int) + encrypt_block(sched@, block@)
        + old_buf.subrange(start + BLOCK_BYTES, old_buf.len() as int));
}

/// Decrypts, in place, the block of `buf` that starts at `start`.
pub fn decrypt_block_at(sched: &Vec<u8>, buf: &mut [u8], start: usize)
    requires
        sched@.len() == SCHEDULE_BYTES,
        start + BLOCK_BYTES <= old(buf)@.len(),
    ensures
        final(buf)@ == old(buf)@.subrange(0, start as int) + decrypt_block(
            sched@,
            old(buf)@.subrange(start as int, start + BLOCK_BYTES),
        ) + old(buf)@.subrange(start + BLOCK_BYTES, old(buf)@.len() as int),
{
    let block = copy_block(buf, start);
    let len: usize = buf.len();
    let ghost old_buf = buf@;
    let mut i: usize = 0;
    while i < BLOCK_BYTES
        invariant
            sched@.len() == SCHEDULE_BYTES,
            start + BLOCK_BYTES <= old_buf.len(),
            block@ == old_buf.subrange(start as int, start + BLOCK_BYTES),
            buf@.len() == old_buf.len(),
            len == old_buf.len(),
            i <= BLOCK_BYTES,
            forall|n: int|
                0 <= n < buf@.len() && !(start <= n < start + i) ==> #[trigger] buf@[n]
                    == old_buf[n],
            forall|m: int|
                0 <= m < i ==> #[trigger] buf@[start + m] == decrypt_block(sched@, block@)[m],
        decreases BLOCK_BYTES - i,
    {
        let j: usize = (i + 15) % BLOCK_BYTES;
        let x: u8 = block[j].wrapping_sub(sched[16 + j]);
        buf[start + i] = x ^ sched[j];
        i = i + 1;
    }
    assert forall|n: int| start <= n < start + BLOCK_BYTES implies buf@[n] == decrypt_block(
        sched@,
        block@,
    )[n - start] by {
        assert(buf@[start + (n - start)] == decrypt_block(sched@, block@)[n - start]);
    }
    assert(buf@ =~= old_buf.subrange(0, start as int) + decrypt_block(sched@, block@)
        + old_buf.subrange(start + BLOCK_BYTES, old_buf.len() as int));
}

} // verus!
