//! The Feistel rounds: the round function `F`, the round key schedule, one
//! round transform, and the driver that runs a full encryption or decryption.

use vstd::prelude::*;
use crate::bytes::{bit_left, invert_bytes, shift_left_bytes, vec_invert, vec_xor, xor_bytes};
use crate::permute::{permute_word, permute_word_spec};

verus! {

/// The round function: XOR the half-block with the round key, complement,
/// then shift left. The shift discards the high bit of every byte, so `F`
/// is deliberately not invertible; the Feistel structure does not need it
/// to be.
pub open spec fn f_spec(right: Seq<u8>, key: Seq<u8>) -> Seq<u8> {
    shift_left_bytes(invert_bytes(xor_bytes(right, key)))
}

/// The round keys in encryption order: entry `r` is the base key permuted
/// with round index `r`, derived independently of the other entries.
pub open spec fn schedule_spec(key: Seq<u8>, rounds: u8) -> Seq<Seq<u8>> {
    Seq::new(rounds as nat, |r: int| permute_word_spec(key, r as u8))
}

/// The schedule in the order it is applied: encryption order, or that order
/// reversed for decryption. No entry's value differs between the two.
pub open spec fn directed_schedule(key: Seq<u8>, decrypt: bool, rounds: u8) -> Seq<Seq<u8>> {
    if decrypt {
        schedule_spec(key, rounds).reverse()
    } else {
        schedule_spec(key, rounds)
    }
}

/// One Feistel round: split the block into halves, make the old right half
/// the new left half, and mask the old left half with `F` of the old right
/// half to form the new right half.
pub open spec fn round_spec(block: Seq<u8>, round_key: Seq<u8>) -> Seq<u8> {
    let half = block.len() as int / 2;
    let left = block.subrange(0, half);
    let right = block.subrange(half, block.len() as int);
    right + xor_bytes(left, f_spec(right, round_key))
}

/// The block after every round key in `keys` has been applied in order.
pub open spec fn apply_rounds(block: Seq<u8>, keys: Seq<Seq<u8>>) -> Seq<u8>
    decreases keys.len(),
{
    if keys.len() == 0 {
        block
    } else {
        apply_rounds(round_spec(block, keys[0]), keys.drop_first())
    }
}

/// The block with its two halves exchanged: the final step of every cipher
/// invocation, undoing the dangling swap of the last round.
pub open spec fn final_swap_spec(block: Seq<u8>) -> Seq<u8> {
    let half = block.len() as int / 2;
    block.subrange(half, block.len() as int) + block.subrange(0, half)
}

/// The whole cipher: run every round key of the directed schedule over the
/// block, then swap the halves once.
pub open spec fn crypt_block_spec(block: Seq<u8>, key: Seq<u8>, decrypt: bool, rounds: u8) -> Seq<
    u8,
> {
    final_swap_spec(apply_rounds(block, directed_schedule(key, decrypt, rounds)))
}

/// Applying one more round key at the end of a schedule is one more round on
/// the block the earlier keys produced.
pub proof fn lemma_apply_rounds_snoc(block: Seq<u8>, keys: Seq<Seq<u8>>, k: Seq<u8>)
    ensures
        apply_rounds(block, keys.push(k)) == round_spec(apply_rounds(block, keys), k),
    decreases keys.len(),
{
    if keys.len() == 0 {
        assert(keys.push(k).drop_first() =~= Seq::<Seq<u8>>::empty());
        assert(keys.push(k)[0] == k);
        assert(apply_rounds(round_spec(block, k), Seq::<Seq<u8>>::empty()) == round_spec(
            block,
            k,
        ));
        assert(apply_rounds(block, keys) == block);
    } else {
        assert(keys.push(k).drop_first() =~= keys.drop_first().push(k));
        assert(keys.push(k)[0] == keys[0]);
        lemma_apply_rounds_snoc(round_spec(block, keys[0]), keys.drop_first(), k);
        assert(apply_rounds(block, keys.push(k)) == apply_rounds(
            round_spec(block, keys[0]),
            keys.drop_first().push(k),
        ));
        assert(apply_rounds(block, keys) == apply_rounds(
            round_spec(block, keys[0]),
            keys.drop_first(),
        ));
    }
}

/// The round function as executable code.
pub fn f(right: Vec<u8>, key: Vec<u8>) -> (res: Vec<u8>)
    ensures
        res@ == f_spec(right@, key@),
{
    bit_left(vec_invert(vec_xor(right, key)))
}

/// Copies the bytes of `v` at positions `start .. end` into a fresh vector.
pub fn sub_bytes(v: &Vec<u8>, start: usize, end: usize) -> (res: Vec<u8>)
    requires
        start <= end <= v@.len(),
    ensures
        res@ == v@.subrange(start as int, end as int),
{
    let mut res: Vec<u8> = Vec::new();
    let mut i = start;
    while i < end
        invariant
            start <= i <= end,
            end <= v@.len(),
            res@.len() == i - start,
            forall|j: int| 0 <= j < res@.len() ==> res@[j] == v@[start + j],
        decreases end - i,
    {
        res.push(v[i]);
        i = i + 1;
    }
    assert(res@ =~= v@.subrange(start as int, end as int));
    res
}

/// Derives the round key schedule: `rounds` permutations of the base key, in
/// encryption order, reversed when `decrypt` is set.
pub fn keys_gen(key: Vec<u8>, decrypt: bool, rounds: u8) -> (res: Vec<Vec<u8>>)
    requires
        key@.len() + 255 <= usize::MAX,
    ensures
        res@.len() == rounds as int,
        forall|r: int|
            0 <= r < rounds as int ==> #[trigger] res@[r]@ == directed_schedule(
                key@,
                decrypt,
                rounds,
            )[r],
{
    let mut forward: Vec<Vec<u8>> = Vec::new();
    let mut i: u8 = 0;
    while i < rounds
        invariant
            i <= rounds,
            key@.len() + 255 <= usize::MAX,
            forward@.len() == i as int,
            forall|r: int|
                0 <= r < i as int ==> #[trigger] forward@[r]@ == permute_word_spec(key@, r as u8),
        decreases rounds - i,
    {
        let word = sub_bytes(&key, 0, key.len());
        assert(word@ =~= key@);
        forward.push(permute_word(word, i));
        i = i + 1;
    }
    if decrypt {
        let ghost full = forward@;
        let mut rev: Vec<Vec<u8>> = Vec::new();
        while forward.len() > 0
            invariant
                forward@.len() + rev@.len() == full.len(),
                forward@ == full.subrange(0, forward@.len() as int),
                forall|r: int|
                    0 <= r < rev@.len() ==> #[trigger] rev@[r] == full[full.len() - 1 - r],
            decreases forward@.len(),
        {
            let k = forward.pop().unwrap();
            rev.push(k);
        }
        assert(forall|r: int|
            0 <= r < rounds as int ==> rev@[r]@ == directed_schedule(key@, decrypt, rounds)[r]);
        rev
    } else {
        forward
    }
}

/// One Feistel round as executable code.
pub fn crypt_round(block: Vec<u8>, round_key: Vec<u8>) -> (res: Vec<u8>)
    ensures
        res@ == round_spec(block@, round_key@),
{
    let half = block.len() / 2;
    let left = sub_bytes(&block, 0, half);
    let right = sub_bytes(&block, half, block.len());
    let mut new_right = vec_xor(left, f(right, round_key));
    let mut res = sub_bytes(&block, half, block.len());
    res.append(&mut new_right);
    res
}

/// Encrypts or decrypts one block: derive the schedule, run every round, and
/// finish with the half-swap.
pub fn crypt_block(block: Vec<u8>, key: Vec<u8>, decrypt: bool, rounds: u8) -> (res: Vec<u8>)
    requires
        key@.len() + 255 <= usize::MAX,
    ensures
        res@ == crypt_block_spec(block@, key@, decrypt, rounds),
{
    let ghost sched = directed_schedule(key@, decrypt, rounds);
    let keys = keys_gen(key, decrypt, rounds);
    let mut block = block;
    let ghost b0 = block@;
    let mut r: usize = 0;
    while r < keys.len()
        invariant
            r <= keys@.len(),
            keys@.len() == sched.len(),
            forall|j: int| 0 <= j < sched.len() ==> #[trigger] keys@[j]@ == sched[j],
            block@ == apply_rounds(b0, sched.subrange(0, r as int)),
        decreases keys@.len() - r,
    {
        let rk = sub_bytes(&keys[r], 0, keys[r].len());
        block = crypt_round(block, rk);
        proof {
            lemma_apply_rounds_snoc(b0, sched.subrange(0, r as int), sched[r as int]);
            assert(sched.subrange(0, r + 1) =~= sched.subrange(0, r as int).push(
                sched[r as int],
            ));
        }
        r = r + 1;
    }
    proof {
        assert(sched.subrange(0, sched.len() as int) =~= sched);
    }
    let half = block.len() / 2;
    let mut left = sub_bytes(&block, 0, half);
    let mut res = sub_bytes(&block, half, block.len());
    res.append(&mut left);
    res
}

} // verus!
