//! The cipher's laws, stated over the specification functions and proved
//! once for all inputs: the Feistel round trip, the behaviour of an empty
//! schedule, the identity permutation, and the schedule reversal.

use vstd::prelude::*;
use vstd::arithmetic::div_mod::lemma_small_mod;
use crate::bytes::xor_bytes;
use crate::cipher::{
    apply_rounds, crypt_block_spec, directed_schedule, f_spec, final_swap_spec,
    lemma_apply_rounds_snoc, round_spec, schedule_spec,
};
use crate::permute::{lemma_permute_word_len, permute_prefix, permute_word_spec, swap_at};

verus! {

/// Masking with the same bytes twice gives back the original bytes: XOR is
/// its own inverse.
pub proof fn lemma_xor_cancel(a: Seq<u8>, m: Seq<u8>)
    requires
        a.len() == m.len(),
    ensures
        xor_bytes(xor_bytes(a, m), m) == a,
{
    assert forall|i: int| 0 <= i < a.len() implies xor_bytes(xor_bytes(a, m), m)[i] == a[i] by {
        let x = a[i];
        let y = m[i];
        assert((x ^ y) ^ y == x) by (bit_vector);
    }
    assert(xor_bytes(xor_bytes(a, m), m) =~= a);
}

/// A round neither grows nor shrinks the block when the round key is half
/// the block's length.
pub proof fn lemma_round_len(b: Seq<u8>, k: Seq<u8>)
    requires
        k.len() == b.len() / 2,
    ensures
        round_spec(b, k).len() == b.len(),
{
}

/// One round undoes itself: reapplying a round to the half-swapped output of
/// that round gives the half-swapped input, whether or not `F` loses
/// information, because the mask `F(right, key)` is the same both times and
/// XOR cancels it.
pub proof fn lemma_round_undo(x: Seq<u8>, k: Seq<u8>)
    requires
        x.len() % 2 == 0,
        k.len() == x.len() / 2,
    ensures
        round_spec(final_swap_spec(round_spec(x, k)), k) == final_swap_spec(x),
{
    let len = x.len() as int;
    let half = len / 2;
    let l = x.subrange(0, half);
    let r = x.subrange(half, len);
    let fr = f_spec(r, k);
    let y = round_spec(x, k);
    assert(y.len() == len);
    let z = final_swap_spec(y);
    assert(y.subrange(0, half) =~= r);
    assert(y.subrange(half, len) =~= xor_bytes(l, fr));
    assert(z.subrange(0, half) =~= xor_bytes(l, fr));
    assert(z.subrange(half, len) =~= r);
    lemma_xor_cancel(l, fr);
    assert(round_spec(z, k) =~= final_swap_spec(x));
}

/// Running a schedule forward and then backward over the block, with a
/// half-swap between the two passes, returns the half-swapped original
/// block.
pub proof fn lemma_feistel_undo(b: Seq<u8>, s: Seq<Seq<u8>>)
    requires
        b.len() % 2 == 0,
        forall|i: int| 0 <= i < s.len() ==> #[trigger] s[i].len() == b.len() / 2,
    ensures
        apply_rounds(final_swap_spec(apply_rounds(b, s)), s.reverse()) == final_swap_spec(b),
    decreases s.len(),
{
    if s.len() == 0 {
        assert(s.reverse() =~= Seq::<Seq<u8>>::empty());
        assert(apply_rounds(b, s) == b);
        assert(apply_rounds(final_swap_spec(b), s.reverse()) == final_swap_spec(b));
    } else {
        let k0 = s[0];
        let rest = s.drop_first();
        let b1 = round_spec(b, k0);
        lemma_round_len(b, k0);
        assert(apply_rounds(b, s) == apply_rounds(b1, rest));
        assert forall|i: int| 0 <= i < rest.len() implies #[trigger] rest[i].len() == b1.len()
            / 2 by {
            assert(rest[i] == s[i + 1]);
        }
        lemma_feistel_undo(b1, rest);
        assert(s.reverse() =~= rest.reverse().push(k0));
        lemma_apply_rounds_snoc(final_swap_spec(apply_rounds(b1, rest)), rest.reverse(), k0);
        lemma_round_undo(b, k0);
    }
}

/// Swapping the halves of an even-length block twice is the identity.
pub proof fn lemma_final_swap_involutive(b: Seq<u8>)
    requires
        b.len() % 2 == 0,
    ensures
        final_swap_spec(final_swap_spec(b)) == b,
{
    assert(final_swap_spec(final_swap_spec(b)) =~= b);
}

/// Round-trip identity: decrypting an encryption returns the original block,
/// for every block of even length, every key of half the block's length, and
/// every round count. Nothing is required of `F` beyond determinism; in
/// particular it need not be invertible.
pub proof fn lemma_round_trip(block: Seq<u8>, key: Seq<u8>, rounds: u8)
    requires
        block.len() % 2 == 0,
        key.len() == block.len() / 2,
    ensures
        crypt_block_spec(crypt_block_spec(block, key, false, rounds), key, true, rounds) == block,
{
    let sched = schedule_spec(key, rounds);
    assert forall|i: int| 0 <= i < sched.len() implies #[trigger] sched[i].len() == block.len()
        / 2 by {
        lemma_permute_word_len(key, i as u8);
    }
    lemma_feistel_undo(block, sched);
    lemma_final_swap_involutive(block);
}

/// With zero rounds the schedule is empty, so the cipher only swaps the two
/// halves of the block.
pub proof fn lemma_zero_rounds(block: Seq<u8>, key: Seq<u8>)
    ensures
        crypt_block_spec(block, key, false, 0) == block.subrange(
            block.len() as int / 2,
            block.len() as int,
        ) + block.subrange(0, block.len() as int / 2),
{
    assert(directed_schedule(key, false, 0) =~= Seq::<Seq<u8>>::empty());
    assert(apply_rounds(block, Seq::<Seq<u8>>::empty()) == block);
}

/// Every swap of the cascade at round index zero exchanges a position with
/// itself, so each prefix of the cascade leaves the word unchanged.
proof fn lemma_permute_prefix_zero(w: Seq<u8>, n: int)
    requires
        0 <= n <= w.len(),
    ensures
        permute_prefix(w, 0, n) == w,
    decreases n,
{
    if n > 0 {
        lemma_permute_prefix_zero(w, n - 1);
        lemma_small_mod((n - 1) as nat, w.len());
        assert(swap_at(w, n - 1, n - 1) =~= w);
    }
}

/// Permutation identity at round index zero: the derived round key is the
/// base key itself.
pub proof fn lemma_permute_identity(key: Seq<u8>)
    ensures
        permute_word_spec(key, 0) == key,
{
    lemma_permute_prefix_zero(key, key.len() as int);
}

/// Schedule reversal: the decrypt-direction schedule is the encrypt-direction
/// schedule with the element order reversed, and no element's value differs
/// between the two.
pub proof fn lemma_schedule_reversal(key: Seq<u8>, rounds: u8)
    ensures
        directed_schedule(key, true, rounds) == directed_schedule(key, false, rounds).reverse(),
        forall|r: int|
            0 <= r < rounds as int ==> directed_schedule(key, true, rounds)[r]
                == directed_schedule(key, false, rounds)[rounds - 1 - r],
{
    assert forall|r: int| 0 <= r < rounds as int implies directed_schedule(key, true, rounds)[r]
        == directed_schedule(key, false, rounds)[rounds - 1 - r] by {
        assert(schedule_spec(key, rounds).reverse()[r] == schedule_spec(key, rounds)[rounds - 1
            - r]);
    }
}

} // verus!
