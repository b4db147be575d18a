//! The word permutation that derives one round key from the base key.
//!
//! For each position `i` in increasing order the element at `i` is swapped
//! with the element at `(i + round_index) mod len`. Each swap sees the effect
//! of the earlier ones, so the result is a cascade of swaps, not a rotation.

use vstd::prelude::*;

verus! {

/// `s` with the elements at positions `i` and `j` exchanged.
pub open spec fn swap_at(s: Seq<u8>, i: int, j: int) -> Seq<u8>
    recommends
        0 <= i < s.len(),
        0 <= j < s.len(),
{
    s.update(i, s[j]).update(j, s[i])
}

/// The word after the swaps for positions `0 .. n` have been applied in
/// increasing order, each on the result of the previous one.
pub open spec fn permute_prefix(w: Seq<u8>, key: u8, n: int) -> Seq<u8>
    decreases n,
{
    if n <= 0 || n > w.len() {
        w
    } else {
        swap_at(permute_prefix(w, key, n - 1), n - 1, (n - 1 + key as int) % (w.len() as int))
    }
}

/// The full cascading-swap permutation of `w` for round index `key`.
pub open spec fn permute_word_spec(w: Seq<u8>, key: u8) -> Seq<u8> {
    permute_prefix(w, key, w.len() as int)
}

/// The permutation only rearranges elements, so every prefix of swaps keeps
/// the length.
pub proof fn lemma_permute_prefix_len(w: Seq<u8>, key: u8, n: int)
    ensures
        permute_prefix(w, key, n).len() == w.len(),
    decreases n,
{
    if !(n <= 0 || n > w.len()) {
        lemma_permute_prefix_len(w, key, n - 1);
    }
}

/// The permuted word has the same length as the input word.
pub proof fn lemma_permute_word_len(w: Seq<u8>, key: u8)
    ensures
        permute_word_spec(w, key).len() == w.len(),
{
    lemma_permute_prefix_len(w, key, w.len() as int);
}

/// Permutes `word` by the cascading swaps for round index `key`.
pub fn permute_word(word: Vec<u8>, key: u8) -> (res: Vec<u8>)
    requires
        word@.len() + 255 <= usize::MAX,
    ensures
        res@ == permute_word_spec(word@, key),
{
    let mut word = word;
    let ghost orig = word@;
    let len = word.len();
    let mut i: usize = 0;
    while i < len
        invariant
            i <= len,
            len == orig.len(),
            len + 255 <= usize::MAX,
            word@ == permute_prefix(orig, key, i as int),
        decreases len - i,
    {
        proof {
            lemma_permute_prefix_len(orig, key, i as int);
        }
        let new_index = (i + key as usize) % len;
        let a = word[i];
        let b = word[new_index];
        word[i] = b;
        word[new_index] = a;
        assert(word@ == permute_prefix(orig, key, i + 1));
        i = i + 1;
    }
    word
}

} // verus!
