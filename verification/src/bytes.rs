//! Elementwise operations on byte sequences: XOR, bitwise complement, and a
//! logical left shift by one bit. These are the leaves of the cipher.

use vstd::prelude::*;

verus! {

/// Elementwise XOR, truncated to the shorter of the two inputs.
pub open spec fn xor_bytes(a: Seq<u8>, b: Seq<u8>) -> Seq<u8> {
    Seq::new(if a.len() <= b.len() { a.len() } else { b.len() }, |i: int| a[i] ^ b[i])
}

/// Elementwise bitwise complement.
pub open spec fn invert_bytes(a: Seq<u8>) -> Seq<u8> {
    Seq::new(a.len(), |i: int| !a[i])
}

/// Elementwise logical left shift by one bit; the high bit is discarded and
/// the low bit is zero-filled, so this loses information.
pub open spec fn shift_left_bytes(a: Seq<u8>) -> Seq<u8> {
    Seq::new(a.len(), |i: int| a[i] << 1)
}

/// XOR of two byte vectors, elementwise over the shorter length; elements of
/// the longer input beyond that length are dropped, not an error.
pub fn vec_xor(vec1: Vec<u8>, vec2: Vec<u8>) -> (res: Vec<u8>)
    ensures
        res@ == xor_bytes(vec1@, vec2@),
{
    let n: usize = if vec1.len() <= vec2.len() { vec1.len() } else { vec2.len() };
    let mut res: Vec<u8> = Vec::new();
    let mut i: usize = 0;
    while i < n
        invariant
            i <= n,
            n <= vec1@.len(),
            n <= vec2@.len(),
            res@.len() == i,
            forall|j: int| 0 <= j < i ==> res@[j] == vec1@[j] ^ vec2@[j],
        decreases n - i,
    {
        res.push(vec1[i] ^ vec2[i]);
        i = i + 1;
    }
    assert(res@ =~= xor_bytes(vec1@, vec2@));
    res
}

/// Bitwise complement of every byte.
pub fn vec_invert(vect: Vec<u8>) -> (res: Vec<u8>)
    ensures
        res@ == invert_bytes(vect@),
{
    let mut res: Vec<u8> = Vec::new();
    let mut i: usize = 0;
    while i < vect.len()
        invariant
            i <= vect@.len(),
            res@.len() == i,
            forall|j: int| 0 <= j < i ==> res@[j] == !vect@[j],
        decreases vect@.len() - i,
    {
        res.push(!vect[i]);
        i = i + 1;
    }
    assert(res@ =~= invert_bytes(vect@));
    res
}

/// Logical left shift of every byte by one bit.
pub fn bit_left(vect: Vec<u8>) -> (res: Vec<u8>)
    ensures
        res@ == shift_left_bytes(vect@),
{
    let mut res: Vec<u8> = Vec::new();
    let mut i: usize = 0;
    while i < vect.len()
        invariant
            i <= vect@.len(),
            res@.len() == i,
            forall|j: int| 0 <= j < i ==> res@[j] == vect@[j] << 1,
        decreases vect@.len() - i,
    {
        res.push(vect[i] << 1);
        i = i + 1;
    }
    assert(res@ =~= shift_left_bytes(vect@));
    res
}

} // verus!
