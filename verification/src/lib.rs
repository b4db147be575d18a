//! A didactic Feistel block cipher.
//!
//! A block of even length is split into two halves; each round replaces the
//! block `[left, right]` with `[right, left XOR F(right, round_key)]`, where
//! `F` is a lossy mixing function. Because XOR is its own inverse, running the
//! same rounds with the round keys in reverse order (plus a final half-swap on
//! both sides) recovers the plaintext, whether or not `F` is invertible.

pub mod bytes;
pub mod cipher;
pub mod laws;
pub mod permute;

pub use bytes::{bit_left, vec_invert, vec_xor};
pub use cipher::{crypt_block, crypt_round, f, keys_gen, sub_bytes};
pub use permute::permute_word;
