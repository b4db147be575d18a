use feistel::{bit_left, crypt_block, crypt_round, f, keys_gen, permute_word, sub_bytes, vec_invert, vec_xor};

#[test]
fn xor_elementwise() {
    assert_eq!(vec_xor(vec![0x0F, 0xF0], vec![0xFF, 0xFF]), vec![0xF0, 0x0F]);
}

#[test]
fn xor_truncates_to_shorter_input() {
    assert_eq!(vec_xor(vec![1, 2, 3], vec![0xFF]), vec![0xFE]);
    assert_eq!(vec_xor(vec![0xFF], vec![1, 2, 3]), vec![0xFE]);
    assert_eq!(vec_xor(vec![], vec![1, 2, 3]), Vec::<u8>::new());
}

#[test]
fn invert_elementwise() {
    assert_eq!(vec_invert(vec![0x00, 0xFF, 0x0F]), vec![0xFF, 0x00, 0xF0]);
}

#[test]
fn shift_left_drops_high_bit() {
    assert_eq!(bit_left(vec![0x01, 0x80, 0xFF]), vec![0x02, 0x00, 0xFE]);
}

#[test]
fn f_exact_value() {
    // xor: 0x01 ^ 0x03 == 0x02; complement: 0xFD; shift: 0xFA
    assert_eq!(f(vec![0x01], vec![0x03]), vec![0xFA]);
}

#[test]
fn f_is_lossy() {
    // 0x00 and 0x80 differ only in the high bit, which the shift discards.
    assert_eq!(f(vec![0x00], vec![0x00]), f(vec![0x80], vec![0x00]));
}

#[test]
fn permute_identity_at_round_zero() {
    assert_eq!(permute_word(vec![9, 8, 7, 6, 5], 0), vec![9, 8, 7, 6, 5]);
}

#[test]
fn permute_is_a_cascade_not_a_rotation() {
    // i=0: swap(0,1) -> [2,1,3,4]; i=1: swap(1,2) -> [2,3,1,4];
    // i=2: swap(2,3) -> [2,3,4,1]; i=3: swap(3,0) -> [1,3,4,2].
    assert_eq!(permute_word(vec![1, 2, 3, 4], 1), vec![1, 3, 4, 2]);
    // A one-step rotation would have given [2, 3, 4, 1].
}

#[test]
fn permute_of_empty_word() {
    assert_eq!(permute_word(Vec::new(), 3), Vec::<u8>::new());
}

#[test]
fn schedule_zero_rounds_is_empty() {
    assert_eq!(keys_gen(vec![1, 2, 3], false, 0), Vec::<Vec<u8>>::new());
    assert_eq!(keys_gen(vec![1, 2, 3], true, 0), Vec::<Vec<u8>>::new());
}

#[test]
fn schedule_first_entry_is_the_base_key() {
    let keys = keys_gen(vec![4, 5, 6, 7], false, 3);
    assert_eq!(keys[0], vec![4, 5, 6, 7]);
}

#[test]
fn schedule_reversal() {
    let key = vec![10, 20, 30, 40];
    let rounds = 7;
    let forward = keys_gen(key.clone(), false, rounds);
    let backward = keys_gen(key.clone(), true, rounds);
    let mut reversed = forward.clone();
    reversed.reverse();
    assert_eq!(backward, reversed);
    for r in 0..rounds as usize {
        assert_eq!(backward[r], forward[rounds as usize - 1 - r]);
    }
}

#[test]
fn round_exact_value() {
    // left = [1], right = [2]; F([2], [3]) = ((2 ^ 3) complemented) << 1 = 0xFC;
    // new right = 1 ^ 0xFC = 0xFD.
    assert_eq!(crypt_round(vec![1, 2], vec![3]), vec![2, 0xFD]);
}

#[test]
fn zero_rounds_swaps_the_halves() {
    assert_eq!(
        crypt_block(vec![1, 2, 3, 4, 5, 6], vec![7, 8, 9], false, 0),
        vec![4, 5, 6, 1, 2, 3]
    );
}

#[test]
fn round_trip_small_block() {
    let block = vec![0x12, 0x34, 0x56, 0x78];
    let key = vec![0xAB, 0xCD];
    for rounds in [0u8, 1, 2, 5, 16, 255] {
        let encrypted = crypt_block(block.clone(), key.clone(), false, rounds);
        let decrypted = crypt_block(encrypted, key.clone(), true, rounds);
        assert_eq!(decrypted, block);
    }
}

#[test]
fn round_trip_with_lossy_mixing() {
    // High bits set everywhere, so every shift inside F discards information;
    // the round trip must still hold.
    let block = vec![0x80, 0xFF, 0x81, 0xC3];
    let key = vec![0xAA, 0x55];
    let encrypted = crypt_block(block.clone(), key.clone(), false, 4);
    let decrypted = crypt_block(encrypted, key.clone(), true, 4);
    assert_eq!(decrypted, block);
}

#[test]
fn round_trip_budapesh() {
    let block: Vec<u8> = "budapesh".as_bytes().to_vec();
    let key: Vec<u8> = "rust".as_bytes().to_vec();
    let rounds: u8 = 10;
    let encrypted = crypt_block(block.clone(), key.clone(), false, rounds);
    let decrypted = crypt_block(encrypted.clone(), key.clone(), true, rounds);
    assert_eq!(decrypted, block);
    assert_ne!(encrypted, block);
}

#[test]
fn empty_block_stays_empty() {
    assert_eq!(crypt_block(Vec::new(), vec![1, 2], false, 5), Vec::<u8>::new());
}

#[test]
fn odd_block_truncates() {
    // half = 1: left = [1], right = [2, 3]. F truncates to the key's length:
    // xor([2, 3], [9]) = [0x0B], complement 0xF4, shift 0xE8; the new right
    // half is xor([1], [0xE8]) = [0xE9]. After the round: [2, 3, 0xE9];
    // the final swap on half = 1 gives [3, 0xE9, 2].
    assert_eq!(crypt_block(vec![1, 2, 3], vec![9], false, 1), vec![3, 0xE9, 2]);
}

#[test]
fn sub_bytes_copies_a_range() {
    let v = vec![10, 11, 12, 13, 14];
    assert_eq!(sub_bytes(&v, 1, 4), vec![11, 12, 13]);
    assert_eq!(sub_bytes(&v, 2, 2), Vec::<u8>::new());
}
