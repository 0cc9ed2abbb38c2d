use block_cipher::{BlockCipher, Error, KeySpec};

const ZERO_KEY_ZERO_BLOCK: [u8; 16] = [
    90, 119, 148, 177, 206, 235, 8, 37, 66, 95, 124, 153, 182, 211, 240, 13,
];

fn counting_key() -> Vec<u8> {
    (0u8..16).collect()
}

fn stepped_block() -> Vec<u8> {
    (0u8..16).map(|i| i * 0x11).collect()
}

fn keyed_cipher(key: &[u8]) -> BlockCipher {
    let mut cipher = BlockCipher::new("TestCipher").unwrap();
    assert_eq!(cipher.set_key(key), Ok(()));
    cipher
}

#[test]
fn new_known_and_unknown_algorithms() {
    assert!(BlockCipher::new("TestCipher").is_ok());
    assert_eq!(BlockCipher::new("SuperCipher9000").err(), Some(Error::UnknownAlgorithm));
    assert_eq!(BlockCipher::new("").err(), Some(Error::UnknownAlgorithm));
    assert_eq!(BlockCipher::new("testcipher").err(), Some(Error::UnknownAlgorithm));
    assert_eq!(BlockCipher::new("TestCipher ").err(), Some(Error::UnknownAlgorithm));
}

#[test]
fn block_size_is_fixed_and_positive() {
    let mut cipher = BlockCipher::new("TestCipher").unwrap();
    assert_eq!(cipher.block_size(), Ok(16));
    assert_eq!(cipher.block_size(), Ok(16));
    cipher.set_key(&[7u8; 16]).unwrap();
    assert_eq!(cipher.block_size(), Ok(16));
    cipher.clear().unwrap();
    assert_eq!(cipher.block_size(), Ok(16));
}

#[test]
fn algo_name_is_canonical() {
    let cipher = BlockCipher::new("TestCipher").unwrap();
    assert_eq!(cipher.algo_name().unwrap(), "TestCipher");
}

#[test]
fn key_spec_of_test_cipher() {
    let cipher = BlockCipher::new("TestCipher").unwrap();
    let spec = cipher.key_spec().unwrap();
    assert_eq!(spec.minimum_keylength(), 16);
    assert_eq!(spec.maximum_keylength(), 16);
    assert_eq!(spec.keylength_multiple(), 1);
    assert!(spec.is_valid_keylength(16));
    assert!(!spec.is_valid_keylength(0));
    assert!(!spec.is_valid_keylength(15));
    assert!(!spec.is_valid_keylength(17));
    assert!(!spec.is_valid_keylength(32));
}

#[test]
fn key_spec_rejects_bad_descriptions() {
    assert_eq!(KeySpec::new(32, 16, 1), Err(Error::InvalidKeySpec));
    assert_eq!(KeySpec::new(16, 32, 0), Err(Error::InvalidKeySpec));
    assert!(KeySpec::new(16, 16, 1).is_ok());
}

#[test]
fn key_spec_steps_from_minimum() {
    let spec = KeySpec::new(16, 32, 8).unwrap();
    assert!(spec.is_valid_keylength(16));
    assert!(spec.is_valid_keylength(24));
    assert!(spec.is_valid_keylength(32));
    assert!(!spec.is_valid_keylength(8));
    assert!(!spec.is_valid_keylength(20));
    assert!(!spec.is_valid_keylength(40));
    let odd = KeySpec::new(5, 11, 3).unwrap();
    assert!(odd.is_valid_keylength(5));
    assert!(odd.is_valid_keylength(8));
    assert!(odd.is_valid_keylength(11));
    assert!(!odd.is_valid_keylength(6));
    assert!(!odd.is_valid_keylength(9));
}

#[test]
fn set_key_accepts_only_valid_lengths() {
    let mut cipher = BlockCipher::new("TestCipher").unwrap();
    for len in [0usize, 1, 8, 15, 17, 24, 32, 64] {
        assert_eq!(cipher.set_key(&vec![0u8; len]), Err(Error::InvalidKeyLength));
        assert_eq!(cipher.encrypt_blocks(&[0u8; 16]), Err(Error::NoKeySet));
    }
    assert_eq!(cipher.set_key(&[0u8; 16]), Ok(()));
    assert!(cipher.encrypt_blocks(&[0u8; 16]).is_ok());
}

#[test]
fn failed_rekey_keeps_installed_key() {
    let mut cipher = keyed_cipher(&counting_key());
    let before = cipher.encrypt_blocks(&stepped_block()).unwrap();
    assert_eq!(cipher.set_key(&[1u8; 32]), Err(Error::InvalidKeyLength));
    assert_eq!(cipher.encrypt_blocks(&stepped_block()).unwrap(), before);
    assert_eq!(cipher.decrypt_blocks(&before).unwrap(), stepped_block());
}

#[test]
fn rekey_replaces_schedule() {
    let mut cipher = keyed_cipher(&[0u8; 16]);
    cipher.set_key(&counting_key()).unwrap();
    let fresh = keyed_cipher(&counting_key());
    let block = stepped_block();
    assert_eq!(cipher.encrypt_blocks(&block), fresh.encrypt_blocks(&block));
}

#[test]
fn known_ciphertexts() {
    let cipher = keyed_cipher(&[0u8; 16]);
    assert_eq!(cipher.encrypt_blocks(&[0u8; 16]).unwrap(), ZERO_KEY_ZERO_BLOCK.to_vec());
    let cipher = keyed_cipher(&counting_key());
    assert_eq!(
        cipher.encrypt_blocks(&stepped_block()).unwrap(),
        vec![122, 168, 210, 4, 42, 88, 130, 188, 218, 8, 50, 100, 138, 184, 226, 28]
    );
}

#[test]
fn round_trip_over_keys_and_lengths() {
    let keys: Vec<Vec<u8>> = vec![vec![0u8; 16], counting_key(), vec![0xffu8; 16], (0u8..16).rev().collect()];
    for key in &keys {
        let cipher = keyed_cipher(key);
        for blocks in 0usize..5 {
            let plain: Vec<u8> = (0..blocks * 16).map(|i| (i * 37 + 5) as u8).collect();
            let ct = cipher.encrypt_blocks(&plain).unwrap();
            assert_eq!(ct.len(), plain.len());
            assert_eq!(cipher.decrypt_blocks(&ct).unwrap(), plain);
            let mut buf = plain.clone();
            cipher.encrypt_in_place(&mut buf).unwrap();
            assert_eq!(buf, ct);
            cipher.decrypt_in_place(&mut buf).unwrap();
            assert_eq!(buf, plain);
        }
    }
}

#[test]
fn blocks_are_transformed_independently() {
    let cipher = keyed_cipher(&counting_key());
    let mut two = stepped_block();
    two.extend(stepped_block());
    let ct = cipher.encrypt_blocks(&two).unwrap();
    assert_eq!(ct[..16], ct[16..]);
    let one = cipher.encrypt_blocks(&stepped_block()).unwrap();
    assert_eq!(ct[..16], one[..]);
}

#[test]
fn clear_twice_is_like_once() {
    let mut cipher = keyed_cipher(&counting_key());
    assert_eq!(cipher.clear(), Ok(()));
    assert_eq!(cipher.clear(), Ok(()));
    assert_eq!(cipher.encrypt_blocks(&[0u8; 16]), Err(Error::NoKeySet));
    let mut fresh = BlockCipher::new("TestCipher").unwrap();
    assert_eq!(fresh.clear(), Ok(()));
    assert_eq!(fresh.encrypt_blocks(&[0u8; 16]), Err(Error::NoKeySet));
}

#[test]
fn empty_and_short_buffers() {
    let cipher = keyed_cipher(&[3u8; 16]);
    let mut empty: Vec<u8> = Vec::new();
    assert_eq!(cipher.encrypt_in_place(&mut empty), Ok(()));
    assert!(empty.is_empty());
    assert_eq!(cipher.decrypt_in_place(&mut empty), Ok(()));
    let mut short = vec![9u8; 15];
    assert_eq!(cipher.encrypt_in_place(&mut short), Err(Error::InvalidInputLength));
    assert_eq!(short, vec![9u8; 15]);
    assert_eq!(cipher.decrypt_in_place(&mut short), Err(Error::InvalidInputLength));
    assert_eq!(cipher.encrypt_blocks(&[0u8; 17]), Err(Error::InvalidInputLength));
    let unkeyed = BlockCipher::new("TestCipher").unwrap();
    let mut empty: Vec<u8> = Vec::new();
    assert_eq!(unkeyed.encrypt_in_place(&mut empty), Err(Error::NoKeySet));
}

#[test]
fn length_is_checked_before_key() {
    let cipher = BlockCipher::new("TestCipher").unwrap();
    assert_eq!(cipher.encrypt_blocks(&[0u8; 17]), Err(Error::InvalidInputLength));
    assert_eq!(cipher.decrypt_blocks(&[0u8; 15]), Err(Error::InvalidInputLength));
    assert_eq!(cipher.decrypt_blocks(&[0u8; 16]), Err(Error::NoKeySet));
    let mut buf = vec![4u8; 32];
    assert_eq!(cipher.decrypt_in_place(&mut buf), Err(Error::NoKeySet));
    assert_eq!(buf, vec![4u8; 32]);
}

#[test]
fn convenience_copies_leave_input_alone() {
    let cipher = keyed_cipher(&counting_key());
    let input = stepped_block();
    let ct = cipher.encrypt_blocks(&input).unwrap();
    assert_eq!(input, stepped_block());
    assert_ne!(ct, input);
    let back = cipher.decrypt_blocks(&ct).unwrap();
    assert_eq!(back, input);
}

#[test]
fn zero_key_zero_block_scenario() {
    let mut cipher = BlockCipher::new("TestCipher").unwrap();
    assert_eq!(cipher.block_size(), Ok(16));
    assert_eq!(cipher.set_key(&[0u8; 16]), Ok(()));
    let ct = cipher.encrypt_blocks(&[0u8; 16]).unwrap();
    assert_ne!(ct, vec![0u8; 16]);
    assert_eq!(cipher.decrypt_blocks(&ct).unwrap(), vec![0u8; 16]);
}

#[test]
fn long_key_refused_scenario() {
    let mut cipher = BlockCipher::new("TestCipher").unwrap();
    let spec = cipher.key_spec().unwrap();
    assert_eq!(
        (spec.minimum_keylength(), spec.maximum_keylength(), spec.keylength_multiple()),
        (16, 16, 1)
    );
    assert_eq!(cipher.set_key(&[0u8; 32]), Err(Error::InvalidKeyLength));
    assert_eq!(cipher.encrypt_blocks(&[0u8; 16]), Err(Error::NoKeySet));
}

#[test]
fn clear_then_encrypt_scenario() {
    let mut cipher = BlockCipher::new("TestCipher").unwrap();
    cipher.set_key(&[0u8; 16]).unwrap();
    let buf = [0u8; 16];
    assert!(cipher.encrypt_blocks(&buf).is_ok());
    assert_eq!(cipher.clear(), Ok(()));
    assert_eq!(cipher.encrypt_blocks(&buf), Err(Error::NoKeySet));
}
