use image_dedup::phash::{PHash, HASH_BYTES};

fn hash_of_bytes(bytes: Vec<u8>) -> PHash {
    assert_eq!(bytes.len(), HASH_BYTES);
    PHash::from_bytes(bytes)
}

#[test]
fn distance_of_equal_hashes_is_zero() {
    let a = hash_of_bytes(vec![0xA5; HASH_BYTES]);
    let b = hash_of_bytes(vec![0xA5; HASH_BYTES]);
    assert_eq!(a.dist(&b), 0);
}

#[test]
fn distance_counts_differing_bits() {
    let a = hash_of_bytes(vec![0x00; HASH_BYTES]);
    let mut bits = vec![0x00u8; HASH_BYTES];
    bits[0] = 0xFF;
    bits[1] = 0x03;
    let b = hash_of_bytes(bits);
    assert_eq!(a.dist(&b), 10);
}

#[test]
fn distance_of_single_bit() {
    let a = hash_of_bytes(vec![0x00; HASH_BYTES]);
    let mut bits = vec![0x00u8; HASH_BYTES];
    bits[17] = 0x80;
    let b = hash_of_bytes(bits);
    assert_eq!(a.dist(&b), 1);
}

#[test]
fn distance_of_complement_is_all_bits() {
    let a = hash_of_bytes(vec![0x00; HASH_BYTES]);
    let b = hash_of_bytes(vec![0xFF; HASH_BYTES]);
    assert_eq!(a.dist(&b), 8 * HASH_BYTES as u32);
}

#[test]
fn distance_is_symmetric() {
    let a = hash_of_bytes(vec![0x12; HASH_BYTES]);
    let b = hash_of_bytes(vec![0xC7; HASH_BYTES]);
    assert_eq!(a.dist(&b), b.dist(&a));
}
