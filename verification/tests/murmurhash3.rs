//! Hash values shared with the Alternator clients in other languages.
use alternator_driver::keyrouting::murmurhash3::{fmix64, hash};

// ----- Cross-language compatibility  -----

#[test]
fn go_compatibility_empty_input() {
    // Empty input with seed 0 produces h1 = 0.
    assert_eq!(hash(&[]), 0);
}

#[test]
fn go_compatibility_test() {
    assert_eq!(hash(b"test"), 0xac7d28cc74bde19d_u64);
}

#[test]
fn go_compatibility_hello() {
    assert_eq!(hash(b"hello"), 0xcbd8a7b341bd9b02_u64);
}

#[test]
fn go_compatibility_user_123() {
    assert_eq!(hash(b"user_123"), 0x104832bf621f0137_u64);
}

#[test]
fn go_compatibility_exactly_16_bytes() {
    assert_eq!(hash(b"0123456789abcdef"), 0x4be06d94cf4ad1a7_u64,);
}

#[test]
fn go_compatibility_high_bytes() {
    let data = [0xFF, 0x80, 0x7F, 0x00];
    assert_eq!(hash(&data), 0x3408b0fbe4cb130c_u64);
}

// ----- Block / tail boundary coverage -----

#[test]
fn empty_byte_array() {
    assert_eq!(hash(&[]), 0);
}

#[test]
fn single_byte() {
    assert_ne!(hash(&[0x42]), 0);
}

#[test]
fn short_string() {
    assert_ne!(hash(b"hello"), 0);
}

#[test]
fn exactly_16_bytes_is_one_block() {
    let data = b"0123456789abcdef";
    assert_eq!(data.len(), 16);
    assert_ne!(hash(data), 0);
}

#[test]
fn seventeen_bytes_one_block_plus_tail() {
    let data = b"0123456789abcdefg";
    assert_eq!(data.len(), 17);
    assert_ne!(hash(data), 0);
}

#[test]
fn longer_string() {
    assert_ne!(hash(b"this is a longer string that exceeds 16 bytes"), 0);
}

#[test]
fn thirty_two_bytes_two_full_blocks() {
    let data = b"01234567890123456789012345678901";
    assert_eq!(data.len(), 32);
    assert_ne!(hash(data), 0);
}

#[test]
fn forty_eight_bytes_three_full_blocks() {
    let data = b"012345678901234567890123456789012345678901234567";
    assert_eq!(data.len(), 48);
    assert_ne!(hash(data), 0);
}

#[test]
fn all_tail_lengths_one_through_fifteen() {
    // Exercise every tail-handling code path: a full 16-byte block
    // followed by 1, 2, 3, ..., 15 extra bytes.
    for tail_len in 1..16 {
        let data: Vec<u8> = (0..(16 + tail_len) as u8).collect();
        assert_ne!(
            hash(&data),
            0,
            "tail length {tail_len} should produce non-zero hash",
        );
    }
}

#[test]
fn binary_data_with_null_and_high_bytes() {
    let data = [0x00, 0x01, 0x02, 0xFF, 0xFE, 0xFD];
    assert_ne!(hash(&data), 0);
}

#[test]
fn quick_brown_fox() {
    let data = b"The quick brown fox jumps over the lazy dog";
    let h1 = hash(data);
    let h2 = hash(data);
    assert_eq!(h1, h2);
}

// ----- Properties -----

#[test]
fn murmurhash3_deterministic() {
    let data = b"partition_key_value";
    assert_eq!(hash(data), hash(data));
}

#[test]
fn different_inputs_produce_different_hashes() {
    assert_ne!(hash(b"user_123"), hash(b"user_456"));
}

#[test]
fn partition_key_simulation() {
    for key in [
        "user_id12345",
        "order_98765",
        "pk_abc_123",
        "session_xyz_789",
    ] {
        let h = hash(key.as_bytes());
        assert_ne!(h, 0, "key {key:?} produced zero hash");
    }
}


#[test]
fn the_final_mix_is_one_to_one() {
    assert_eq!(fmix64(0), 0);
    assert_eq!(fmix64(1), 0xb456bcfc34c2cb2c);
    let mixed: std::collections::HashSet<u64> = (0..1000).map(fmix64).collect();
    assert_eq!(mixed.len(), 1000);
}
