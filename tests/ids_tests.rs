use num_bigint::BigUint;
use rsvp::ids::{auth_token_for, base36_id, decimal_bytes, generate_auth_token, generate_id, hex_lower, id_for, new_user_uid};
use sha2::{Digest, Sha256};

#[test]
fn decimal_digits() {
    assert_eq!(decimal_bytes(0), b"0".to_vec());
    assert_eq!(decimal_bytes(1234567890123), b"1234567890123".to_vec());
}

#[test]
fn hex_is_lowercase_two_per_byte() {
    assert_eq!(hex_lower(&vec![0x0f, 0xa0, 0x00]), "0fa000");
    assert_eq!(hex_lower(&vec![]), "");
}

#[test]
fn base36_small_values() {
    assert_eq!(base36_id(&vec![0, 36], 2), Some("10".to_string()));
    assert_eq!(base36_id(&vec![0, 36], 3), None);
    assert_eq!(base36_id(&vec![1, 0], 1), Some("7".to_string()));
    assert_eq!(base36_id(&vec![0, 35], 1), Some("Z".to_string()));
    assert_eq!(base36_id(&vec![0, 0], 0), Some("".to_string()));
    assert_eq!(base36_id(&vec![0, 0], 1), None);
}

#[test]
fn id_matches_digest_in_base36() {
    let hash = Sha256::digest(b"1700000000000127.0.0.1");
    let full = BigUint::from_bytes_be(&hash).to_str_radix(36).to_uppercase();
    assert_eq!(id_for(1700000000000, "127.0.0.1", 4), Some(full[..4].to_string()));
}

#[test]
fn token_is_hex_digest() {
    let hash = Sha256::digest(b"42nonce");
    let expected: String = hash.iter().map(|b| format!("{:02x}", b)).collect();
    assert_eq!(auth_token_for(42, "nonce"), expected);
}

#[test]
fn generated_values_have_their_lengths() {
    let token = generate_auth_token();
    assert_eq!(token.len(), 64);
    assert!(token.chars().all(|c| c.is_ascii_hexdigit()));
    let id = generate_id("10.0.0.1", 4).unwrap();
    assert_eq!(id.len(), 4);
    assert!(id.chars().all(|c| c.is_ascii_digit() || c.is_ascii_uppercase()));
    assert_eq!(new_user_uid().len(), 36);
}
