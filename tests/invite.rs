use launch_indexer::invite::{generate_invite_code, is_valid_invite_code, normalize_evm_address, strip_hex_prefix};

#[test]
fn invite_code_shape() {
    assert!(is_valid_invite_code("A1B2C3"));
    assert!(is_valid_invite_code("000000"));
    assert!(!is_valid_invite_code("a1b2c3"));
    assert!(!is_valid_invite_code("A1B2C"));
    assert!(!is_valid_invite_code("A1B2C3D"));
    assert!(!is_valid_invite_code("A1-2C3"));
    assert!(!is_valid_invite_code(""));
    assert!(!is_valid_invite_code("ÄBCDEF"));
}

#[test]
fn generated_codes_are_valid_and_seeded() {
    let a = generate_invite_code([7u8; 32]);
    let b = generate_invite_code([7u8; 32]);
    let c = generate_invite_code([8u8; 32]);
    assert!(is_valid_invite_code(&a));
    assert!(is_valid_invite_code(&c));
    assert_eq!(a, b);
}

#[test]
fn evm_addresses_are_normalized() {
    assert_eq!(normalize_evm_address("0xABCdef12"), "abcdef12");
    assert_eq!(normalize_evm_address("ABCDEF"), "abcdef");
    assert_eq!(normalize_evm_address("0X12"), "12");
    assert_eq!(strip_hex_prefix("0xAB"), "AB");
    assert_eq!(strip_hex_prefix("0X12"), "0X12");
    assert_eq!(strip_hex_prefix("0"), "0");
}
