use chat_core::MAX_IDENTITY_LENGTH;
use chat_core::generate_identity;
use chat_core::validate_identity_length;

#[test]
fn identity_is_deterministic() {
    let a = generate_identity(8080, 10);
    let b = generate_identity(8080, 10);
    assert_eq!(a, b);
}

#[test]
fn identity_has_requested_length() {
    for length in [0usize, 1, 10, 63, 64] {
        assert_eq!(generate_identity(9000, length).len(), length);
    }
}

#[test]
fn identity_known_value() {
    // SHA-256 of the big-endian bytes [0x1f, 0x90] (port 8080).
    let full = "a9cd3dbfe3cf324571700d395ca80357a7b3db1923101365aada49fa55546f86";
    assert_eq!(generate_identity(8080, 64), full);
    assert_eq!(generate_identity(8080, 10), &full[..10]);
}

#[test]
fn identity_matches_direct_digest() {
    let port: u16 = 4321;
    let digest = <sha2::Sha256 as sha2::Digest>::digest(port.to_be_bytes());
    let hex = format!("{:x}", digest);
    assert_eq!(generate_identity(port, 64), hex);
    assert_eq!(generate_identity(port, 7), &hex[..7]);
}

#[test]
fn identity_differs_across_ports() {
    assert_ne!(generate_identity(1, 10), generate_identity(2, 10));
}

#[test]
fn identity_length_validation() {
    assert!(validate_identity_length(0));
    assert!(validate_identity_length(10));
    assert!(validate_identity_length(MAX_IDENTITY_LENGTH));
    assert!(!validate_identity_length(MAX_IDENTITY_LENGTH + 1));
}
