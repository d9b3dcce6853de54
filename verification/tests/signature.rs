use code_vm_api::error::ProgramError;
use code_vm_api::utils::signature::{is_small_order, scalar_from_u64, sig_verify, split_signature, G};
use curve25519_dalek::constants;
use curve25519_dalek::scalar::Scalar;
use solana_keypair::Keypair;
use solana_signer::Signer;

#[test]
fn test_base_point() {
    let base_point = constants::ED25519_BASEPOINT_POINT;
    let compressed = base_point.compress();
    let bytes = compressed.to_bytes();
    assert_eq!(bytes, G);
}

#[test]
fn test_small_order() {
    let base_point_bytes = G;
    assert_eq!(is_small_order(&base_point_bytes), false);

    for i in 0..8 {
        let torsion_point = constants::EIGHT_TORSION[i];
        let compressed = torsion_point.compress();
        let torsion_point_bytes = compressed.to_bytes();
        assert_eq!(is_small_order(&torsion_point_bytes), true);
    }
}

fn signed(digest: &[u8; 32]) -> ([u8; 32], [u8; 64]) {
    let b = constants::ED25519_BASEPOINT_POINT;
    let a = Scalar::from_bytes_mod_order([7u8; 32]);
    let pubkey = (a * b).compress().to_bytes();
    let r = Scalar::from_bytes_mod_order([9u8; 32]);
    let big_r = (r * b).compress().to_bytes();
    let h = solana_ed25519_sha512::hash(&big_r, &pubkey, digest);
    let k = Scalar::from_bytes_mod_order_wide(&h);
    let s = r + k * a;
    let mut sig = [0u8; 64];
    sig[..32].copy_from_slice(&big_r);
    sig[32..].copy_from_slice(&s.to_bytes());
    (pubkey, sig)
}

#[test]
fn sig_verify_accepts_a_good_signature() {
    let digest = [5u8; 32];
    let (pubkey, sig) = signed(&digest);
    assert_eq!(sig_verify(&pubkey, &sig, &digest), Ok(()));
}

#[test]
fn sig_verify_refuses_another_message() {
    let digest = [5u8; 32];
    let (pubkey, sig) = signed(&digest);
    let other = [6u8; 32];
    assert_eq!(sig_verify(&pubkey, &sig, &other), Err(ProgramError::InvalidAccountOwner));
}

#[test]
fn sig_verify_refuses_bad_lengths() {
    let digest = [5u8; 32];
    let (pubkey, sig) = signed(&digest);
    assert_eq!(sig_verify(&pubkey[..31], &sig, &digest), Err(ProgramError::InvalidArgument));
    assert_eq!(sig_verify(&pubkey, &sig[..63], &digest), Err(ProgramError::InvalidArgument));
}

#[test]
fn sig_verify_refuses_small_order_key() {
    let digest = [5u8; 32];
    let (_, sig) = signed(&digest);
    let identity = constants::EIGHT_TORSION[0].compress().to_bytes();
    assert_eq!(sig_verify(&identity, &sig, &digest), Err(ProgramError::InvalidAccountOwner));
}

#[test]
fn scalar_from_u64_is_little_endian() {
    let s = scalar_from_u64(0x0102);
    assert_eq!(s[0], 2);
    assert_eq!(s[1], 1);
    assert!(s[2..].iter().all(|b| *b == 0));
}

#[test]
fn split_signature_halves() {
    let mut sig = [0u8; 64];
    for i in 0..64 {
        sig[i] = i as u8;
    }
    let (lo, hi) = split_signature(&sig);
    assert_eq!(lo[0], 0);
    assert_eq!(lo[31], 31);
    assert_eq!(hi[0], 32);
    assert_eq!(hi[31], 63);
}

#[test]
fn sig_verify_accepts_standard_ed25519_signatures() {
    // Signatures made by an independent ed25519 signer over 32-byte messages.
    for seed in 0..8u8 {
        let keypair = Keypair::new();
        let message = [seed; 32];
        let signature = keypair.sign_message(&message);
        let pubkey = keypair.pubkey().to_bytes();
        let sig: &[u8] = signature.as_ref();
        assert_eq!(sig_verify(&pubkey, sig, &message), Ok(()));
        let mut other = message;
        other[31] ^= 1;
        assert!(sig_verify(&pubkey, sig, &other).is_err());
        let mut tampered = [0u8; 64];
        tampered.copy_from_slice(sig);
        tampered[0] ^= 1;
        assert!(sig_verify(&pubkey, &tampered, &message).is_err());
    }
}

#[test]
fn test_hello_world() {
    let pubkey: [u8; 32] = [
        73, 73, 170, 112, 75, 235, 154, 81, 203, 8, 44, 245, 233, 18, 204, 136,
        162, 9, 233, 49, 154, 201, 171, 175, 47, 6, 223, 101, 105, 80, 95, 166
    ];
    let sig: [u8; 64] = [
        164, 121, 89, 242, 88, 29, 80, 177, 104, 20, 102, 176, 48, 133, 68, 8,
        105, 33, 58, 86, 28, 108, 198, 140, 160, 219, 62, 184, 154, 181, 140, 33,
        35, 102, 183, 203, 111, 33, 55, 170, 180, 138, 92, 196, 185, 201, 122, 167,
        15, 112, 9, 228, 226, 112, 111, 10, 142, 73, 85, 43, 81, 152, 204, 13
    ];

    assert!(sig_verify(&pubkey, &sig, "hello world".as_bytes()).is_ok());
    assert!(sig_verify(&pubkey, &sig, "not the right message".as_bytes()).is_err());
}

#[test]
fn test_vector_1() {
    let pubkey : [u8; 32] = [
        0xd7, 0x5a, 0x98, 0x01, 0x82, 0xb1, 0x0a, 0xb7, 0xd5, 0x4b, 0xfe, 0xd3, 0xc9, 0x64, 0x07, 0x3a,
        0x0e, 0xe1, 0x72, 0xf3, 0xda, 0xa6, 0x23, 0x25, 0xaf, 0x02, 0x1a, 0x68, 0xf7, 0x07, 0x51, 0x1a,
    ];

    let sig : [u8; 64] = [
        0xe5, 0x56, 0x43, 0x00, 0xc3, 0x60, 0xac, 0x72, 0x90, 0x86, 0xe2, 0xcc, 0x80, 0x6e, 0x82, 0x8a,
        0x84, 0x87, 0x7f, 0x1e, 0xb8, 0xe5, 0xd9, 0x74, 0xd8, 0x73, 0xe0, 0x65, 0x22, 0x49, 0x01, 0x55,
        0x5f, 0xb8, 0x82, 0x15, 0x90, 0xa3, 0x3b, 0xac, 0xc6, 0x1e, 0x39, 0x70, 0x1c, 0xf9, 0xb4, 0x6b,
        0xd2, 0x5b, 0xf5, 0xf0, 0x59, 0x5b, 0xbe, 0x24, 0x65, 0x51, 0x41, 0x43, 0x8e, 0x7a, 0x10, 0x0b,
    ];

    let message = "".as_bytes();

    assert!(sig_verify(&pubkey, &sig, message).is_ok());
    assert!(sig_verify(&pubkey, &sig, "not the right message".as_bytes()).is_err());
}

#[test]
fn test_vector_2() {
    let pubkey : [u8; 32] = [
        0x3d, 0x40, 0x17, 0xc3, 0xe8, 0x43, 0x89, 0x5a, 0x92, 0xb7, 0x0a, 0xa7, 0x4d, 0x1b, 0x7e, 0xbc,
        0x9c, 0x98, 0x2c, 0xcf, 0x2e, 0xc4, 0x96, 0x8c, 0xc0, 0xcd, 0x55, 0xf1, 0x2a, 0xf4, 0x66, 0x0c,
    ];

    let sig : [u8; 64] = [
        0x92, 0xa0, 0x09, 0xa9, 0xf0, 0xd4, 0xca, 0xb8, 0x72, 0x0e, 0x82, 0x0b, 0x5f, 0x64, 0x25, 0x40,
        0xa2, 0xb2, 0x7b, 0x54, 0x16, 0x50, 0x3f, 0x8f, 0xb3, 0x76, 0x22, 0x23, 0xeb, 0xdb, 0x69, 0xda,
        0x08, 0x5a, 0xc1, 0xe4, 0x3e, 0x15, 0x99, 0x6e, 0x45, 0x8f, 0x36, 0x13, 0xd0, 0xf1, 0x1d, 0x8c,
        0x38, 0x7b, 0x2e, 0xae, 0xb4, 0x30, 0x2a, 0xee, 0xb0, 0x0d, 0x29, 0x16, 0x12, 0xbb, 0x0c, 0x00,
    ];

    let message = "r".as_bytes(); // r = 72

    assert!(sig_verify(&pubkey, &sig, message).is_ok());
    assert!(sig_verify(&pubkey, &sig, "not the right message".as_bytes()).is_err());
}

#[test]
fn test_vector_3() {
    let pubkey : [u8; 32] = [
        0xfc, 0x51, 0xcd, 0x8e, 0x62, 0x18, 0xa1, 0xa3, 0x8d, 0xa4, 0x7e, 0xd0, 0x02, 0x30, 0xf0, 0x58,
        0x08, 0x16, 0xed, 0x13, 0xba, 0x33, 0x03, 0xac, 0x5d, 0xeb, 0x91, 0x15, 0x48, 0x90, 0x80, 0x25,
    ];

    let sig : [u8; 64] = [
        0x62, 0x91, 0xd6, 0x57, 0xde, 0xec, 0x24, 0x02, 0x48, 0x27, 0xe6, 0x9c, 0x3a, 0xbe, 0x01, 0xa3,
        0x0c, 0xe5, 0x48, 0xa2, 0x84, 0x74, 0x3a, 0x44, 0x5e, 0x36, 0x80, 0xd7, 0xdb, 0x5a, 0xc3, 0xac,
        0x18, 0xff, 0x9b, 0x53, 0x8d, 0x16, 0xf2, 0x90, 0xae, 0x67, 0xf7, 0x60, 0x98, 0x4d, 0xc6, 0x59,
        0x4a, 0x7c, 0x15, 0xe9, 0x71, 0x6e, 0xd2, 0x8d, 0xc0, 0x27, 0xbe, 0xce, 0xea, 0x1e, 0xc4, 0x0a,
    ];

    let message = &[0xaf, 0x82];

    assert!(sig_verify(&pubkey, &sig, message).is_ok());
    assert!(sig_verify(&pubkey, &sig, "not the right message".as_bytes()).is_err());
}
