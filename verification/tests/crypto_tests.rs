use besynx::crypto::{challenge_message, to_array, verify_signature, Identity};
use besynx::hexcodec::{decode_hex, encode_hex, MalformedHex};

const RFC_SECRET_1: &str = "9d61b19deffd5a60ba844af492ec2cc44449c5697b326919703bac031cae7f60";
const RFC_PUBLIC_1: &str = "d75a980182b10ab7d54bfed3c964073a0ee172f3daa62325af021a68f707511a";
const RFC_SIGNATURE_1: &str = "e5564300c360ac729086e2cc806e828a84877f1eb8e5d974d873e065224901555fb8821590a33bacc61e39701cf9b46bd25bf5f0595bbe24655141438e7a100b";
const RFC_SECRET_2: &str = "4ccd089b28ff96da9db6c346ec114e0f5b8a319f35aba624da8cf6ed4fb8a6fb";
const RFC_PUBLIC_2: &str = "3d4017c3e843895a92b70aa74d1b7ebc9c982ccf2ec4968cc0cd55f12af4660c";
const RFC_SIGNATURE_2: &str = "92a009a9f0d4cab8720e820b5f642540a2b27b5416503f8fb3762223ebdb69da085ac1e43e15996e458f3613d0f11d8c387b2eaeb4302aeeb00d291612bb0c00";

fn identity(secret_hex: &str) -> Identity {
    let bytes = decode_hex(secret_hex).unwrap();
    Identity::from_bytes(to_array(&bytes))
}

#[test]
fn hex_encodes_lowercase() {
    assert_eq!(encode_hex(&[0xbe, 0xef, 0x00, 0x0a]), "beef000a");
    assert_eq!(encode_hex(&[]), "");
}

#[test]
fn hex_decodes_either_case() {
    assert_eq!(decode_hex("0aFFb0").unwrap(), vec![0x0a, 0xff, 0xb0]);
    assert_eq!(decode_hex("").unwrap(), Vec::<u8>::new());
}

#[test]
fn hex_rejects_odd_length() {
    assert_eq!(decode_hex("abc"), Err(MalformedHex::OddLength));
}

#[test]
fn hex_rejects_non_digits() {
    assert_eq!(decode_hex("zz"), Err(MalformedHex::InvalidCharacter));
    assert_eq!(decode_hex("0g"), Err(MalformedHex::InvalidCharacter));
    assert_eq!(decode_hex("éé"), Err(MalformedHex::InvalidCharacter));
}

#[test]
fn hex_roundtrip_of_all_bytes() {
    let data: Vec<u8> = (0..=255u8).collect();
    assert_eq!(decode_hex(&encode_hex(&data)).unwrap(), data);
}

#[test]
fn public_key_matches_rfc8032_vector() {
    assert_eq!(encode_hex(&identity(RFC_SECRET_1).public_key()), RFC_PUBLIC_1);
    assert_eq!(encode_hex(&identity(RFC_SECRET_2).public_key()), RFC_PUBLIC_2);
}

#[test]
fn signature_matches_rfc8032_vector() {
    assert_eq!(encode_hex(&identity(RFC_SECRET_1).sign(b"")), RFC_SIGNATURE_1);
    assert_eq!(encode_hex(&identity(RFC_SECRET_2).sign(&[0x72])), RFC_SIGNATURE_2);
}

#[test]
fn rfc8032_signature_verifies() {
    let key: [u8; 32] = to_array(&decode_hex(RFC_PUBLIC_2).unwrap());
    let sig: [u8; 64] = to_array(&decode_hex(RFC_SIGNATURE_2).unwrap());
    assert!(verify_signature(&key, &[0x72], &sig));
    assert!(!verify_signature(&key, &[0x73], &sig));
}

#[test]
fn own_signature_verifies_under_own_key() {
    let id = Identity::generate();
    let message = b"besynx-auth-v1:00ff";
    let sig = id.sign(message);
    assert!(verify_signature(&id.public_key(), message, &sig));
}

#[test]
fn tampered_signature_is_refused() {
    let id = identity(RFC_SECRET_1);
    let mut sig = id.sign(b"hello");
    sig[10] ^= 1;
    assert!(!verify_signature(&id.public_key(), b"hello", &sig));
}

#[test]
fn key_that_is_no_curve_point_is_refused() {
    let id = identity(RFC_SECRET_1);
    let sig = id.sign(b"hello");
    let mut bad_key = [0u8; 32];
    bad_key[0] = 2;
    assert!(!verify_signature(&bad_key, b"hello", &sig));
}

#[test]
fn generated_identities_differ() {
    assert_ne!(Identity::generate().to_bytes(), Identity::generate().to_bytes());
}

#[test]
fn key_file_shorter_than_a_seed_is_refused() {
    assert!(Identity::from_key_file(&[7u8; 31]).is_none());
}

#[test]
fn key_file_seed_is_its_first_32_bytes() {
    let mut contents = vec![1u8; 32];
    contents.extend_from_slice(&[9u8; 8]);
    let id = Identity::from_key_file(&contents).unwrap();
    assert_eq!(id.to_bytes(), [1u8; 32]);
}

#[test]
fn challenge_message_has_protocol_label() {
    assert_eq!(challenge_message("0a1b"), "besynx-auth-v1:0a1b");
}
