use besynx::crypto::{challenge_message, Identity};
use besynx::hexcodec::encode_hex;
use besynx::pairing::{
    issue_challenge, issue_challenge_with_nonce, pair_response, ChallengeStore, PairError,
    PairRequest, CHALLENGE_LIFETIME_NANOS,
};

const NONCE: [u8; 16] = [0, 1, 2, 3, 4, 5, 6, 7, 8, 9, 10, 11, 12, 13, 14, 15];

fn signed_request(device: &Identity, challenge: &str) -> PairRequest {
    let message = challenge_message(challenge);
    PairRequest {
        device_id: "laptop-1".to_string(),
        device_name: "Laptop".to_string(),
        public_key_hex: encode_hex(&device.public_key()),
        challenge_hex: challenge.to_string(),
        signature_hex: encode_hex(&device.sign(message.as_bytes())),
    }
}

#[test]
fn challenge_is_hex_of_nonce() {
    let mut store = ChallengeStore::new();
    let c = issue_challenge_with_nonce(&mut store, &NONCE, 5);
    assert_eq!(c, "000102030405060708090a0b0c0d0e0f");
    assert_eq!(store.issued_at(&c), Some(5));
    assert_eq!(store.len(), 1);
}

#[test]
fn random_challenges_are_32_hex_digits() {
    let mut store = ChallengeStore::new();
    let a = issue_challenge(&mut store, 0);
    let b = issue_challenge(&mut store, 1);
    assert_eq!(a.len(), 32);
    assert!(a.chars().all(|c| c.is_ascii_hexdigit() && !c.is_ascii_uppercase()));
    assert_ne!(a, b);
    assert_eq!(store.len(), 2);
}

#[test]
fn expired_challenges_are_dropped_on_issue() {
    let mut store = ChallengeStore::new();
    let old = issue_challenge_with_nonce(&mut store, &NONCE, 0);
    let young_nonce = [7u8; 16];
    let young = issue_challenge_with_nonce(&mut store, &young_nonce, 10);
    let later = CHALLENGE_LIFETIME_NANOS;
    let _ = issue_challenge_with_nonce(&mut store, &[9u8; 16], later);
    assert_eq!(store.issued_at(&old), None);
    assert_eq!(store.issued_at(&young), Some(10));
    assert_eq!(store.len(), 2);
}

#[test]
fn challenge_just_under_five_minutes_survives() {
    let mut store = ChallengeStore::new();
    let c = issue_challenge_with_nonce(&mut store, &NONCE, 1000);
    store.prune(1000 + CHALLENGE_LIFETIME_NANOS - 1);
    assert_eq!(store.issued_at(&c), Some(1000));
    store.prune(1000 + CHALLENGE_LIFETIME_NANOS);
    assert_eq!(store.issued_at(&c), None);
}

#[test]
fn reissued_challenge_takes_new_time() {
    let mut store = ChallengeStore::new();
    let c = issue_challenge_with_nonce(&mut store, &NONCE, 1);
    let d = issue_challenge_with_nonce(&mut store, &NONCE, 2);
    assert_eq!(c, d);
    assert_eq!(store.issued_at(&c), Some(2));
    assert_eq!(store.len(), 1);
}

#[test]
fn signed_challenge_pairs_device() {
    let daemon = Identity::generate();
    let device = Identity::generate();
    let mut store = ChallengeStore::new();
    let c = issue_challenge(&mut store, 0);
    let req = signed_request(&device, &c);
    let paired = pair_response(&mut store, &daemon, &req).unwrap();
    assert_eq!(paired.device_id, "laptop-1");
    assert_eq!(paired.device_name, "Laptop");
    assert_eq!(paired.public_key, device.public_key().to_vec());
    assert_eq!(paired.daemon_public_key_hex, encode_hex(&daemon.public_key()));
    assert_eq!(store.len(), 0);
}

#[test]
fn challenge_cannot_be_replayed() {
    let daemon = Identity::generate();
    let device = Identity::generate();
    let mut store = ChallengeStore::new();
    let c = issue_challenge(&mut store, 0);
    let req = signed_request(&device, &c);
    assert!(pair_response(&mut store, &daemon, &req).is_ok());
    assert_eq!(pair_response(&mut store, &daemon, &req).err(), Some(PairError::UnknownChallenge));
}

#[test]
fn unknown_challenge_is_bad_request() {
    let daemon = Identity::generate();
    let device = Identity::generate();
    let mut store = ChallengeStore::new();
    let req = signed_request(&device, "00112233445566778899aabbccddeeff");
    let err = pair_response(&mut store, &daemon, &req).err().unwrap();
    assert_eq!(err, PairError::UnknownChallenge);
    assert_eq!(err.status_code(), 400);
}

#[test]
fn signature_over_other_challenge_is_unauthorized() {
    let daemon = Identity::generate();
    let device = Identity::generate();
    let mut store = ChallengeStore::new();
    let c = issue_challenge_with_nonce(&mut store, &NONCE, 0);
    let mut req = signed_request(&device, "ffffffffffffffffffffffffffffffff");
    req.challenge_hex = c.clone();
    let err = pair_response(&mut store, &daemon, &req).err().unwrap();
    assert_eq!(err, PairError::BadSignature);
    assert_eq!(err.status_code(), 401);
    assert_eq!(store.issued_at(&c), None);
}

#[test]
fn short_key_is_malformed() {
    let daemon = Identity::generate();
    let device = Identity::generate();
    let mut store = ChallengeStore::new();
    let c = issue_challenge_with_nonce(&mut store, &NONCE, 0);
    let mut req = signed_request(&device, &c);
    req.public_key_hex.truncate(62);
    let err = pair_response(&mut store, &daemon, &req).err().unwrap();
    assert_eq!(err, PairError::Malformed);
    assert_eq!(err.status_code(), 400);
}

#[test]
fn non_hex_signature_is_malformed() {
    let daemon = Identity::generate();
    let device = Identity::generate();
    let mut store = ChallengeStore::new();
    let c = issue_challenge_with_nonce(&mut store, &NONCE, 0);
    let mut req = signed_request(&device, &c);
    req.signature_hex = "xy".repeat(64);
    assert_eq!(pair_response(&mut store, &daemon, &req).err(), Some(PairError::Malformed));
}

#[test]
fn uppercase_hex_key_is_accepted() {
    let daemon = Identity::generate();
    let device = Identity::generate();
    let mut store = ChallengeStore::new();
    let c = issue_challenge(&mut store, 0);
    let mut req = signed_request(&device, &c);
    req.public_key_hex = req.public_key_hex.to_uppercase();
    assert!(pair_response(&mut store, &daemon, &req).is_ok());
}
