use besynx::crypto::{challenge_message, verify_signature, to_array, Identity};
use besynx::hexcodec::{decode_hex, encode_hex};
use besynx::peer::{advance, advance_with_nonce, PeerAction, PeerError, PeerInput, PeerState};
use besynx::protocol::{HistoryItem, PeerMessage};

fn item(uuid: &str, ts: i64) -> HistoryItem {
    HistoryItem {
        uuid: uuid.to_string(),
        url: "https://example.com".to_string(),
        normalized_url: "https://example.com".to_string(),
        title: "Example".to_string(),
        timestamp: ts,
        browser: "extension".to_string(),
        device: "phone".to_string(),
        hash: String::new(),
        visit_type: "visited".to_string(),
    }
}

/// Runs the handshake up to the acknowledgement; returns the state and our challenge.
fn handshake(daemon: &Identity, peer: &Identity) -> (PeerState, String) {
    let init = PeerInput::Received(PeerMessage::HandshakeInit {
        device_id: "phone".to_string(),
        challenge_hex: "aabbccdd".to_string(),
    });
    let (state, action) = advance(PeerState::AwaitingInit, init, daemon);
    match action {
        PeerAction::LookupDevice(d) => assert_eq!(d, "phone"),
        other => panic!("unexpected {:?}", other),
    }
    let stored = PeerInput::StoredKey(Some(peer.public_key().to_vec()));
    let (state, action) = advance(state, stored, daemon);
    let challenge = match action {
        PeerAction::Send(PeerMessage::HandshakeResponse { signature_hex, challenge_hex }) => {
            let sig: [u8; 64] = to_array(&decode_hex(&signature_hex).unwrap());
            let message = challenge_message("aabbccdd");
            assert!(verify_signature(&daemon.public_key(), message.as_bytes(), &sig));
            challenge_hex
        }
        other => panic!("unexpected {:?}", other),
    };
    assert_eq!(challenge.len(), 32);
    (state, challenge)
}

fn ack(peer: &Identity, challenge: &str) -> PeerInput {
    let message = challenge_message(challenge);
    PeerInput::Received(PeerMessage::HandshakeAck { signature_hex: encode_hex(&peer.sign(message.as_bytes())) })
}

#[test]
fn response_signs_peer_challenge_with_fixed_nonce() {
    let daemon = Identity::from_bytes([3u8; 32]);
    let peer = Identity::from_bytes([4u8; 32]);
    let state = PeerState::AwaitingKey { device_id: "phone".to_string(), peer_challenge: "00".to_string() };
    let (next, action) = advance_with_nonce(state, PeerInput::StoredKey(Some(peer.public_key().to_vec())), &[0xab; 16], &daemon);
    match action {
        PeerAction::Send(PeerMessage::HandshakeResponse { signature_hex, challenge_hex }) => {
            assert_eq!(challenge_hex, "abababababababababababababababab");
            assert_eq!(signature_hex, encode_hex(&daemon.sign(b"besynx-auth-v1:00")));
        }
        other => panic!("unexpected {:?}", other),
    }
    match next {
        PeerState::AwaitingAck { device_id, peer_key, local_challenge } => {
            assert_eq!(device_id, "phone");
            assert_eq!(peer_key, peer.public_key());
            assert_eq!(local_challenge, "abababababababababababababababab");
        }
        other => panic!("unexpected {:?}", other),
    }
}

#[test]
fn valid_ack_authenticates_and_requests_sync() {
    let daemon = Identity::generate();
    let peer = Identity::generate();
    let (state, challenge) = handshake(&daemon, &peer);
    let (state, action) = advance(state, ack(&peer, &challenge), &daemon);
    assert!(matches!(&action, PeerAction::QueryLastTimestamp(d) if d == "phone"));
    let (state, action) = advance(state, PeerInput::LastTimestamp(Some(42)), &daemon);
    assert!(matches!(action, PeerAction::Send(PeerMessage::SyncRequest { last_timestamp: 42 })));
    assert!(matches!(&state, PeerState::Syncing { device_id } if device_id == "phone"));
}

#[test]
fn missing_history_mark_requests_everything() {
    let daemon = Identity::generate();
    let state = PeerState::AwaitingHistoryMark { device_id: "phone".to_string() };
    let (_, action) = advance(state, PeerInput::LastTimestamp(None), &daemon);
    assert!(matches!(action, PeerAction::Send(PeerMessage::SyncRequest { last_timestamp: 0 })));
}

#[test]
fn ack_from_other_key_ends_session() {
    let daemon = Identity::generate();
    let peer = Identity::generate();
    let impostor = Identity::generate();
    let (state, challenge) = handshake(&daemon, &peer);
    let (state, action) = advance(state, ack(&impostor, &challenge), &daemon);
    assert!(matches!(action, PeerAction::Finish));
    assert!(matches!(state, PeerState::Closed));
}

#[test]
fn ack_over_wrong_challenge_ends_session() {
    let daemon = Identity::generate();
    let peer = Identity::generate();
    let (state, _) = handshake(&daemon, &peer);
    let (_, action) = advance(state, ack(&peer, "00000000000000000000000000000000"), &daemon);
    assert!(matches!(action, PeerAction::Finish));
}

#[test]
fn non_hex_ack_is_an_error() {
    let daemon = Identity::generate();
    let peer = Identity::generate();
    let (state, _) = handshake(&daemon, &peer);
    let bad = PeerInput::Received(PeerMessage::HandshakeAck { signature_hex: "zz".to_string() });
    let (_, action) = advance(state, bad, &daemon);
    assert!(matches!(action, PeerAction::Fail(PeerError::MalformedSignature)));
}

#[test]
fn short_ack_signature_ends_session() {
    let daemon = Identity::generate();
    let peer = Identity::generate();
    let (state, _) = handshake(&daemon, &peer);
    let bad = PeerInput::Received(PeerMessage::HandshakeAck { signature_hex: "00".repeat(63) });
    let (_, action) = advance(state, bad, &daemon);
    assert!(matches!(action, PeerAction::Finish));
}

#[test]
fn unpaired_device_ends_session() {
    let daemon = Identity::generate();
    let state = PeerState::AwaitingKey { device_id: "x".to_string(), peer_challenge: "00".to_string() };
    let (state, action) = advance(state, PeerInput::StoredKey(None), &daemon);
    assert!(matches!(action, PeerAction::Finish));
    assert!(matches!(state, PeerState::Closed));
}

#[test]
fn stored_key_of_wrong_length_ends_session() {
    let daemon = Identity::generate();
    let state = PeerState::AwaitingKey { device_id: "x".to_string(), peer_challenge: "00".to_string() };
    let (_, action) = advance(state, PeerInput::StoredKey(Some(vec![1u8; 31])), &daemon);
    assert!(matches!(action, PeerAction::Finish));
}

#[test]
fn first_message_must_be_init() {
    let daemon = Identity::generate();
    let (state, action) = advance(PeerState::AwaitingInit, PeerInput::Received(PeerMessage::SyncRequest { last_timestamp: 0 }), &daemon);
    assert!(matches!(action, PeerAction::Finish));
    assert!(matches!(state, PeerState::Closed));
    let (_, action) = advance(PeerState::AwaitingInit, PeerInput::Unreadable, &daemon);
    assert!(matches!(action, PeerAction::Fail(PeerError::MalformedMessage)));
    let (_, action) = advance(PeerState::AwaitingInit, PeerInput::Disconnected, &daemon);
    assert!(matches!(action, PeerAction::Finish));
}

#[test]
fn sync_before_authentication_is_refused() {
    let daemon = Identity::generate();
    let peer = Identity::generate();
    let (state, _) = handshake(&daemon, &peer);
    let (state, action) = advance(state, PeerInput::Received(PeerMessage::SyncData { visits: vec![item("u1", 1)] }), &daemon);
    assert!(matches!(action, PeerAction::Finish));
    assert!(matches!(state, PeerState::Closed));
}

#[test]
fn syncing_serves_and_stores_history() {
    let daemon = Identity::generate();
    let state = PeerState::Syncing { device_id: "phone".to_string() };
    let (state, action) = advance(state, PeerInput::Received(PeerMessage::SyncRequest { last_timestamp: 7 }), &daemon);
    assert!(matches!(action, PeerAction::QueryHistorySince(7)));
    let (state, action) = advance(state, PeerInput::History(vec![item("u1", 8)]), &daemon);
    match action {
        PeerAction::Reply(PeerMessage::SyncData { visits }) => {
            assert_eq!(visits.len(), 1);
            assert_eq!(visits[0].uuid, "u1");
        }
        other => panic!("unexpected {:?}", other),
    }
    let (state, action) = advance(state, PeerInput::Received(PeerMessage::SyncData { visits: vec![item("u2", 9)] }), &daemon);
    assert!(matches!(&action, PeerAction::StoreVisits(v) if v.len() == 1 && v[0].uuid == "u2"));
    let (state, action) = advance(state, PeerInput::Unreadable, &daemon);
    assert!(matches!(action, PeerAction::Receive));
    let (state, action) = advance(state, PeerInput::Received(PeerMessage::HandshakeAck { signature_hex: String::new() }), &daemon);
    assert!(matches!(action, PeerAction::Receive));
    let (state, action) = advance(state, PeerInput::Disconnected, &daemon);
    assert!(matches!(action, PeerAction::Finish));
    assert!(matches!(state, PeerState::Closed));
}

#[test]
fn input_out_of_order_is_an_error() {
    let daemon = Identity::generate();
    let (_, action) = advance(PeerState::AwaitingInit, PeerInput::LastTimestamp(None), &daemon);
    assert!(matches!(action, PeerAction::Fail(PeerError::OutOfOrder)));
}
